//! Key expressions and their intersection.
//!
//! A key is a `/`-separated list of segments. A segment is a literal, `*`
//! (exactly one segment) or `**` (any number of segments, none included).
//! Two keys intersect when some wildcard-free key is matched by both.

use crate::types::copy_bytes;
use vstd::prelude::*;

verus! {

/// The segment separator, `/`.
pub const SLASH: u8 = 0x2f;

/// The wildcard character, `*`.
pub const STAR: u8 = 0x2a;

/// The byte that stands in for "any literal" when a witness key is built, `x`.
pub const FILLER: u8 = 0x78;

/// The segment `*`.
pub open spec fn is_star(seg: Seq<u8>) -> bool {
    seg.len() == 1 && seg[0] == STAR
}

/// The segment `**`.
pub open spec fn is_double_star(seg: Seq<u8>) -> bool {
    seg.len() == 2 && seg[0] == STAR && seg[1] == STAR
}

/// A byte that may occur in a literal segment: printable ASCII other than
/// the separator and the wildcard character.
pub open spec fn literal_byte(b: u8) -> bool {
    0x20 <= b && b <= 0x7e && b != SLASH && b != STAR
}

/// A non-empty run of literal bytes.
pub open spec fn is_literal(seg: Seq<u8>) -> bool {
    seg.len() > 0 && forall|i: int| 0 <= i < seg.len() ==> literal_byte(#[trigger] seg[i])
}

/// A segment is `*`, `**` or a literal.
pub open spec fn valid_segment(seg: Seq<u8>) -> bool {
    is_star(seg) || is_double_star(seg) || is_literal(seg)
}

/// Every segment is valid.
pub open spec fn valid_segments(segs: Seq<Seq<u8>>) -> bool {
    forall|i: int| 0 <= i < segs.len() ==> valid_segment(#[trigger] segs[i])
}

/// A key without wildcards: at least one segment, every one a literal.
pub open spec fn concrete(k: Seq<Seq<u8>>) -> bool {
    k.len() > 0 && all_literal(k)
}

/// Every segment is a literal.
pub open spec fn all_literal(k: Seq<Seq<u8>>) -> bool {
    forall|i: int| 0 <= i < k.len() ==> is_literal(#[trigger] k[i])
}

/// Whether the pattern `p` matches the wildcard-free segment list `k`.
pub open spec fn matches(p: Seq<Seq<u8>>, k: Seq<Seq<u8>>) -> bool
    decreases p.len(), k.len(),
{
    if p.len() == 0 {
        k.len() == 0
    } else if is_double_star(p[0]) {
        matches(p.drop_first(), k) || (k.len() > 0 && matches(p, k.drop_first()))
    } else if k.len() == 0 {
        false
    } else {
        (is_star(p[0]) || p[0] == k[0]) && matches(p.drop_first(), k.drop_first())
    }
}

/// Two patterns intersect when one concrete key is matched by both.
pub open spec fn intersects(a: Seq<Seq<u8>>, b: Seq<Seq<u8>>) -> bool {
    exists|k: Seq<Seq<u8>>| concrete(k) && #[trigger] matches(a, k) && matches(b, k)
}

/// Two single segments, neither of them `**`, admit a common literal.
pub open spec fn segment_overlap(x: Seq<u8>, y: Seq<u8>) -> bool {
    is_star(x) || is_star(y) || x == y
}

/// The decision procedure: walk both patterns from the left; a `**` either
/// ends here or swallows what the other side starts with.
pub open spec fn overlap(a: Seq<Seq<u8>>, b: Seq<Seq<u8>>) -> bool
    decreases a.len() + b.len(),
{
    if a.len() == 0 && b.len() == 0 {
        true
    } else if a.len() == 0 {
        is_double_star(b[0]) && overlap(a, b.drop_first())
    } else if b.len() == 0 {
        is_double_star(a[0]) && overlap(a.drop_first(), b)
    } else if is_double_star(a[0]) || is_double_star(b[0]) {
        overlap(a.drop_first(), b) || overlap(a, b.drop_first())
    } else {
        segment_overlap(a[0], b[0]) && overlap(a.drop_first(), b.drop_first())
    }
}

/// The literal that a non-`**` segment contributes to a witness key.
pub open spec fn literal_for(seg: Seq<u8>) -> Seq<u8> {
    if is_star(seg) {
        seq![FILLER]
    } else {
        seg
    }
}

proof fn lemma_literal_for(seg: Seq<u8>)
    requires
        valid_segment(seg),
        !is_double_star(seg),
    ensures
        is_literal(literal_for(seg)),
        is_star(seg) || literal_for(seg) == seg,
{
}

/// A pattern that matches the empty list matches any one literal too,
/// unless it is empty itself.
proof fn lemma_matches_empty_grows(p: Seq<Seq<u8>>, x: Seq<u8>)
    requires
        p.len() > 0,
        matches(p, Seq::empty()),
    ensures
        matches(p, seq![x]),
{
    assert(is_double_star(p[0]));
    assert(seq![x].drop_first() =~= Seq::<Seq<u8>>::empty());
}

/// From a positive answer of the procedure, a list of literals that both
/// patterns match.
proof fn lemma_overlap_sound(a: Seq<Seq<u8>>, b: Seq<Seq<u8>>) -> (k: Seq<Seq<u8>>)
    requires
        valid_segments(a),
        valid_segments(b),
        overlap(a, b),
    ensures
        all_literal(k),
        matches(a, k),
        matches(b, k),
    decreases a.len() + b.len(),
{
    if a.len() == 0 && b.len() == 0 {
        Seq::empty()
    } else if a.len() == 0 {
        lemma_overlap_sound(a, b.drop_first())
    } else if b.len() == 0 {
        lemma_overlap_sound(a.drop_first(), b)
    } else if is_double_star(a[0]) || is_double_star(b[0]) {
        if overlap(a.drop_first(), b) {
            let rest = lemma_overlap_sound(a.drop_first(), b);
            if is_double_star(a[0]) {
                rest
            } else {
                lemma_literal_for(a[0]);
                let k = seq![literal_for(a[0])] + rest;
                assert(k.drop_first() =~= rest);
                k
            }
        } else {
            let rest = lemma_overlap_sound(a, b.drop_first());
            if is_double_star(b[0]) {
                rest
            } else {
                lemma_literal_for(b[0]);
                let k = seq![literal_for(b[0])] + rest;
                assert(k.drop_first() =~= rest);
                k
            }
        }
    } else {
        let rest = lemma_overlap_sound(a.drop_first(), b.drop_first());
        lemma_literal_for(a[0]);
        lemma_literal_for(b[0]);
        let head = if is_star(a[0]) {
            literal_for(b[0])
        } else {
            a[0]
        };
        let k = seq![head] + rest;
        assert(k.drop_first() =~= rest);
        k
    }
}

/// Whatever both patterns match, the procedure answers yes.
proof fn lemma_overlap_complete(a: Seq<Seq<u8>>, b: Seq<Seq<u8>>, k: Seq<Seq<u8>>)
    requires
        matches(a, k),
        matches(b, k),
    ensures
        overlap(a, b),
    decreases a.len() + b.len() + k.len(),
{
    if a.len() == 0 && b.len() == 0 {
    } else if a.len() == 0 {
        lemma_overlap_complete(a, b.drop_first(), k);
    } else if b.len() == 0 {
        lemma_overlap_complete(a.drop_first(), b, k);
    } else if is_double_star(a[0]) {
        if matches(a.drop_first(), k) {
            lemma_overlap_complete(a.drop_first(), b, k);
        } else if is_double_star(b[0]) {
            if matches(b.drop_first(), k) {
                lemma_overlap_complete(a, b.drop_first(), k);
            } else {
                lemma_overlap_complete(a, b, k.drop_first());
            }
        } else {
            lemma_overlap_complete(a, b.drop_first(), k.drop_first());
        }
    } else if is_double_star(b[0]) {
        if matches(b.drop_first(), k) {
            lemma_overlap_complete(a, b.drop_first(), k);
        } else {
            lemma_overlap_complete(a.drop_first(), b, k.drop_first());
        }
    } else {
        lemma_overlap_complete(a.drop_first(), b.drop_first(), k.drop_first());
    }
}

/// The decision procedure decides intersection: on valid, non-empty
/// patterns it answers yes exactly when a concrete key is matched by both.
pub proof fn lemma_overlap_decides_intersection(a: Seq<Seq<u8>>, b: Seq<Seq<u8>>)
    requires
        valid_segments(a),
        valid_segments(b),
        a.len() > 0,
        b.len() > 0,
    ensures
        overlap(a, b) == intersects(a, b),
{
    if overlap(a, b) {
        let k = lemma_overlap_sound(a, b);
        if k.len() == 0 {
            let x = seq![FILLER];
            assert(k =~= Seq::<Seq<u8>>::empty());
            lemma_matches_empty_grows(a, x);
            lemma_matches_empty_grows(b, x);
            assert(concrete(seq![x]));
            assert(matches(a, seq![x]));
        } else {
            assert(concrete(k));
            assert(matches(a, k));
        }
    }
    if intersects(a, b) {
        let k = choose|k: Seq<Seq<u8>>| concrete(k) && #[trigger] matches(a, k) && matches(b, k);
        lemma_overlap_complete(a, b, k);
    }
}


/// The name without its leading and trailing separators.
pub open spec fn trim(s: Seq<u8>) -> Seq<u8>
    decreases s.len(),
{
    if s.len() > 0 && s[0] == SLASH {
        trim(s.drop_first())
    } else if s.len() > 0 && s.last() == SLASH {
        trim(s.drop_last())
    } else {
        s
    }
}

/// The runs between separators, in order; a name without separators is one
/// run, and two separators in a row enclose an empty run.
pub open spec fn split(s: Seq<u8>) -> Seq<Seq<u8>>
    decreases s.len(),
{
    if s.len() == 0 {
        seq![Seq::empty()]
    } else {
        let before = split(s.drop_last());
        if s.last() == SLASH {
            before.push(Seq::empty())
        } else {
            before.drop_last().push(before.last().push(s.last()))
        }
    }
}

/// The segments with every run of `**` segments reduced to a single one.
pub open spec fn collapse(segs: Seq<Seq<u8>>) -> Seq<Seq<u8>>
    decreases segs.len(),
{
    if segs.len() == 0 {
        Seq::empty()
    } else {
        let before = collapse(segs.drop_last());
        if is_double_star(segs.last()) && before.len() > 0 && is_double_star(before.last()) {
            before
        } else {
            before.push(segs.last())
        }
    }
}

/// No `**` stands next to another.
pub open spec fn no_adjacent_double_star(segs: Seq<Seq<u8>>) -> bool {
    forall|i: int|
        0 <= i < segs.len() - 1 ==> !(is_double_star(#[trigger] segs[i]) && is_double_star(
            segs[i + 1],
        ))
}

/// The shape of a stored key: at least one segment, each of them valid, no
/// `**` next to another.
pub open spec fn canonical(segs: Seq<Seq<u8>>) -> bool {
    segs.len() > 0 && valid_segments(segs) && no_adjacent_double_star(segs)
}

/// The segments of a name, or `None` where the name is malformed: empty
/// once trimmed, an empty segment inside, a byte that is not printable
/// ASCII, or a `*` in a segment other than `*` and `**`.
pub open spec fn key_segments(name: Seq<u8>) -> Option<Seq<Seq<u8>>> {
    let body = trim(name);
    if body.len() > 0 && valid_segments(split(body)) {
        Some(collapse(split(body)))
    } else {
        None
    }
}

/// Whether two names, given as bytes, are well formed and intersect.
pub open spec fn key_intersect(a: Seq<u8>, b: Seq<u8>) -> bool {
    match (key_segments(a), key_segments(b)) {
        (Some(x), Some(y)) => intersects(x, y),
        _ => false,
    }
}

/// The views of a vector of byte vectors.
pub open spec fn views(v: Seq<Vec<u8>>) -> Seq<Seq<u8>> {
    v.map_values(|s: Vec<u8>| s@)
}

proof fn lemma_trim_all_separators(s: Seq<u8>)
    requires
        forall|i: int| 0 <= i < s.len() ==> s[i] == SLASH,
    ensures
        trim(s).len() == 0,
    decreases s.len(),
{
    if s.len() > 0 {
        lemma_trim_all_separators(s.drop_first());
    }
}

proof fn lemma_trim_range(s: Seq<u8>, lo: int, hi: int)
    requires
        0 <= lo < hi <= s.len(),
        forall|i: int| 0 <= i < lo ==> s[i] == SLASH,
        forall|i: int| hi <= i < s.len() ==> s[i] == SLASH,
        s[lo] != SLASH,
        s[hi - 1] != SLASH,
    ensures
        trim(s) == s.subrange(lo, hi),
    decreases s.len(),
{
    if lo > 0 {
        let t = s.drop_first();
        lemma_trim_range(t, lo - 1, hi - 1);
        assert(t.subrange(lo - 1, hi - 1) =~= s.subrange(lo, hi));
    } else if hi < s.len() {
        let t = s.drop_last();
        lemma_trim_range(t, lo, hi);
        assert(t.subrange(lo, hi) =~= s.subrange(lo, hi));
    } else {
        assert(s.subrange(lo, hi) =~= s);
    }
}

proof fn lemma_collapse_canonical(segs: Seq<Seq<u8>>)
    requires
        valid_segments(segs),
    ensures
        valid_segments(collapse(segs)),
        no_adjacent_double_star(collapse(segs)),
        collapse(segs).len() <= segs.len(),
        segs.len() > 0 ==> collapse(segs).len() > 0,
        segs.len() > 0 ==> collapse(segs).last() == segs.last(),
    decreases segs.len(),
{
    if segs.len() > 0 {
        lemma_collapse_canonical(segs.drop_last());
    }
}

/// What `key_segments` accepts has the shape of a stored key.
pub proof fn lemma_key_segments_canonical(name: Seq<u8>)
    requires
        key_segments(name) is Some,
    ensures
        canonical(key_segments(name)->0),
{
    let segs = split(trim(name));
    lemma_collapse_canonical(segs);
}

fn bytes_equal(a: &Vec<u8>, b: &Vec<u8>) -> (r: bool)
    ensures
        r == (a@ == b@),
{
    if a.len() != b.len() {
        return false;
    }
    let mut i: usize = 0;
    while i < a.len()
        invariant
            i <= a.len(),
            a.len() == b.len(),
            forall|j: int| 0 <= j < i ==> a[j] == b[j],
        decreases a.len() - i,
    {
        if a[i] != b[i] {
            return false;
        }
        i += 1;
    }
    assert(a@ =~= b@);
    true
}

fn segment_is_star(seg: &Vec<u8>) -> (r: bool)
    ensures
        r == is_star(seg@),
{
    seg.len() == 1 && seg[0] == STAR
}

fn segment_is_double_star(seg: &Vec<u8>) -> (r: bool)
    ensures
        r == is_double_star(seg@),
{
    seg.len() == 2 && seg[0] == STAR && seg[1] == STAR
}

fn segment_is_literal(seg: &Vec<u8>) -> (r: bool)
    ensures
        r == is_literal(seg@),
{
    if seg.len() == 0 {
        return false;
    }
    let mut i: usize = 0;
    while i < seg.len()
        invariant
            i <= seg.len(),
            forall|j: int| 0 <= j < i ==> literal_byte(#[trigger] seg[j]),
        decreases seg.len() - i,
    {
        let c = seg[i];
        if !(0x20 <= c && c <= 0x7e && c != SLASH && c != STAR) {
            return false;
        }
        i += 1;
    }
    true
}

fn segment_is_valid(seg: &Vec<u8>) -> (r: bool)
    ensures
        r == valid_segment(seg@),
{
    segment_is_star(seg) || segment_is_double_star(seg) || segment_is_literal(seg)
}

/// Cuts a trimmed name at its separators.
fn split_body(bytes: &[u8], lo: usize, hi: usize) -> (r: Vec<Vec<u8>>)
    requires
        lo <= hi <= bytes.len(),
    ensures
        views(r@) == split(bytes@.subrange(lo as int, hi as int)),
{
    let ghost body = bytes@.subrange(lo as int, hi as int);
    let mut done: Vec<Vec<u8>> = Vec::new();
    let mut current: Vec<u8> = Vec::new();
    let mut p: usize = lo;
    assert(body.take(0) =~= Seq::<u8>::empty());
    assert(views(done@).push(current@) =~= seq![Seq::<u8>::empty()]);
    while p < hi
        invariant
            lo <= p <= hi <= bytes.len(),
            body == bytes@.subrange(lo as int, hi as int),
            split(body.take(p - lo)) == views(done@).push(current@),
        decreases hi - p,
    {
        let c = bytes[p];
        let ghost prefix = body.take(p + 1 - lo);
        assert(prefix.drop_last() =~= body.take(p - lo));
        assert(prefix.last() == c);
        let ghost before = views(done@).push(current@);
        if c == SLASH {
            let ghost old_done = done@;
            done.push(current);
            current = Vec::new();
            assert(views(done@) =~= before);
            assert(split(prefix) == views(done@).push(current@));
        } else {
            let ghost old_current = current@;
            current.push(c);
            assert(before.drop_last() =~= views(done@));
            assert(before.last() == old_current);
            assert(split(prefix) == views(done@).push(current@));
        }
        p += 1;
    }
    assert(body.take(hi - lo) =~= body);
    let ghost before = views(done@).push(current@);
    done.push(current);
    assert(views(done@) =~= before);
    done
}

/// Drops every `**` that follows another.
fn collapse_segments(segs: &Vec<Vec<u8>>) -> (r: Vec<Vec<u8>>)
    ensures
        views(r@) == collapse(views(segs@)),
{
    let ghost all = views(segs@);
    let mut out: Vec<Vec<u8>> = Vec::new();
    let mut i: usize = 0;
    assert(all.take(0) =~= Seq::<Seq<u8>>::empty());
    assert(views(out@) =~= Seq::<Seq<u8>>::empty());
    while i < segs.len()
        invariant
            i <= segs.len(),
            all == views(segs@),
            views(out@) == collapse(all.take(i as int)),
        decreases segs.len() - i,
    {
        let ghost prefix = all.take(i + 1);
        assert(prefix.drop_last() =~= all.take(i as int));
        assert(prefix.last() == segs[i as int]@);
        let ghost before = views(out@);
        let repeated = segment_is_double_star(&segs[i]) && out.len() > 0 && segment_is_double_star(
            &out[out.len() - 1],
        );
        if !repeated {
            let seg = copy_bytes(&segs[i]);
            out.push(seg);
            assert(views(out@) =~= before.push(segs[i as int]@));
        }
        i += 1;
    }
    assert(all.take(segs.len() as int) =~= all);
    out
}

/// Reads a name into its segments. `None` where the name is malformed.
fn parse_segments(bytes: &[u8]) -> (r: Option<Vec<Vec<u8>>>)
    ensures
        match r {
            Some(v) => key_segments(bytes@) == Some(views(v@)),
            None => key_segments(bytes@) is None,
        },
{
    let n = bytes.len();
    let mut lo: usize = 0;
    while lo < n && bytes[lo] == SLASH
        invariant
            lo <= n,
            n == bytes.len(),
            forall|i: int| 0 <= i < lo ==> bytes[i] == SLASH,
        decreases n - lo,
    {
        lo += 1;
    }
    if lo == n {
        proof {
            lemma_trim_all_separators(bytes@);
        }
        return None;
    }
    let mut hi: usize = n;
    while bytes[hi - 1] == SLASH
        invariant
            lo < hi <= n,
            n == bytes.len(),
            bytes[lo as int] != SLASH,
            forall|i: int| hi <= i < n ==> bytes[i] == SLASH,
        decreases hi,
    {
        hi -= 1;
    }
    proof {
        lemma_trim_range(bytes@, lo as int, hi as int);
    }
    let raw = split_body(bytes, lo, hi);
    let mut i: usize = 0;
    while i < raw.len()
        invariant
            i <= raw.len(),
            views(raw@) == split(trim(bytes@)),
            forall|j: int| 0 <= j < i ==> valid_segment(#[trigger] views(raw@)[j]),
        decreases raw.len() - i,
    {
        if !segment_is_valid(&raw[i]) {
            assert(!valid_segment(views(raw@)[i as int]));
            return None;
        }
        i += 1;
    }
    Some(collapse_segments(&raw))
}


proof fn lemma_overlap_unfold(a: Seq<Seq<u8>>, b: Seq<Seq<u8>>, i: int, j: int)
    requires
        0 <= i <= a.len(),
        0 <= j <= b.len(),
    ensures
        overlap(a.skip(i), b.skip(j)) == (if i == a.len() && j == b.len() {
            true
        } else if i == a.len() {
            is_double_star(b[j]) && overlap(a.skip(i), b.skip(j + 1))
        } else if j == b.len() {
            is_double_star(a[i]) && overlap(a.skip(i + 1), b.skip(j))
        } else if is_double_star(a[i]) || is_double_star(b[j]) {
            overlap(a.skip(i + 1), b.skip(j)) || overlap(a.skip(i), b.skip(j + 1))
        } else {
            segment_overlap(a[i], b[j]) && overlap(a.skip(i + 1), b.skip(j + 1))
        }),
{
    if i < a.len() {
        assert(a.skip(i).drop_first() =~= a.skip(i + 1));
    }
    if j < b.len() {
        assert(b.skip(j).drop_first() =~= b.skip(j + 1));
    }
}

fn blank_row(m: usize) -> (row: Vec<bool>)
    ensures
        row.len() == m + 1,
{
    let mut row: Vec<bool> = Vec::new();
    row.push(false);
    let mut j: usize = 0;
    while j < m
        invariant
            j <= m,
            row.len() == j + 1,
        decreases m - j,
    {
        row.push(false);
        j += 1;
    }
    row
}

/// Runs the decision procedure bottom-up, one row of answers per suffix of
/// `a`, so that every pair of suffixes is looked at once.
fn segments_overlap(a: &Vec<Vec<u8>>, b: &Vec<Vec<u8>>) -> (r: bool)
    ensures
        r == overlap(views(a@), views(b@)),
{
    let n = a.len();
    let m = b.len();
    let ghost sa = views(a@);
    let ghost sb = views(b@);
    let mut next = blank_row(m);
    next.set(m, true);
    proof {
        lemma_overlap_unfold(sa, sb, n as int, m as int);
    }
    let mut j: usize = m;
    while j > 0
        invariant
            j <= m,
            m == b.len(),
            n == a.len(),
            sa == views(a@),
            sb == views(b@),
            next.len() == m + 1,
            forall|t: int| j <= t <= m ==> next[t] == overlap(sa.skip(n as int), #[trigger] sb.skip(t)),
        decreases j,
    {
        proof {
            lemma_overlap_unfold(sa, sb, n as int, j - 1);
        }
        let v = segment_is_double_star(&b[j - 1]) && next[j];
        next.set(j - 1, v);
        j -= 1;
    }
    let mut i: usize = n;
    while i > 0
        invariant
            i <= n,
            m == b.len(),
            n == a.len(),
            sa == views(a@),
            sb == views(b@),
            next.len() == m + 1,
            forall|t: int| 0 <= t <= m ==> next[t] == overlap(sa.skip(i as int), #[trigger] sb.skip(t)),
        decreases i,
    {
        let head = &a[i - 1];
        let head_double = segment_is_double_star(head);
        let head_star = segment_is_star(head);
        let mut row = blank_row(m);
        proof {
            lemma_overlap_unfold(sa, sb, i - 1, m as int);
        }
        row.set(m, head_double && next[m]);
        let mut j: usize = m;
        while j > 0
            invariant
                0 < i <= n,
                j <= m,
                m == b.len(),
                n == a.len(),
                sa == views(a@),
                sb == views(b@),
                head == a[i - 1],
                head_double == is_double_star(sa[i - 1]),
                head_star == is_star(sa[i - 1]),
                next.len() == m + 1,
                row.len() == m + 1,
                forall|t: int|
                    0 <= t <= m ==> next[t] == overlap(sa.skip(i as int), #[trigger] sb.skip(t)),
                forall|t: int|
                    j <= t <= m ==> row[t] == overlap(sa.skip(i - 1), #[trigger] sb.skip(t)),
            decreases j,
        {
            proof {
                lemma_overlap_unfold(sa, sb, i - 1, j - 1);
            }
            let other = &b[j - 1];
            let v = if head_double || segment_is_double_star(other) {
                next[j - 1] || row[j]
            } else {
                (head_star || segment_is_star(other) || bytes_equal(head, other)) && next[j]
            };
            row.set(j - 1, v);
            j -= 1;
        }
        next = row;
        i -= 1;
    }
    assert(sa.skip(0) =~= sa);
    assert(sb.skip(0) =~= sb);
    next[0]
}

/// A well-formed key, held as its segments.
pub struct KeyExpr {
    segments: Vec<Vec<u8>>,
}

impl View for KeyExpr {
    type V = Seq<Seq<u8>>;

    closed spec fn view(&self) -> Seq<Seq<u8>> {
        views(self.segments@)
    }
}

impl KeyExpr {
    #[verifier::type_invariant]
    spec fn well_formed(self) -> bool {
        canonical(views(self.segments@))
    }

    /// Reads a name: trims the separators at both ends, cuts it into
    /// segments, refuses a malformed name, and keeps one `**` of each run.
    pub fn new(name: &str) -> (r: Option<KeyExpr>)
        ensures
            match r {
                Some(key) => key_segments(name_bytes(name@)) == Some(key@),
                None => key_segments(name_bytes(name@)) is None,
            },
    {
        let bytes = name.as_bytes();
        match parse_segments(bytes) {
            Some(segments) => {
                proof {
                    lemma_key_segments_canonical(bytes@);
                }
                Some(KeyExpr { segments })
            },
            None => None,
        }
    }

    /// The number of segments.
    pub fn segment_count(&self) -> (n: usize)
        ensures
            n == self@.len(),
            n > 0,
    {
        proof {
            use_type_invariant(self);
        }
        self.segments.len()
    }

    /// Whether some concrete key is matched by both keys.
    pub fn intersect(&self, other: &KeyExpr) -> (r: bool)
        ensures
            r == intersects(self@, other@),
    {
        proof {
            use_type_invariant(self);
            use_type_invariant(other);
            lemma_overlap_decides_intersection(self@, other@);
        }
        segments_overlap(&self.segments, &other.segments)
    }
}

/// The bytes of a name: its UTF-8 encoding.
pub open spec fn name_bytes(name: Seq<char>) -> Seq<u8> {
    vstd::utf8::encode_utf8(name)
}

/// Whether two names are well formed and intersect.
pub open spec fn names_intersect(a: Seq<char>, b: Seq<char>) -> bool {
    key_intersect(name_bytes(a), name_bytes(b))
}

/// Whether two names intersect. A malformed name intersects nothing.
pub fn intersect(a: &str, b: &str) -> (r: bool)
    ensures
        r == names_intersect(a@, b@),
{
    match KeyExpr::new(a) {
        Some(x) => match KeyExpr::new(b) {
            Some(y) => x.intersect(&y),
            None => false,
        },
        None => false,
    }
}


proof fn lemma_overlap_reflexive(a: Seq<Seq<u8>>)
    ensures
        overlap(a, a),
    decreases a.len(),
{
    if a.len() > 0 {
        let rest = a.drop_first();
        lemma_overlap_reflexive(rest);
        if is_double_star(a[0]) {
            assert(overlap(a, rest));
        }
    }
}

proof fn lemma_overlap_double_star(a: Seq<Seq<u8>>, w: Seq<Seq<u8>>)
    requires
        w.len() == 1,
        is_double_star(w[0]),
    ensures
        overlap(a, w),
        overlap(w, a),
    decreases a.len(),
{
    let none = Seq::<Seq<u8>>::empty();
    assert(w.drop_first() =~= none);
    assert(overlap(none, none));
    if a.len() > 0 {
        lemma_overlap_double_star(a.drop_first(), w);
    } else {
        assert(a =~= none);
    }
}

/// The name `**` is the single segment `**`.
pub proof fn lemma_double_star_segments()
    ensures
        key_segments(seq![STAR, STAR]) == Some(seq![seq![STAR, STAR]]),
{
    let s = seq![STAR, STAR];
    let one = seq![STAR];
    assert(trim(s) == s);
    assert(s.drop_last() =~= one);
    assert(one.drop_last() =~= Seq::<u8>::empty());
    assert(split(Seq::<u8>::empty()) == seq![Seq::<u8>::empty()]);
    assert(split(one) =~= seq![one]) by {
        assert(Seq::<u8>::empty().push(STAR) =~= one);
        assert(seq![Seq::<u8>::empty()].drop_last().push(Seq::<u8>::empty().push(STAR)) =~= seq![
            one,
        ]);
    }
    assert(split(s) =~= seq![s]) by {
        assert(one.push(STAR) =~= s);
        assert(seq![one].drop_last().push(one.push(STAR)) =~= seq![s]);
    }
    let segs = seq![s];
    assert(is_double_star(s));
    assert(valid_segments(segs));
    assert(segs.drop_last() =~= Seq::<Seq<u8>>::empty());
    assert(collapse(Seq::<Seq<u8>>::empty()) == Seq::<Seq<u8>>::empty());
    assert(collapse(segs) =~= segs);
}

/// Intersection does not depend on the order of its arguments.
pub proof fn lemma_intersect_symmetric(a: Seq<u8>, b: Seq<u8>)
    ensures
        key_intersect(a, b) == key_intersect(b, a),
{
    if let (Some(x), Some(y)) = (key_segments(a), key_segments(b)) {
        if intersects(x, y) {
            let k = choose|k: Seq<Seq<u8>>| concrete(k) && #[trigger] matches(x, k) && matches(y, k);
            assert(matches(y, k) && matches(x, k));
        }
        if intersects(y, x) {
            let k = choose|k: Seq<Seq<u8>>| concrete(k) && #[trigger] matches(y, k) && matches(x, k);
            assert(matches(x, k) && matches(y, k));
        }
    }
}

/// Every well-formed name intersects itself.
pub proof fn lemma_intersect_reflexive(a: Seq<u8>)
    requires
        key_segments(a) is Some,
    ensures
        key_intersect(a, a),
{
    let x = key_segments(a)->0;
    lemma_key_segments_canonical(a);
    lemma_overlap_reflexive(x);
    lemma_overlap_decides_intersection(x, x);
}

/// Every well-formed name intersects `**`.
pub proof fn lemma_intersect_double_star(a: Seq<u8>)
    requires
        key_segments(a) is Some,
    ensures
        key_intersect(a, seq![STAR, STAR]),
        key_intersect(seq![STAR, STAR], a),
{
    let x = key_segments(a)->0;
    let w = seq![seq![STAR, STAR]];
    lemma_key_segments_canonical(a);
    lemma_double_star_segments();
    lemma_overlap_double_star(x, w);
    lemma_overlap_decides_intersection(x, w);
    lemma_overlap_decides_intersection(w, x);
}

/// Every well-formed name intersects the name `**`.
pub proof fn lemma_names_intersect_double_star(a: Seq<char>)
    requires
        key_segments(name_bytes(a)) is Some,
    ensures
        names_intersect(a, "**"@),
        names_intersect("**"@, a),
{
    reveal_strlit("**");
    let stars = "**"@;
    assert(stars.len() == 2 && stars[0] == '*' && stars[1] == '*');
    assert(vstd::utf8::is_ascii_chars(stars));
    vstd::utf8::is_ascii_chars_encode_utf8(stars);
    assert(name_bytes(stars) =~= seq![STAR, STAR]);
    lemma_intersect_double_star(name_bytes(a));
}

/// Two names without wildcards intersect exactly when their segments are
/// the same.
pub proof fn lemma_concrete_intersect(a: Seq<Seq<u8>>, b: Seq<Seq<u8>>)
    requires
        concrete(a),
        concrete(b),
    ensures
        intersects(a, b) == (a == b),
{
    assert(valid_segments(a));
    assert(valid_segments(b));
    lemma_overlap_decides_intersection(a, b);
    lemma_overlap_literals(a, b);
}

proof fn lemma_overlap_literals(a: Seq<Seq<u8>>, b: Seq<Seq<u8>>)
    requires
        all_literal(a),
        all_literal(b),
    ensures
        overlap(a, b) == (a == b),
    decreases a.len() + b.len(),
{
    if a.len() == 0 && b.len() == 0 {
        assert(a =~= b);
    } else if a.len() == 0 {
        assert(is_literal(b[0]));
    } else if b.len() == 0 {
        assert(is_literal(a[0]));
    } else {
        assert(is_literal(a[0]));
        assert(is_literal(b[0]));
        lemma_overlap_literals(a.drop_first(), b.drop_first());
        if a == b {
        } else if a[0] == b[0] && a.drop_first() == b.drop_first() {
            assert(a =~= seq![a[0]] + a.drop_first());
            assert(b =~= seq![b[0]] + b.drop_first());
        }
    }
}


proof fn lemma_matches_after(
    w: Seq<Seq<u8>>,
    u: Seq<Seq<u8>>,
    v: Seq<Seq<u8>>,
    k: Seq<Seq<u8>>,
)
    requires
        forall|x: Seq<Seq<u8>>| #[trigger] matches(u, x) == matches(v, x),
    ensures
        matches(w + u, k) == matches(w + v, k),
    decreases w.len(), k.len(),
{
    if w.len() == 0 {
        assert(w + u =~= u);
        assert(w + v =~= v);
    } else {
        let rest = w.drop_first();
        assert((w + u).drop_first() =~= rest + u);
        assert((w + v).drop_first() =~= rest + v);
        lemma_matches_after(rest, u, v, k);
        if k.len() > 0 {
            lemma_matches_after(rest, u, v, k.drop_first());
            if is_double_star(w[0]) {
                lemma_matches_after(w, u, v, k.drop_first());
            }
        }
    }
}

proof fn lemma_double_star_twice(d: Seq<u8>, q: Seq<Seq<u8>>, k: Seq<Seq<u8>>)
    requires
        is_double_star(d),
    ensures
        matches(seq![d] + q, k) == matches(seq![d, d] + q, k),
    decreases k.len(),
{
    let once = seq![d] + q;
    let twice = seq![d, d] + q;
    assert(twice.drop_first() =~= once);
    assert(once.drop_first() =~= q);
    if k.len() > 0 {
        lemma_double_star_twice(d, q, k.drop_first());
    }
}

proof fn lemma_collapse_before(s: Seq<Seq<u8>>, q: Seq<Seq<u8>>, k: Seq<Seq<u8>>)
    ensures
        matches(collapse(s) + q, k) == matches(s + q, k),
    decreases s.len(),
{
    if s.len() == 0 {
        assert(collapse(s) + q =~= s + q);
    } else {
        let before = s.drop_last();
        let x = s.last();
        let c = collapse(before);
        lemma_collapse_before(before, seq![x] + q, k);
        assert(s + q =~= before + (seq![x] + q));
        if is_double_star(x) && c.len() > 0 && is_double_star(c.last()) {
            let start = c.drop_last();
            assert(c.last() =~= x);
            assert(c + q =~= start + (seq![x] + q));
            assert(c + (seq![x] + q) =~= start + (seq![x, x] + q));
            assert forall|y: Seq<Seq<u8>>| #[trigger]
                matches(seq![x] + q, y) == matches(seq![x, x] + q, y) by {
                lemma_double_star_twice(x, q, y);
            }
            lemma_matches_after(start, seq![x] + q, seq![x, x] + q, k);
        } else {
            assert(collapse(s) + q =~= c + (seq![x] + q));
        }
    }
}

/// A run of `**` segments means what a single `**` means: the segments of
/// a name match the same keys before and after its runs are reduced.
pub proof fn lemma_collapse_keeps_meaning(segs: Seq<Seq<u8>>, k: Seq<Seq<u8>>)
    ensures
        matches(collapse(segs), k) == matches(segs, k),
{
    let none = Seq::<Seq<u8>>::empty();
    lemma_collapse_before(segs, none, k);
    assert(collapse(segs) + none =~= collapse(segs));
    assert(segs + none =~= segs);
}

} // verus!
