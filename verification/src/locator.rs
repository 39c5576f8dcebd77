//! Locators: the text that names a transport endpoint,
//! `scheme/host:port[?option=value&...]`.

use crate::error::{ZError, ZResult};
use vstd::prelude::*;
use vstd::string::StrSliceExecFns;

verus! {

broadcast use vstd::string::group_string_axioms;

/// The transport of a locator.
#[derive(Debug, Clone, Copy, PartialEq, Eq, Structural)]
pub enum Scheme {
    Tcp,
    Tls,
    Udp,
    Quic,
}

/// What a locator holds.
pub struct LocatorView {
    pub scheme: Scheme,
    pub host: Seq<char>,
    pub port: u16,
    pub options: Seq<(Seq<char>, Seq<char>)>,
}

/// The index of the first `c` in `s`, or the length of `s` if there is none.
pub open spec fn index_of(s: Seq<char>, c: char) -> int
    decreases s.len(),
{
    if s.len() == 0 || s[0] == c {
        0
    } else {
        1 + index_of(s.drop_first(), c)
    }
}

/// The index of the last `c` in `s`, or -1 if there is none.
pub open spec fn last_index_of(s: Seq<char>, c: char) -> int
    decreases s.len(),
{
    if s.len() == 0 {
        -1
    } else if s.last() == c {
        s.len() - 1
    } else {
        last_index_of(s.drop_last(), c)
    }
}

/// A decimal digit.
pub open spec fn is_digit(c: char) -> bool {
    '0' <= c <= '9'
}

/// At least one character, all of them decimal digits.
pub open spec fn is_number(s: Seq<char>) -> bool {
    s.len() > 0 && forall|i: int| 0 <= i < s.len() ==> is_digit(#[trigger] s[i])
}

/// The number that the decimal digits `s` write.
pub open spec fn decimal(s: Seq<char>) -> nat
    decreases s.len(),
{
    if s.len() == 0 {
        0
    } else {
        (decimal(s.drop_last()) * 10 + (s.last() as u8 - '0' as u8)) as nat
    }
}

/// The port that `s` writes: one to five digits, at most 65535.
pub open spec fn parse_port(s: Seq<char>) -> Option<u16> {
    if is_number(s) && s.len() <= 5 && decimal(s) <= 0xffff {
        Some(decimal(s) as u16)
    } else {
        None
    }
}

/// The scheme that `s` names.
pub open spec fn parse_scheme(s: Seq<char>) -> Option<Scheme> {
    if s == seq!['t', 'c', 'p'] {
        Some(Scheme::Tcp)
    } else if s == seq!['t', 'l', 's'] {
        Some(Scheme::Tls)
    } else if s == seq!['u', 'd', 'p'] {
        Some(Scheme::Udp)
    } else if s == seq!['q', 'u', 'i', 'c'] {
        Some(Scheme::Quic)
    } else {
        None
    }
}

/// The host and the port of `host:port`. The port follows the last colon;
/// the host before it is not empty.
pub open spec fn parse_address(s: Seq<char>) -> Option<(Seq<char>, u16)> {
    let colon = last_index_of(s, ':');
    if colon > 0 {
        match parse_port(s.skip(colon + 1)) {
            Some(port) => Some((s.take(colon), port)),
            None => None,
        }
    } else {
        None
    }
}

/// The name and the value of `name=value`. The name ends at the first `=`
/// and is not empty.
pub open spec fn parse_option(s: Seq<char>) -> Option<(Seq<char>, Seq<char>)> {
    let eq = index_of(s, '=');
    if 0 < eq < s.len() {
        Some((s.take(eq), s.skip(eq + 1)))
    } else {
        None
    }
}

/// The options of `name=value&name=value...`, in order.
pub open spec fn parse_options(s: Seq<char>) -> Option<Seq<(Seq<char>, Seq<char>)>>
    decreases s.len(),
{
    let amp = index_of(s, '&');
    match parse_option(s.take(amp)) {
        None => None,
        Some(first) => if amp >= s.len() {
            Some(seq![first])
        } else {
            proof {
                lemma_index_of_bounds(s, '&');
            }
            match parse_options(s.skip(amp + 1)) {
                None => None,
                Some(rest) => Some(seq![first] + rest),
            }
        },
    }
}

/// The locator that `text` writes, or `None` where `text` is no locator:
/// a character that is not ASCII, no `/`, an unknown scheme, an address
/// that is not `host:port`, or options that are not `name=value` joined by
/// `&`.
pub open spec fn parse_locator(text: Seq<char>) -> Option<LocatorView> {
    let slash = index_of(text, '/');
    let rest = text.skip(slash + 1);
    let mark = index_of(rest, '?');
    if !vstd::utf8::is_ascii_chars(text) || slash >= text.len() {
        None
    } else {
        match (parse_scheme(text.take(slash)), parse_address(rest.take(mark))) {
            (Some(scheme), Some((host, port))) => if mark >= rest.len() {
                Some(LocatorView { scheme, host, port, options: Seq::empty() })
            } else {
                match parse_options(rest.skip(mark + 1)) {
                    Some(options) => Some(LocatorView { scheme, host, port, options }),
                    None => None,
                }
            },
            _ => None,
        }
    }
}

proof fn lemma_index_of(s: Seq<char>, c: char, k: int)
    requires
        0 <= k <= s.len(),
        forall|j: int| 0 <= j < k ==> s[j] != c,
        k == s.len() || s[k] == c,
    ensures
        index_of(s, c) == k,
    decreases s.len(),
{
    if k > 0 {
        lemma_index_of(s.drop_first(), c, k - 1);
    }
}

/// `index_of` lies between zero and the length.
pub proof fn lemma_index_of_bounds(s: Seq<char>, c: char)
    ensures
        0 <= index_of(s, c) <= s.len(),
    decreases s.len(),
{
    if !(s.len() == 0 || s[0] == c) {
        lemma_index_of_bounds(s.drop_first(), c);
    }
}

proof fn lemma_last_index_of(s: Seq<char>, c: char, k: int)
    requires
        -1 <= k < s.len(),
        forall|j: int| k < j < s.len() ==> s[j] != c,
        k == -1 || s[k] == c,
    ensures
        last_index_of(s, c) == k,
    decreases s.len(),
{
    if s.len() > 0 && k < s.len() - 1 {
        lemma_last_index_of(s.drop_last(), c, k);
    }
}

/// The first `c` of an ASCII text between `from` and `to`, or `to`.
fn find(text: &str, from: usize, to: usize, c: u8) -> (r: usize)
    requires
        text.is_ascii(),
        from <= to <= text@.len(),
        c < 128,
    ensures
        from <= r <= to,
        r - from == index_of(text@.subrange(from as int, to as int), c as char),
{
    let mut i: usize = from;
    let ghost s = text@.subrange(from as int, to as int);
    while i < to
        invariant
            from <= i <= to <= text@.len(),
            text.is_ascii(),
            c < 128,
            s == text@.subrange(from as int, to as int),
            forall|j: int| 0 <= j < i - from ==> s[j] != c as char,
        decreases to - i,
    {
        let b = text.get_ascii(i);
        assert(s[i - from] == text@[i as int]);
        if b == c {
            proof {
                lemma_index_of(s, c as char, i - from);
            }
            return i;
        }
        i += 1;
    }
    proof {
        lemma_index_of(s, c as char, to - from);
    }
    to
}

/// The last `c` of an ASCII text between `from` and `to`, if any.
fn find_last(text: &str, from: usize, to: usize, c: u8) -> (r: Option<usize>)
    requires
        text.is_ascii(),
        from <= to <= text@.len(),
        c < 128,
    ensures
        match r {
            Some(k) => from <= k < to && k - from == last_index_of(
                text@.subrange(from as int, to as int),
                c as char,
            ),
            None => last_index_of(text@.subrange(from as int, to as int), c as char) == -1,
        },
{
    let mut i: usize = to;
    let ghost s = text@.subrange(from as int, to as int);
    while i > from
        invariant
            from <= i <= to <= text@.len(),
            text.is_ascii(),
            c < 128,
            s == text@.subrange(from as int, to as int),
            forall|j: int| i - from <= j < s.len() ==> s[j] != c as char,
        decreases i,
    {
        let b = text.get_ascii(i - 1);
        assert(s[i - 1 - from] == text@[i - 1]);
        if b == c {
            proof {
                lemma_last_index_of(s, c as char, i - 1 - from);
            }
            return Some(i - 1);
        }
        i -= 1;
    }
    proof {
        lemma_last_index_of(s, c as char, -1);
    }
    None
}

/// The piece of an ASCII text between `from` and `to`.
fn piece(text: &str, from: usize, to: usize) -> (r: String)
    requires
        text.is_ascii(),
        from <= to <= text@.len(),
    ensures
        r@ == text@.subrange(from as int, to as int),
{
    text.substring_ascii(from, to).to_owned()
}

proof fn lemma_decimal_bound(s: Seq<char>)
    requires
        is_number(s) || s.len() == 0,
        forall|i: int| 0 <= i < s.len() ==> is_digit(#[trigger] s[i]),
        s.len() <= 5,
    ensures
        decimal(s) < 100000,
        s.len() <= 4 ==> decimal(s) < 10000,
        s.len() <= 3 ==> decimal(s) < 1000,
        s.len() <= 2 ==> decimal(s) < 100,
        s.len() <= 1 ==> decimal(s) < 10,
        s.len() == 0 ==> decimal(s) == 0,
    decreases s.len(),
{
    if s.len() > 0 {
        let t = s.drop_last();
        assert(forall|i: int| 0 <= i < t.len() ==> is_digit(#[trigger] t[i])) by {
            assert forall|i: int| 0 <= i < t.len() implies is_digit(#[trigger] t[i]) by {
                assert(t[i] == s[i]);
            }
        }
        lemma_decimal_bound(t);
        assert(is_digit(s.last()));
    }
}

/// The port that an ASCII text writes between `from` and `to`.
fn read_port(text: &str, from: usize, to: usize) -> (r: Option<u16>)
    requires
        text.is_ascii(),
        from <= to <= text@.len(),
    ensures
        r == parse_port(text@.subrange(from as int, to as int)),
{
    let ghost s = text@.subrange(from as int, to as int);
    if to == from || to - from > 5 {
        return None;
    }
    let mut value: u32 = 0;
    let mut i: usize = from;
    assert(s.take(0) =~= Seq::<char>::empty());
    while i < to
        invariant
            from <= i <= to <= text@.len(),
            to - from <= 5,
            text.is_ascii(),
            s == text@.subrange(from as int, to as int),
            forall|j: int| 0 <= j < i - from ==> is_digit(#[trigger] s[j]),
            value == decimal(s.take(i - from)),
            value < 100000,
        decreases to - i,
    {
        let b = text.get_ascii(i);
        assert(s[i - from] == text@[i as int]);
        if !(0x30 <= b && b <= 0x39) {
            assert(!is_digit(s[i - from]));
            return None;
        }
        let ghost before = s.take(i - from);
        let ghost after = s.take(i + 1 - from);
        assert(after.drop_last() =~= before);
        assert(after.last() == s[i - from]);
        proof {
            assert forall|j: int| 0 <= j < after.len() implies is_digit(#[trigger] after[j]) by {
                assert(after[j] == s[j]);
            }
            lemma_decimal_bound(before);
            lemma_decimal_bound(after);
        }
        value = value * 10 + (b - 0x30) as u32;
        i += 1;
    }
    assert(s.take(to - from) =~= s);
    if value <= 0xffff {
        Some(value as u16)
    } else {
        None
    }
}


/// The character of an ASCII text at `i`, as a byte.
fn byte_at(text: &str, i: usize) -> (b: u8)
    requires
        text.is_ascii(),
        i < text@.len(),
    ensures
        b < 128,
        b as char == text@[i as int],
{
    text.get_ascii(i)
}

/// The scheme that an ASCII text names between `from` and `to`.
fn read_scheme(text: &str, from: usize, to: usize) -> (r: Option<Scheme>)
    requires
        text.is_ascii(),
        from <= to <= text@.len(),
    ensures
        r == parse_scheme(text@.subrange(from as int, to as int)),
{
    let ghost s = text@.subrange(from as int, to as int);
    assert(seq!['t', 'c', 'p'].len() == 3 && seq!['t', 'l', 's'].len() == 3 && seq![
        'u',
        'd',
        'p',
    ].len() == 3 && seq!['q', 'u', 'i', 'c'].len() == 4);
    if to - from == 3 {
        let a = byte_at(text, from);
        let b = byte_at(text, from + 1);
        let c = byte_at(text, from + 2);
        assert(s[0] == a as char && s[1] == b as char && s[2] == c as char);
        if a == 0x74 && b == 0x63 && c == 0x70 {
            assert(s =~= seq!['t', 'c', 'p']);
            Some(Scheme::Tcp)
        } else if a == 0x74 && b == 0x6c && c == 0x73 {
            assert(s =~= seq!['t', 'l', 's']);
            Some(Scheme::Tls)
        } else if a == 0x75 && b == 0x64 && c == 0x70 {
            assert(s =~= seq!['u', 'd', 'p']);
            Some(Scheme::Udp)
        } else {
            assert(seq!['t', 'c', 'p'][0] == 't' && seq!['t', 'c', 'p'][1] == 'c' && seq![
                't',
                'c',
                'p',
            ][2] == 'p');
            assert(seq!['t', 'l', 's'][0] == 't' && seq!['t', 'l', 's'][1] == 'l' && seq![
                't',
                'l',
                's',
            ][2] == 's');
            assert(seq!['u', 'd', 'p'][0] == 'u' && seq!['u', 'd', 'p'][1] == 'd' && seq![
                'u',
                'd',
                'p',
            ][2] == 'p');
            None
        }
    } else if to - from == 4 {
        let a = byte_at(text, from);
        let b = byte_at(text, from + 1);
        let c = byte_at(text, from + 2);
        let d = byte_at(text, from + 3);
        assert(s[0] == a as char && s[1] == b as char && s[2] == c as char && s[3] == d as char);
        if a == 0x71 && b == 0x75 && c == 0x69 && d == 0x63 {
            assert(s =~= seq!['q', 'u', 'i', 'c']);
            Some(Scheme::Quic)
        } else {
            let ghost q = seq!['q', 'u', 'i', 'c'];
            assert(q[0] == 'q' && q[1] == 'u' && q[2] == 'i' && q[3] == 'c');
            None
        }
    } else {
        None
    }
}

/// The views of a list of options.
pub open spec fn option_views(options: Seq<(String, String)>) -> Seq<(Seq<char>, Seq<char>)> {
    options.map_values(|o: (String, String)| (o.0@, o.1@))
}

/// The options that an ASCII text writes between `from` and `to`.
fn read_options(text: &str, from: usize, to: usize) -> (r: Option<Vec<(String, String)>>)
    requires
        text.is_ascii(),
        from <= to <= text@.len(),
    ensures
        match r {
            Some(options) => parse_options(text@.subrange(from as int, to as int)) == Some(
                option_views(options@),
            ),
            None => parse_options(text@.subrange(from as int, to as int)) is None,
        },
{
    let ghost whole = text@.subrange(from as int, to as int);
    let mut out: Vec<(String, String)> = Vec::new();
    let mut p: usize = from;
    assert(whole.skip(0) =~= whole);
    assert(option_views(out@) =~= Seq::empty());
    loop
        invariant
            text.is_ascii(),
            from <= p <= to <= text@.len(),
            whole == text@.subrange(from as int, to as int),
            parse_options(whole) == (match parse_options(whole.skip(p - from)) {
                Some(rest) => Some(option_views(out@) + rest),
                None => None,
            }),
        decreases to - p,
    {
        let ghost rest = whole.skip(p - from);
        assert(rest =~= text@.subrange(p as int, to as int));
        let amp = find(text, p, to, 0x26);
        let ghost item = rest.take(amp - p);
        assert(item =~= text@.subrange(p as int, amp as int));
        let eq = find(text, p, amp, 0x3d);
        if !(p < eq && eq < amp) {
            return None;
        }
        let name = piece(text, p, eq);
        let value = piece(text, eq + 1, amp);
        assert(item.take(eq - p) =~= name@);
        assert(item.skip(eq - p + 1) =~= value@);
        let ghost before = option_views(out@);
        let ghost first = (name@, value@);
        out.push((name, value));
        assert(option_views(out@) =~= before.push(first));
        if amp == to {
            assert(before + seq![first] =~= before.push(first));
            return Some(out);
        }
        proof {
            let tail = rest.skip(amp - p + 1);
            assert(tail =~= whole.skip(amp + 1 - from));
            if let Some(more) = parse_options(tail) {
                assert(before + (seq![first] + more) =~= before.push(first) + more);
            }
        }
        p = amp + 1;
    }
}

/// A locator: a scheme, a host and a port, and options.
#[derive(Debug)]
pub struct Locator {
    scheme: Scheme,
    host: String,
    port: u16,
    options: Vec<(String, String)>,
}

impl View for Locator {
    type V = LocatorView;

    closed spec fn view(&self) -> LocatorView {
        LocatorView {
            scheme: self.scheme,
            host: self.host@,
            port: self.port,
            options: option_views(self.options@),
        }
    }
}

/// The value of the first option called `name`, if any.
pub open spec fn lookup(options: Seq<(Seq<char>, Seq<char>)>, name: Seq<char>) -> Option<Seq<char>>
    decreases options.len(),
{
    if options.len() == 0 {
        None
    } else if options[0].0 == name {
        Some(options[0].1)
    } else {
        lookup(options.drop_first(), name)
    }
}

impl Locator {
    /// Reads a locator, `scheme/host:port[?name=value&...]`. The scheme is
    /// one of `tcp`, `tls`, `udp` and `quic`; the port is the decimal
    /// number after the last colon of the address, at most 65535.
    pub fn parse(text: &str) -> (r: ZResult<Locator>)
        ensures
            match r {
                Ok(locator) => parse_locator(text@) == Some(locator@),
                Err(e) => e == ZError::InvalidLocator && parse_locator(text@) is None,
            },
    {
        if !text.is_ascii() {
            return Err(ZError::InvalidLocator);
        }
        let n = text.as_bytes().len();
        proof {
            vstd::string::is_ascii_spec_bytes(text);
        }
        assert(n == text@.len());
        assert(text@.subrange(0, n as int) =~= text@);
        let slash = find(text, 0, n, 0x2f);
        if slash >= n {
            return Err(ZError::InvalidLocator);
        }
        let ghost rest = text@.skip(slash + 1);
        assert(rest =~= text@.subrange(slash + 1, n as int));
        assert(text@.take(slash as int) =~= text@.subrange(0, slash as int));
        let mark = find(text, slash + 1, n, 0x3f);
        let ghost address = rest.take(mark - slash - 1);
        assert(address =~= text@.subrange(slash + 1, mark as int));
        let scheme = match read_scheme(text, 0, slash) {
            Some(scheme) => scheme,
            None => {
                return Err(ZError::InvalidLocator);
            },
        };
        let colon = match find_last(text, slash + 1, mark, 0x3a) {
            Some(colon) => colon,
            None => {
                return Err(ZError::InvalidLocator);
            },
        };
        if colon == slash + 1 {
            return Err(ZError::InvalidLocator);
        }
        assert(address.skip(colon - slash) =~= text@.subrange(colon + 1, mark as int));
        assert(address.take(colon - slash - 1) =~= text@.subrange(slash + 1, colon as int));
        let port = match read_port(text, colon + 1, mark) {
            Some(port) => port,
            None => {
                return Err(ZError::InvalidLocator);
            },
        };
        let host = piece(text, slash + 1, colon);
        if mark >= n {
            let locator = Locator { scheme, host, port, options: Vec::new() };
            assert(option_views(locator.options@) =~= Seq::empty());
            return Ok(locator);
        }
        assert(rest.skip(mark - slash) =~= text@.subrange(mark + 1, n as int));
        match read_options(text, mark + 1, n) {
            Some(options) => Ok(Locator { scheme, host, port, options }),
            None => Err(ZError::InvalidLocator),
        }
    }

    /// The locator of the given parts.
    pub fn new(scheme: Scheme, host: String, port: u16, options: Vec<(String, String)>) -> (r:
        Locator)
        ensures
            r@ == (LocatorView { scheme, host: host@, port, options: option_views(options@) }),
    {
        Locator { scheme, host, port, options }
    }

    /// The options, in order.
    pub fn options(&self) -> (options: &Vec<(String, String)>)
        ensures
            option_views(options@) == self@.options,
    {
        &self.options
    }

    /// The transport.
    pub fn scheme(&self) -> (scheme: Scheme)
        ensures
            scheme == self@.scheme,
    {
        self.scheme
    }

    /// The host.
    pub fn host(&self) -> (host: &String)
        ensures
            host@ == self@.host,
    {
        &self.host
    }

    /// The port.
    pub fn port(&self) -> (port: u16)
        ensures
            port == self@.port,
    {
        self.port
    }

    /// The same locator on another port.
    pub fn with_port(self, port: u16) -> (r: Locator)
        ensures
            r@ == (LocatorView { port, ..self@ }),
    {
        Locator { scheme: self.scheme, host: self.host, port, options: self.options }
    }

    /// The value of the first option called `name`, if any.
    pub fn option(&self, name: &str) -> (value: Option<&String>)
        ensures
            match value {
                Some(v) => lookup(self@.options, name@) == Some(v@),
                None => lookup(self@.options, name@) is None,
            },
    {
        let ghost all = option_views(self.options@);
        let mut i: usize = 0;
        assert(all.skip(0) =~= all);
        while i < self.options.len()
            invariant
                i <= self.options.len(),
                all == option_views(self.options@),
                lookup(all, name@) == lookup(all.skip(i as int), name@),
            decreases self.options.len() - i,
        {
            let ghost rest = all.skip(i as int);
            assert(rest.drop_first() =~= all.skip(i + 1));
            assert(rest[0] == all[i as int]);
            if same_text(self.options[i].0.as_str(), name) {
                return Some(&self.options[i].1);
            }
            i += 1;
        }
        None
    }

    /// A copy of the locator.
    pub fn duplicate(&self) -> (r: Locator)
        ensures
            r@ == self@,
    {
        let mut options: Vec<(String, String)> = Vec::new();
        let mut i: usize = 0;
        while i < self.options.len()
            invariant
                i <= self.options.len(),
                option_views(options@) == option_views(self.options@).take(i as int),
            decreases self.options.len() - i,
        {
            let ghost before = option_views(options@);
            let name = self.options[i].0.clone();
            let value = self.options[i].1.clone();
            let ghost copy = (name@, value@);
            assert(copy == option_views(self.options@)[i as int]);
            options.push((name, value));
            assert(option_views(options@) =~= before.push(copy));
            assert(option_views(options@) =~= option_views(self.options@).take(i + 1));
            i += 1;
        }
        assert(option_views(self.options@).take(self.options@.len() as int) =~= option_views(
            self.options@,
        ));
        Locator { scheme: self.scheme, host: self.host.clone(), port: self.port, options }
    }
}

/// Whether two texts are the same.
pub fn same_text(a: &str, b: &str) -> (r: bool)
    ensures
        r == (a@ == b@),
{
    let x = a.to_owned();
    let y = b.to_owned();
    x == y
}

} // verus!
