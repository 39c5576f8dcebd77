//! The tables of a session: the resources, the declarations and the
//! queries under way, and how names are resolved and declarations found in
//! them.

use crate::error::{ZError, ZResult};
use crate::key::{intersect, names_intersect};
use crate::model::{selects, selects_queryables, QueryableView, StateView, SubscriberView};
use crate::types::{
    kind_matches, name_result_view, CallbackSubscriberState, Id, PublisherState, QueryableState,
    ResKey, ResKeyView, ResourceId, SubscriberState, ZInt,
};
use std::collections::HashMap;
use vstd::prelude::*;
use vstd::std_specs::hash::{group_hash_axioms, spec_hash_map_iter};
use vstd::std_specs::iter::IteratorSpec;
use vstd::string::StringExecFns;

verus! {

broadcast use group_hash_axioms;

/// The names that a table of resources holds.
pub open spec fn resource_views(m: Map<ResourceId, String>) -> Map<ResourceId, Seq<char>> {
    m.map_values(|name: String| name@)
}

/// The keys that a table of publishers holds.
pub open spec fn publisher_views(m: Map<Id, PublisherState>) -> Map<Id, ResKeyView> {
    m.map_values(|p: PublisherState| p.reskey@)
}

/// What a table of subscribers with a stream holds.
pub open spec fn subscriber_views(m: Map<Id, SubscriberState>) -> Map<Id, SubscriberView> {
    m.map_values(|s: SubscriberState| SubscriberView { reskey: s.reskey@, resname: s.resname@ })
}

/// What a table of subscribers with a handler holds.
pub open spec fn callback_subscriber_views(m: Map<Id, CallbackSubscriberState>) -> Map<
    Id,
    SubscriberView,
> {
    m.map_values(
        |s: CallbackSubscriberState| SubscriberView { reskey: s.reskey@, resname: s.resname@ },
    )
}

/// What a table of queryables holds.
pub open spec fn queryable_views(m: Map<Id, QueryableState>) -> Map<Id, QueryableView> {
    m.map_values(|q: QueryableState| QueryableView { reskey: q.reskey@, kind: q.kind })
}

/// What every declaration has: the key it was declared on.
trait Declaration {
    spec fn key_view(&self) -> ResKeyView;

    fn key(&self) -> (k: &ResKey)
        ensures
            k@ == self.key_view(),
    ;
}

/// What every subscription has: the name that its key stood for when it
/// was declared.
trait Subscription {
    spec fn name_view(&self) -> Seq<char>;

    fn name(&self) -> (n: &String)
        ensures
            n@ == self.name_view(),
    ;
}

impl Declaration for PublisherState {
    spec fn key_view(&self) -> ResKeyView {
        self.reskey@
    }

    fn key(&self) -> (k: &ResKey) {
        &self.reskey
    }
}

impl Declaration for SubscriberState {
    spec fn key_view(&self) -> ResKeyView {
        self.reskey@
    }

    fn key(&self) -> (k: &ResKey) {
        &self.reskey
    }
}

impl Declaration for CallbackSubscriberState {
    spec fn key_view(&self) -> ResKeyView {
        self.reskey@
    }

    fn key(&self) -> (k: &ResKey) {
        &self.reskey
    }
}

impl Declaration for QueryableState {
    spec fn key_view(&self) -> ResKeyView {
        self.reskey@
    }

    fn key(&self) -> (k: &ResKey) {
        &self.reskey
    }
}

impl Subscription for SubscriberState {
    spec fn name_view(&self) -> Seq<char> {
        self.resname@
    }

    fn name(&self) -> (n: &String) {
        &self.resname
    }
}

impl Subscription for CallbackSubscriberState {
    spec fn name_view(&self) -> Seq<char> {
        self.resname@
    }

    fn name(&self) -> (n: &String) {
        &self.resname
    }
}

/// `out` lists every entry of `m` once, in some order.
spec fn lists_entries<T>(out: Seq<(Id, &T)>, m: Map<Id, T>) -> bool {
    &&& forall|i: int|
        0 <= i < out.len() ==> m.contains_key((#[trigger] out[i]).0) && m[out[i].0] == *out[i].1
    &&& forall|id: Id|
        m.contains_key(id) ==> exists|i: int| 0 <= i < out.len() && (#[trigger] out[i]).0 == id
    &&& forall|i: int, j: int|
        0 <= i < j < out.len() ==> (#[trigger] out[i]).0 != (#[trigger] out[j]).0
}

/// The entries of a table, each once. The order is that in which the table
/// hands them out, of which nothing is known.
fn snapshot<'a, T>(m: &'a HashMap<Id, T>) -> (out: Vec<(Id, &'a T)>)
    ensures
        lists_entries(out@, m@),
{
    let mut out: Vec<(Id, &'a T)> = Vec::new();
    let ghost all = spec_hash_map_iter(m).remaining();
    for pair in it: m.iter()
        invariant
            it.seq() == all,
            all == spec_hash_map_iter(m).remaining(),
            all.no_duplicates(),
            out@.len() == it.index(),
            forall|i: int|
                0 <= i < out@.len() ==> (#[trigger] out@[i]).0 == *all[i].0 && out@[i].1
                    == all[i].1,
    {
        let (k, v) = pair;
        out.push((*k, v));
    }
    proof {
        assert forall|i: int| 0 <= i < out@.len() implies m@.contains_key((#[trigger] out@[i]).0)
            && m@[out@[i].0] == *out@[i].1 by {
            assert(m@.contains_key(*all[i].0) && m@[*all[i].0] == *all[i].1);
        }
        assert forall|id: Id| m@.contains_key(id) implies exists|i: int|
            0 <= i < out@.len() && (#[trigger] out@[i]).0 == id by {
            assert(all.contains((&id, &m@[id])));
            let i = choose|i: int| 0 <= i < all.len() && all[i] == (&id, &m@[id]);
            assert(out@[i].0 == id);
        }
        assert forall|i: int, j: int| 0 <= i < j < out@.len() implies (#[trigger] out@[i]).0 != (
        #[trigger] out@[j]).0 by {
            if out@[i].0 == out@[j].0 {
                assert(m@.contains_key(*all[i].0) && m@[*all[i].0] == *all[i].1);
                assert(m@.contains_key(*all[j].0) && m@[*all[j].0] == *all[j].1);
                assert(all[i] == all[j]);
            }
        }
    }
    out
}

/// Whether some declaration of the table is on `reskey`.
fn any_on_key<T: Declaration>(m: &HashMap<Id, T>, reskey: &ResKey) -> (r: bool)
    ensures
        r == exists|id: Id| #[trigger] m@.contains_key(id) && m@[id].key_view() == reskey@,
{
    let entries = snapshot(m);
    let mut i: usize = 0;
    while i < entries.len()
        invariant
            i <= entries.len(),
            lists_entries(entries@, m@),
            forall|j: int| 0 <= j < i ==> (#[trigger] entries@[j]).1.key_view() != reskey@,
        decreases entries.len() - i,
    {
        if entries[i].1.key().same(reskey) {
            assert(m@.contains_key(entries@[i as int].0));
            return true;
        }
        i += 1;
    }
    assert forall|id: Id| #[trigger] m@.contains_key(id) implies m@[id].key_view() != reskey@ by {
        let j = choose|j: int| 0 <= j < entries@.len() && (#[trigger] entries@[j]).0 == id;
        assert(entries@[j].1.key_view() != reskey@);
    }
    false
}

/// The ids of the entries that are flagged, each once, in the order of the
/// entries.
fn pick<T>(entries: &Vec<(Id, &T)>, flags: &Vec<bool>) -> (ids: Vec<Id>)
    requires
        flags@.len() == entries@.len(),
        forall|i: int, j: int|
            0 <= i < j < entries@.len() ==> (#[trigger] entries@[i]).0 != (#[trigger] entries@[j]).0,
    ensures
        ids@.no_duplicates(),
        forall|id: Id|
            ids@.contains(id) <==> exists|j: int|
                0 <= j < entries@.len() && (#[trigger] entries@[j]).0 == id && flags@[j],
{
    let mut ids: Vec<Id> = Vec::new();
    let mut i: usize = 0;
    while i < entries.len()
        invariant
            i <= entries.len(),
            flags@.len() == entries@.len(),
            forall|a: int, b: int|
                0 <= a < b < entries@.len() ==> (#[trigger] entries@[a]).0 != (
                #[trigger] entries@[b]).0,
            ids@.no_duplicates(),
            forall|id: Id|
                ids@.contains(id) ==> exists|j: int|
                    0 <= j < i && (#[trigger] entries@[j]).0 == id && flags@[j],
            forall|j: int| 0 <= j < i && flags@[j] ==> ids@.contains((#[trigger] entries@[j]).0),
        decreases entries.len() - i,
    {
        if flags[i] {
            let ghost before = ids@;
            let id = entries[i].0;
            proof {
                if before.contains(id) {
                    let j = choose|j: int|
                        0 <= j < i && (#[trigger] entries@[j]).0 == id && flags@[j];
                    assert(entries@[j].0 != entries@[i as int].0);
                }
            }
            ids.push(id);
            assert forall|x: Id| ids@.contains(x) implies exists|j: int|
                0 <= j < i + 1 && (#[trigger] entries@[j]).0 == x && flags@[j] by {
                if before.contains(x) {
                    let j = choose|j: int|
                        0 <= j < i && (#[trigger] entries@[j]).0 == x && flags@[j];
                    assert(0 <= j < i + 1);
                } else {
                    assert(entries@[i as int].0 == x);
                }
            }
            assert forall|j: int| 0 <= j < i + 1 && flags@[j] implies ids@.contains(
                (#[trigger] entries@[j]).0,
            ) by {
                if j < i {
                    let t = choose|t: int| 0 <= t < before.len() && before[t] == entries@[j].0;
                    assert(ids@[t] == entries@[j].0);
                } else {
                    assert(ids@[ids@.len() - 1] == id);
                }
            }
        }
        i += 1;
    }
    ids
}

/// The ids of the subscriptions of the table whose name intersects `name`,
/// each once.
fn matching<T: Subscription>(m: &HashMap<Id, T>, name: &str) -> (ids: Vec<Id>)
    ensures
        ids@.no_duplicates(),
        forall|id: Id|
            ids@.contains(id) <==> (#[trigger] m@.contains_key(id) && names_intersect(
                m@[id].name_view(),
                name@,
            )),
{
    let entries = snapshot(m);
    let mut flags: Vec<bool> = Vec::new();
    let mut i: usize = 0;
    while i < entries.len()
        invariant
            i <= entries.len(),
            flags@.len() == i,
            forall|j: int|
                0 <= j < i ==> #[trigger] flags@[j] == names_intersect(
                    entries@[j].1.name_view(),
                    name@,
                ),
        decreases entries.len() - i,
    {
        flags.push(intersect(entries[i].1.name().as_str(), name));
        i += 1;
    }
    let ids = pick(&entries, &flags);
    assert forall|id: Id|
        ids@.contains(id) <==> (#[trigger] m@.contains_key(id) && names_intersect(
            m@[id].name_view(),
            name@,
        )) by {
        if ids@.contains(id) {
            let j = choose|j: int|
                0 <= j < entries@.len() && (#[trigger] entries@[j]).0 == id && flags@[j];
            assert(m@.contains_key(entries@[j].0));
        }
        if m@.contains_key(id) && names_intersect(m@[id].name_view(), name@) {
            let j = choose|j: int| 0 <= j < entries@.len() && (#[trigger] entries@[j]).0 == id;
            assert(m@[entries@[j].0] == *entries@[j].1);
            assert(flags@[j]);
        }
    }
    ids
}

/// The tables of a session.
pub struct SessionState {
    rid_counter: ResourceId,
    qid_counter: ZInt,
    decl_id_counter: Id,
    local_resources: HashMap<ResourceId, String>,
    remote_resources: HashMap<ResourceId, String>,
    publishers: HashMap<Id, PublisherState>,
    subscribers: HashMap<Id, SubscriberState>,
    callback_subscribers: HashMap<Id, CallbackSubscriberState>,
    queryables: HashMap<Id, QueryableState>,
    queries: HashMap<ZInt, u8>,
}

impl View for SessionState {
    type V = StateView;

    closed spec fn view(&self) -> StateView {
        StateView {
            rid_counter: self.rid_counter,
            qid_counter: self.qid_counter,
            decl_id_counter: self.decl_id_counter,
            local_resources: resource_views(self.local_resources@),
            remote_resources: resource_views(self.remote_resources@),
            publishers: publisher_views(self.publishers@),
            subscribers: subscriber_views(self.subscribers@),
            callback_subscribers: callback_subscriber_views(self.callback_subscribers@),
            queryables: queryable_views(self.queryables@),
            queries: self.queries@,
        }
    }
}

impl SessionState {
    /// The tables are well formed, and every declaration is kept under its
    /// own id.
    pub open spec fn wf(&self) -> bool {
        self@.wf() && self.ids_kept()
    }

    /// Every declaration is kept under its own id.
    pub closed spec fn ids_kept(&self) -> bool {
        &&& forall|id: Id| #[trigger]
            self.publishers@.contains_key(id) ==> self.publishers@[id].id == id
        &&& forall|id: Id| #[trigger]
            self.subscribers@.contains_key(id) ==> self.subscribers@[id].id == id
        &&& forall|id: Id| #[trigger]
            self.callback_subscribers@.contains_key(id) ==> self.callback_subscribers@[id].id
                == id
        &&& forall|id: Id| #[trigger]
            self.queryables@.contains_key(id) ==> self.queryables@[id].id == id
    }

    /// Nothing but the field told apart by `which` differs between the two.
    spec fn same_but(&self, other: &SessionState, which: int) -> bool {
        &&& which == 0 || self.rid_counter == other.rid_counter
        &&& which == 1 || self.qid_counter == other.qid_counter
        &&& which == 2 || self.decl_id_counter == other.decl_id_counter
        &&& which == 3 || self.local_resources == other.local_resources
        &&& which == 4 || self.remote_resources == other.remote_resources
        &&& which == 5 || self.publishers == other.publishers
        &&& which == 6 || self.subscribers == other.subscribers
        &&& which == 7 || self.callback_subscribers == other.callback_subscribers
        &&& which == 8 || self.queryables == other.queryables
        &&& which == 9 || self.queries == other.queries
    }

    /// Empty tables. The first resource id is one: zero names no resource.
    pub fn new() -> (state: SessionState)
        ensures
            state.wf(),
            state@ == StateView::initial(),
    {
        let state = SessionState {
            rid_counter: 1,
            qid_counter: 0,
            decl_id_counter: 0,
            local_resources: HashMap::new(),
            remote_resources: HashMap::new(),
            publishers: HashMap::new(),
            subscribers: HashMap::new(),
            callback_subscribers: HashMap::new(),
            queryables: HashMap::new(),
            queries: HashMap::new(),
        };
        assert(state@.local_resources =~= Map::empty());
        assert(state@.remote_resources =~= Map::empty());
        assert(state@.publishers =~= Map::empty());
        assert(state@.subscribers =~= Map::empty());
        assert(state@.callback_subscribers =~= Map::empty());
        assert(state@.queryables =~= Map::empty());
        state
    }

    fn localid_to_resname(&self, rid: &ResourceId) -> (r: ZResult<String>)
        ensures
            name_result_view(r) == self@.localid_to_resname(*rid),
    {
        match self.local_resources.get(rid) {
            Some(name) => Ok(name.clone()),
            None => Err(ZError::UnknownResourceId { rid: *rid }),
        }
    }

    fn rid_to_resname(&self, rid: &ResourceId) -> (r: ZResult<String>)
        ensures
            name_result_view(r) == self@.rid_to_resname(*rid),
    {
        match self.remote_resources.get(rid) {
            Some(name) => Ok(name.clone()),
            None => self.localid_to_resname(rid),
        }
    }

    /// The name that a key of the remote side stands for: the name itself,
    /// or the name bound to the id, by the remote side or else by the
    /// application, with the suffix after it.
    pub fn remotekey_to_resname(&self, reskey: &ResKey) -> (r: ZResult<String>)
        ensures
            name_result_view(r) == self@.remotekey_to_resname(reskey@),
    {
        match reskey {
            ResKey::RName(name) => Ok(name.clone()),
            ResKey::RId(rid) => self.rid_to_resname(rid),
            ResKey::RIdWithSuffix(rid, suffix) => match self.rid_to_resname(rid) {
                Ok(prefix) => Ok(prefix.concat(suffix.as_str())),
                Err(e) => Err(e),
            },
        }
    }

    /// The name that a key of the application stands for: the name itself,
    /// or the name that the application bound to the id, with the suffix
    /// after it.
    pub fn localkey_to_resname(&self, reskey: &ResKey) -> (r: ZResult<String>)
        ensures
            name_result_view(r) == self@.localkey_to_resname(reskey@),
    {
        match reskey {
            ResKey::RName(name) => Ok(name.clone()),
            ResKey::RId(rid) => self.localid_to_resname(rid),
            ResKey::RIdWithSuffix(rid, suffix) => match self.localid_to_resname(rid) {
                Ok(prefix) => Ok(prefix.concat(suffix.as_str())),
                Err(e) => Err(e),
            },
        }
    }

    /// The name that a key stands for, in the direction given.
    pub fn reskey_to_resname(&self, reskey: &ResKey, local: bool) -> (r: ZResult<String>)
        ensures
            name_result_view(r) == self@.reskey_to_resname(reskey@, local),
    {
        if local {
            self.localkey_to_resname(reskey)
        } else {
            self.remotekey_to_resname(reskey)
        }
    }

    /// The id that the next resource gets.
    pub fn next_rid(&self) -> (rid: ResourceId)
        ensures
            rid == self@.rid_counter,
    {
        self.rid_counter
    }

    /// The id that the next query gets.
    pub fn next_qid(&self) -> (qid: ZInt)
        ensures
            qid == self@.qid_counter,
    {
        self.qid_counter
    }

    /// The id that the next declaration gets.
    pub fn next_decl_id(&self) -> (id: Id)
        ensures
            id == self@.decl_id_counter,
    {
        self.decl_id_counter
    }

    pub(crate) fn take_rid(&mut self) -> (rid: ResourceId)
        requires
            old(self)@.rid_counter < ResourceId::MAX,
        ensures
            rid == old(self)@.rid_counter,
            final(self)@ == (StateView { rid_counter: (rid + 1) as ResourceId, ..old(self)@ }),
            final(self).ids_kept() == old(self).ids_kept(),
    {
        let rid = self.rid_counter;
        self.rid_counter = rid + 1;
        assert(self.same_but(old(self), 0));
        rid
    }

    pub(crate) fn take_qid(&mut self) -> (qid: ZInt)
        requires
            old(self)@.qid_counter < ZInt::MAX,
        ensures
            qid == old(self)@.qid_counter,
            final(self)@ == (StateView { qid_counter: (qid + 1) as ZInt, ..old(self)@ }),
            final(self).ids_kept() == old(self).ids_kept(),
    {
        let qid = self.qid_counter;
        self.qid_counter = qid + 1;
        assert(self.same_but(old(self), 1));
        qid
    }

    pub(crate) fn take_decl_id(&mut self) -> (id: Id)
        requires
            old(self)@.decl_id_counter < Id::MAX,
        ensures
            id == old(self)@.decl_id_counter,
            final(self)@ == (StateView { decl_id_counter: (id + 1) as Id, ..old(self)@ }),
            final(self).ids_kept() == old(self).ids_kept(),
    {
        let id = self.decl_id_counter;
        self.decl_id_counter = id + 1;
        assert(self.same_but(old(self), 2));
        id
    }

    pub(crate) fn bind_local(&mut self, rid: ResourceId, name: String)
        ensures
            final(self)@ == (StateView {
                local_resources: old(self)@.local_resources.insert(rid, name@),
                ..old(self)@
            }),
            final(self).ids_kept() == old(self).ids_kept(),
    {
        self.local_resources.insert(rid, name);
        assert(self.same_but(old(self), 3));
        assert(self@.local_resources =~= old(self)@.local_resources.insert(rid, name@));
    }

    pub(crate) fn unbind_local(&mut self, rid: ResourceId)
        ensures
            final(self)@ == (StateView {
                local_resources: old(self)@.local_resources.remove(rid),
                ..old(self)@
            }),
            final(self).ids_kept() == old(self).ids_kept(),
    {
        self.local_resources.remove(&rid);
        assert(self.same_but(old(self), 3));
        assert(self@.local_resources =~= old(self)@.local_resources.remove(rid));
    }

    pub(crate) fn bind_remote(&mut self, rid: ResourceId, name: String)
        ensures
            final(self)@ == (StateView {
                remote_resources: old(self)@.remote_resources.insert(rid, name@),
                ..old(self)@
            }),
            final(self).ids_kept() == old(self).ids_kept(),
    {
        self.remote_resources.insert(rid, name);
        assert(self.same_but(old(self), 4));
        assert(self@.remote_resources =~= old(self)@.remote_resources.insert(rid, name@));
    }

    pub(crate) fn add_publisher(&mut self, entry: PublisherState)
        ensures
            final(self)@ == (StateView {
                publishers: old(self)@.publishers.insert(entry.id, entry.reskey@),
                ..old(self)@
            }),
            old(self).ids_kept() ==> final(self).ids_kept(),
    {
        let ghost id = entry.id;
        let ghost key = entry.reskey@;
        self.publishers.insert(entry.id, entry);
        assert(self.same_but(old(self), 5));
        assert(self@.publishers =~= old(self)@.publishers.insert(id, key));
    }

    pub(crate) fn remove_publisher(&mut self, id: Id)
        ensures
            final(self)@ == (StateView {
                publishers: old(self)@.publishers.remove(id),
                ..old(self)@
            }),
            old(self).ids_kept() ==> final(self).ids_kept(),
    {
        self.publishers.remove(&id);
        assert(self.same_but(old(self), 5));
        assert(self@.publishers =~= old(self)@.publishers.remove(id));
    }

    pub(crate) fn add_subscriber(&mut self, entry: SubscriberState)
        ensures
            final(self)@ == (StateView {
                subscribers: old(self)@.subscribers.insert(
                    entry.id,
                    SubscriberView { reskey: entry.reskey@, resname: entry.resname@ },
                ),
                ..old(self)@
            }),
            old(self).ids_kept() ==> final(self).ids_kept(),
    {
        let ghost id = entry.id;
        let ghost view = SubscriberView { reskey: entry.reskey@, resname: entry.resname@ };
        self.subscribers.insert(entry.id, entry);
        assert(self.same_but(old(self), 6));
        assert(self@.subscribers =~= old(self)@.subscribers.insert(id, view));
    }

    pub(crate) fn remove_subscriber(&mut self, id: Id)
        ensures
            final(self)@ == (StateView {
                subscribers: old(self)@.subscribers.remove(id),
                ..old(self)@
            }),
            old(self).ids_kept() ==> final(self).ids_kept(),
    {
        self.subscribers.remove(&id);
        assert(self.same_but(old(self), 6));
        assert(self@.subscribers =~= old(self)@.subscribers.remove(id));
    }

    pub(crate) fn add_callback_subscriber(&mut self, entry: CallbackSubscriberState)
        ensures
            final(self)@ == (StateView {
                callback_subscribers: old(self)@.callback_subscribers.insert(
                    entry.id,
                    SubscriberView { reskey: entry.reskey@, resname: entry.resname@ },
                ),
                ..old(self)@
            }),
            old(self).ids_kept() ==> final(self).ids_kept(),
    {
        let ghost id = entry.id;
        let ghost view = SubscriberView { reskey: entry.reskey@, resname: entry.resname@ };
        self.callback_subscribers.insert(entry.id, entry);
        assert(self.same_but(old(self), 7));
        assert(self@.callback_subscribers =~= old(self)@.callback_subscribers.insert(id, view));
    }

    pub(crate) fn remove_callback_subscriber(&mut self, id: Id)
        ensures
            final(self)@ == (StateView {
                callback_subscribers: old(self)@.callback_subscribers.remove(id),
                ..old(self)@
            }),
            old(self).ids_kept() ==> final(self).ids_kept(),
    {
        self.callback_subscribers.remove(&id);
        assert(self.same_but(old(self), 7));
        assert(self@.callback_subscribers =~= old(self)@.callback_subscribers.remove(id));
    }

    pub(crate) fn add_queryable(&mut self, entry: QueryableState)
        ensures
            final(self)@ == (StateView {
                queryables: old(self)@.queryables.insert(
                    entry.id,
                    QueryableView { reskey: entry.reskey@, kind: entry.kind },
                ),
                ..old(self)@
            }),
            old(self).ids_kept() ==> final(self).ids_kept(),
    {
        let ghost id = entry.id;
        let ghost view = QueryableView { reskey: entry.reskey@, kind: entry.kind };
        self.queryables.insert(entry.id, entry);
        assert(self.same_but(old(self), 8));
        assert(self@.queryables =~= old(self)@.queryables.insert(id, view));
    }

    pub(crate) fn remove_queryable(&mut self, id: Id)
        ensures
            final(self)@ == (StateView {
                queryables: old(self)@.queryables.remove(id),
                ..old(self)@
            }),
            old(self).ids_kept() ==> final(self).ids_kept(),
    {
        self.queryables.remove(&id);
        assert(self.same_but(old(self), 8));
        assert(self@.queryables =~= old(self)@.queryables.remove(id));
    }

    pub(crate) fn set_query(&mut self, qid: ZInt, remaining: u8)
        ensures
            final(self)@ == (StateView {
                queries: old(self)@.queries.insert(qid, remaining),
                ..old(self)@
            }),
            final(self).ids_kept() == old(self).ids_kept(),
    {
        self.queries.insert(qid, remaining);
        assert(self.same_but(old(self), 9));
    }

    pub(crate) fn remove_query(&mut self, qid: ZInt)
        ensures
            final(self)@ == (StateView { queries: old(self)@.queries.remove(qid), ..old(self)@ }),
            final(self).ids_kept() == old(self).ids_kept(),
    {
        self.queries.remove(&qid);
        assert(self.same_but(old(self), 9));
    }

    pub(crate) fn remaining_repliers(&self, qid: ZInt) -> (r: Option<u8>)
        ensures
            r is Some <==> self@.queries.contains_key(qid),
            r matches Some(n) ==> n == self@.queries[qid],
    {
        match self.queries.get(&qid) {
            Some(n) => Some(*n),
            None => None,
        }
    }

    pub(crate) fn publishes(&self, reskey: &ResKey) -> (r: bool)
        ensures
            r == self@.publishes(reskey@),
    {
        let r = any_on_key(&self.publishers, reskey);
        proof {
            let views = self@.publishers;
            if r {
                let id = choose|id: Id| #[trigger]
                    self.publishers@.contains_key(id) && self.publishers@[id].key_view()
                        == reskey@;
                assert(views.contains_key(id) && views[id] == reskey@);
            }
            if self@.publishes(reskey@) {
                let id = choose|id: Id| #[trigger] views.contains_key(id) && views[id] == reskey@;
                assert(self.publishers@.contains_key(id));
            }
        }
        r
    }

    pub(crate) fn subscribes(&self, reskey: &ResKey) -> (r: bool)
        ensures
            r == self@.subscribes(reskey@),
    {
        let streamed = any_on_key(&self.subscribers, reskey);
        let called = any_on_key(&self.callback_subscribers, reskey);
        proof {
            let s = self@.subscribers;
            let c = self@.callback_subscribers;
            if streamed {
                let id = choose|id: Id| #[trigger]
                    self.subscribers@.contains_key(id) && self.subscribers@[id].key_view()
                        == reskey@;
                assert(s.contains_key(id) && s[id].reskey == reskey@);
            }
            if called {
                let id = choose|id: Id| #[trigger]
                    self.callback_subscribers@.contains_key(id)
                        && self.callback_subscribers@[id].key_view() == reskey@;
                assert(c.contains_key(id) && c[id].reskey == reskey@);
            }
            if exists|id: Id| #[trigger] s.contains_key(id) && s[id].reskey == reskey@ {
                let id = choose|id: Id| #[trigger] s.contains_key(id) && s[id].reskey == reskey@;
                assert(self.subscribers@.contains_key(id));
            }
            if exists|id: Id| #[trigger] c.contains_key(id) && c[id].reskey == reskey@ {
                let id = choose|id: Id| #[trigger] c.contains_key(id) && c[id].reskey == reskey@;
                assert(self.callback_subscribers@.contains_key(id));
            }
        }
        streamed || called
    }

    pub(crate) fn answers(&self, reskey: &ResKey) -> (r: bool)
        ensures
            r == self@.answers(reskey@),
    {
        let r = any_on_key(&self.queryables, reskey);
        proof {
            let views = self@.queryables;
            if r {
                let id = choose|id: Id| #[trigger]
                    self.queryables@.contains_key(id) && self.queryables@[id].key_view()
                        == reskey@;
                assert(views.contains_key(id) && views[id].reskey == reskey@);
            }
            if self@.answers(reskey@) {
                let id = choose|id: Id| #[trigger]
                    views.contains_key(id) && views[id].reskey == reskey@;
                assert(self.queryables@.contains_key(id));
            }
        }
        r
    }

    /// The subscribers with a stream whose name intersects `name`.
    pub(crate) fn matching_streams(&self, name: &str) -> (ids: Vec<Id>)
        ensures
            selects(ids@, self@.subscribers, name@),
    {
        let ids = matching(&self.subscribers, name);
        proof {
            let views = self@.subscribers;
            assert forall|id: Id|
                ids@.contains(id) <==> (#[trigger] views.contains_key(id) && names_intersect(
                    views[id].resname,
                    name@,
                )) by {
                assert(views.contains_key(id) == self.subscribers@.contains_key(id));
            }
        }
        ids
    }

    /// The subscribers with a handler whose name intersects `name`.
    pub(crate) fn matching_callbacks(&self, name: &str) -> (ids: Vec<Id>)
        ensures
            selects(ids@, self@.callback_subscribers, name@),
    {
        let ids = matching(&self.callback_subscribers, name);
        proof {
            let views = self@.callback_subscribers;
            assert forall|id: Id|
                ids@.contains(id) <==> (#[trigger] views.contains_key(id) && names_intersect(
                    views[id].resname,
                    name@,
                )) by {
                assert(views.contains_key(id) == self.callback_subscribers@.contains_key(id));
            }
        }
        ids
    }

    /// The queryables that a query on `name` for the kinds `target_kind`
    /// goes to.
    pub(crate) fn matching_queryables(&self, name: &str, target_kind: ZInt) -> (ids: Vec<Id>)
        ensures
            selects_queryables(ids@, self@, name@, target_kind),
    {
        let entries = snapshot(&self.queryables);
        let mut flags: Vec<bool> = Vec::new();
        let mut i: usize = 0;
        while i < entries.len()
            invariant
                i <= entries.len(),
                flags@.len() == i,
                lists_entries(entries@, self.queryables@),
                forall|j: int|
                    0 <= j < i ==> #[trigger] flags@[j] == self@.queried(
                        entries@[j].0,
                        name@,
                        target_kind,
                    ),
            decreases entries.len() - i,
        {
            let queryable = entries[i].1;
            assert(self.queryables@.contains_key(entries@[i as int].0));
            assert(self@.queryables.contains_key(entries@[i as int].0));
            let flag = match self.localkey_to_resname(&queryable.reskey) {
                Ok(own) => intersect(own.as_str(), name) && kind_matches(
                    queryable.kind,
                    target_kind,
                ),
                Err(_) => false,
            };
            flags.push(flag);
            i += 1;
        }
        let ids = pick(&entries, &flags);
        assert forall|id: Id| ids@.contains(id) <==> #[trigger] self@.queried(
            id,
            name@,
            target_kind,
        ) by {
            if ids@.contains(id) {
                let j = choose|j: int|
                    0 <= j < entries@.len() && (#[trigger] entries@[j]).0 == id && flags@[j];
            }
            if self@.queried(id, name@, target_kind) {
                assert(self.queryables@.contains_key(id));
                let j = choose|j: int| 0 <= j < entries@.len() && (#[trigger] entries@[j]).0 == id;
                assert(flags@[j]);
            }
        }
        ids
    }

    pub(crate) fn queryable_kind(&self, id: Id) -> (r: Option<ZInt>)
        ensures
            r is Some <==> self@.queryables.contains_key(id),
            r matches Some(kind) ==> kind == self@.queryables[id].kind,
    {
        match self.queryables.get(&id) {
            Some(queryable) => Some(queryable.kind),
            None => None,
        }
    }

    /// Forgets every declaration, every resource and every query. The
    /// counters stay.
    pub(crate) fn clear(&mut self)
        ensures
            final(self)@ == (StateView {
                local_resources: Map::empty(),
                remote_resources: Map::empty(),
                publishers: Map::empty(),
                subscribers: Map::empty(),
                callback_subscribers: Map::empty(),
                queryables: Map::empty(),
                queries: Map::empty(),
                ..old(self)@
            }),
            final(self).ids_kept(),
    {
        self.local_resources.clear();
        self.remote_resources.clear();
        self.publishers.clear();
        self.subscribers.clear();
        self.callback_subscribers.clear();
        self.queryables.clear();
        self.queries.clear();
        assert(self.rid_counter == old(self).rid_counter);
        assert(self.qid_counter == old(self).qid_counter);
        assert(self.decl_id_counter == old(self).decl_id_counter);
        assert(self@.local_resources =~= Map::empty());
        assert(self@.remote_resources =~= Map::empty());
        assert(self@.publishers =~= Map::empty());
        assert(self@.subscribers =~= Map::empty());
        assert(self@.callback_subscribers =~= Map::empty());
        assert(self@.queryables =~= Map::empty());
    }
}

} // verus!
