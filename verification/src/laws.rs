//! What holds of every run of a session: of the ids of its resources, of
//! what it tells the network about its subscribers, and of the replies to
//! its queries.

use crate::error::{ZError, ZResult};
use crate::key::names_intersect;
use crate::model::{
    calls, deliveries, sample_of, selects, selects_queryables, SessionView, StateView,
};
use crate::proto::{ActionView, PrimitiveView};
use crate::types::{
    DataInfoView, Id, QueryConsolidation, QueryTarget, ReplyView, ResKeyView, ResourceId,
    SampleView, SubInfo, ZInt, NO_RESOURCE,
};
use vstd::prelude::*;

verus! {

/// The session after the resources `keys` have been declared one after the
/// other, and what each declaration returned.
pub open spec fn declare_resources(s: SessionView, keys: Seq<ResKeyView>) -> (
    SessionView,
    Seq<ZResult<ResourceId>>,
)
    decreases keys.len(),
{
    if keys.len() == 0 {
        (s, Seq::empty())
    } else {
        let (before, ids) = declare_resources(s, keys.drop_last());
        let (after, id) = before.declare_resource(keys.last());
        (after, ids.push(id))
    }
}

proof fn lemma_declare_resources(s: SessionView, keys: Seq<ResKeyView>)
    requires
        s.wf(),
        !s.closed,
        s.state.rid_counter + keys.len() <= ResourceId::MAX,
    ensures
        ({
            let (after, ids) = declare_resources(s, keys);
            &&& after.wf()
            &&& !after.closed
            &&& ids.len() == keys.len()
            &&& after.state.rid_counter == s.state.rid_counter + keys.len()
            &&& forall|i: int|
                0 <= i < ids.len() ==> (#[trigger] ids[i] matches Ok(rid) ==> rid
                    == s.state.rid_counter + i)
            &&& forall|rid: ResourceId|
                s.state.local_resources.contains_key(rid)
                    ==> #[trigger] after.state.local_resources.contains_key(rid)
                    && after.state.local_resources[rid] == s.state.local_resources[rid]
        }),
    decreases keys.len(),
{
    if keys.len() > 0 {
        lemma_declare_resources(s, keys.drop_last());
    }
}

/// The resources that are declared one after the other get ids that grow
/// by one from one declaration to the next, whether the declaration
/// succeeds or not: the ids of those that succeed are distinct, grow, and
/// are never zero.
pub proof fn lemma_declared_ids_grow(s: SessionView, keys: Seq<ResKeyView>, i: int)
    requires
        s.wf(),
        !s.closed,
        s.state.rid_counter + keys.len() <= ResourceId::MAX,
        0 <= i < keys.len(),
    ensures
        declare_resources(s, keys).1.len() == keys.len(),
        declare_resources(s, keys).1[i] matches Ok(rid) ==> rid == s.state.rid_counter + i && rid
            != NO_RESOURCE,
        declare_resources(s, keys).1[i] is Ok <==> declare_resources(
            s,
            keys.take(i),
        ).0.state.localkey_to_resname(keys[i]) is Ok,
    decreases keys.len(),
{
    lemma_declare_resources(s, keys);
    if i < keys.len() - 1 {
        lemma_declared_ids_grow(s, keys.drop_last(), i);
        assert(keys.drop_last().take(i) =~= keys.take(i));
    } else {
        assert(keys.drop_last() =~= keys.take(i));
        lemma_declare_resources(s, keys.drop_last());
    }
}

/// A resource that was declared resolves, by its id, to the name that its
/// key stood for when it was declared, whatever was declared after it.
pub proof fn lemma_declared_id_resolves(s: SessionView, keys: Seq<ResKeyView>, i: int)
    requires
        s.wf(),
        !s.closed,
        s.state.rid_counter + keys.len() <= ResourceId::MAX,
        0 <= i < keys.len(),
        declare_resources(s, keys.take(i)).0.state.localkey_to_resname(keys[i]) is Ok,
    ensures
        declare_resources(s, keys).0.state.localkey_to_resname(
            ResKeyView::RId((s.state.rid_counter + i) as ResourceId),
        ) == declare_resources(s, keys.take(i)).0.state.localkey_to_resname(keys[i]),
{
    let before = declare_resources(s, keys.take(i)).0;
    let upto = keys.take(i + 1);
    assert(upto.drop_last() =~= keys.take(i));
    assert(upto.last() == keys[i]);
    lemma_declare_resources(s, keys.take(i));
    let declared = declare_resources(s, upto).0;
    let rid = (s.state.rid_counter + i) as ResourceId;
    assert(declared.state.local_resources.contains_key(rid));
    let rest = keys.skip(i + 1);
    lemma_declare_resources(s, upto);
    lemma_declare_more(s, upto, rest);
    assert(upto + rest =~= keys);
    lemma_declare_resources(declared, rest);
}

proof fn lemma_declare_more(s: SessionView, first: Seq<ResKeyView>, then: Seq<ResKeyView>)
    ensures
        declare_resources(s, first + then).0 == declare_resources(
            declare_resources(s, first).0,
            then,
        ).0,
    decreases then.len(),
{
    if then.len() == 0 {
        assert(first + then =~= first);
    } else {
        lemma_declare_more(s, first, then.drop_last());
        assert((first + then).drop_last() =~= first + then.drop_last());
    }
}

/// Once a resource has been undeclared, its id resolves no more; every
/// other id resolves as before.
pub proof fn lemma_undeclared_id_fails(s: SessionView, rid: ResourceId, other: ResourceId)
    requires
        !s.closed,
        other != rid,
    ensures
        s.undeclare_resource(rid).0.state.localkey_to_resname(ResKeyView::RId(rid)) == Err::<
            Seq<char>,
            ZError,
        >(ZError::UnknownResourceId { rid }),
        s.undeclare_resource(rid).0.state.localkey_to_resname(ResKeyView::RId(other))
            == s.state.localkey_to_resname(ResKeyView::RId(other)),
{
}

/// One reply to a query: the kind of the queryable, the peer it lives on,
/// the key, and the data.
pub struct ReplyDataView {
    pub source_kind: ZInt,
    pub replier_id: Seq<u8>,
    pub reskey: ResKeyView,
    pub info: Option<DataInfoView>,
    pub payload: Seq<u8>,
}

/// The session after the replies to the query `qid` have come in one after
/// the other.
pub open spec fn receive_replies(s: SessionView, qid: ZInt, replies: Seq<ReplyDataView>) -> SessionView
    decreases replies.len(),
{
    if replies.len() == 0 {
        s
    } else {
        receive_replies(s, qid, replies.drop_last()).reply_data(
            qid,
            replies.last().source_kind,
            replies.last().replier_id,
            replies.last().reskey,
            replies.last().info,
            replies.last().payload,
        )
    }
}

/// The session after `n` routes have said that they are done with the
/// query `qid`.
pub open spec fn receive_finals(s: SessionView, qid: ZInt, n: nat) -> SessionView
    decreases n,
{
    if n == 0 {
        s
    } else {
        receive_finals(s, qid, (n - 1) as nat).reply_final(qid)
    }
}

/// What the stream of the query `qid` is handed for each of the replies,
/// in order.
pub open spec fn answers(state: StateView, qid: ZInt, replies: Seq<ReplyDataView>) -> Seq<
    ActionView,
> {
    replies.map_values(
        |r: ReplyDataView|
            ActionView::Answer {
                qid,
                reply: ReplyView {
                    data: sample_of(
                        state.remotekey_to_resname(r.reskey)->Ok_0,
                        r.info,
                        r.payload,
                    ),
                    source_kind: r.source_kind,
                    replier_id: r.replier_id,
                },
            },
    )
}

proof fn lemma_receive_replies(s: SessionView, qid: ZInt, replies: Seq<ReplyDataView>)
    requires
        !s.closed,
        s.state.queries.contains_key(qid),
        forall|i: int|
            0 <= i < replies.len() ==> s.state.remotekey_to_resname(
                (#[trigger] replies[i]).reskey,
            ) is Ok,
    ensures
        receive_replies(s, qid, replies) == s.emit_all(answers(s.state, qid, replies)),
    decreases replies.len(),
{
    if replies.len() == 0 {
        assert(s.pending + answers(s.state, qid, replies) =~= s.pending);
    } else {
        let before = replies.drop_last();
        lemma_receive_replies(s, qid, before);
        assert(s.state.remotekey_to_resname(replies[replies.len() - 1].reskey) is Ok);
        assert(answers(s.state, qid, replies) =~= answers(s.state, qid, before).push(
            answers(s.state, qid, replies).last(),
        ));
        assert(s.pending + answers(s.state, qid, replies) =~= (s.pending + answers(
            s.state,
            qid,
            before,
        )).push(answers(s.state, qid, replies).last()));
    }
}

proof fn lemma_receive_finals(s: SessionView, qid: ZInt, n: nat)
    requires
        !s.closed,
        s.state.queries.contains_key(qid),
        n <= s.state.queries[qid],
        n < s.state.queries[qid] || n >= 1,
    ensures
        n < s.state.queries[qid] ==> receive_finals(s, qid, n) == s.with_state(
            StateView {
                queries: s.state.queries.insert(qid, (s.state.queries[qid] - n) as u8),
                ..s.state
            },
        ),
        n == s.state.queries[qid] ==> receive_finals(s, qid, n) == s.with_state(
            StateView { queries: s.state.queries.remove(qid), ..s.state },
        ).emit(ActionView::EndOfReplies { qid }),
    decreases n,
{
    if n == 0 {
        assert(s.state.queries.insert(qid, s.state.queries[qid]) =~= s.state.queries);
    } else {
        lemma_receive_finals(s, qid, (n - 1) as nat);
        let before = receive_finals(s, qid, (n - 1) as nat);
        assert(before.state.queries[qid] == s.state.queries[qid] - (n - 1));
        if n < s.state.queries[qid] {
            assert(before.state.queries.insert(qid, (before.state.queries[qid] - 1) as u8)
                =~= s.state.queries.insert(qid, (s.state.queries[qid] - n) as u8));
        } else {
            assert(before.state.queries.remove(qid) =~= s.state.queries.remove(qid));
        }
    }
}

/// A query on a key that resolves waits for two routes, this session and
/// the network; a query on a key that does not resolve waits for the
/// network alone. Either way the query that was issued is under way, under
/// the id that the session had next.
pub proof fn lemma_query_routes(
    pre: SessionView,
    next: SessionView,
    reskey: ResKeyView,
    predicate: Seq<char>,
    target: QueryTarget,
    consolidation: QueryConsolidation,
)
    requires
        !pre.closed,
        pre.queries(next, reskey, predicate, target, consolidation),
    ensures
        next.state.queries.contains_key(pre.state.qid_counter),
        next.state.queries[pre.state.qid_counter] == if pre.state.localkey_to_resname(reskey)
            is Ok {
            2u8
        } else {
            1u8
        },
        next.state.remote_resources == pre.state.remote_resources,
        next.state.local_resources == pre.state.local_resources,
{
    let entered = pre.enters_query(reskey, predicate, target, consolidation);
    let qid = pre.state.qid_counter;
    assert(entered.state.localkey_to_resname(reskey) == pre.state.localkey_to_resname(reskey));
    if entered.state.reskey_to_resname(reskey, true) is Ok {
        let name = entered.state.reskey_to_resname(reskey, true)->Ok_0;
        let asked = choose|asked: Seq<Id>|
            {
                &&& selects_queryables(asked, entered.state, name, target.kind)
                &&& #[trigger] entered.dispatches(next, asked, true, name, predicate, qid)
            };
    }
}

/// A query that gets some replies, and then the end of the replies from
/// each route that it waits for, hands its stream exactly those replies,
/// in the order in which they came and each under the name that its key
/// stands for, and then the end of the stream. The query is under way no
/// more, so that whatever comes for it afterwards is dropped.
pub proof fn lemma_replies_then_end(s: SessionView, qid: ZInt, replies: Seq<ReplyDataView>)
    requires
        s.wf(),
        !s.closed,
        s.state.queries.contains_key(qid),
        forall|i: int|
            0 <= i < replies.len() ==> s.state.remotekey_to_resname(
                (#[trigger] replies[i]).reskey,
            ) is Ok,
    ensures
        ({
            let end = receive_finals(
                receive_replies(s, qid, replies),
                qid,
                s.state.queries[qid] as nat,
            );
            &&& end.pending == s.pending + answers(s.state, qid, replies) + seq![
                ActionView::EndOfReplies { qid },
            ]
            &&& end.state == (StateView { queries: s.state.queries.remove(qid), ..s.state })
            &&& !end.state.queries.contains_key(qid)
            &&& end.reply_final(qid) == end
            &&& forall|r: ReplyDataView|
                end.reply_data(qid, r.source_kind, r.replier_id, r.reskey, r.info, r.payload)
                    == end
        }),
{
    lemma_receive_replies(s, qid, replies);
    let got = receive_replies(s, qid, replies);
    lemma_receive_finals(got, qid, s.state.queries[qid] as nat);
    let end = receive_finals(got, qid, s.state.queries[qid] as nat);
    assert(end.pending =~= s.pending + answers(s.state, qid, replies) + seq![
        ActionView::EndOfReplies { qid },
    ]);
}


/// The session after one subscriber on `key` has been declared for each of
/// `infos`, one after the other: with a handler where the flag of the same
/// rank in `callbacks` is set, with a stream where it is not.
pub open spec fn declare_subscribers(
    s: SessionView,
    key: ResKeyView,
    infos: Seq<SubInfo>,
    callbacks: Seq<bool>,
) -> SessionView
    decreases infos.len(),
{
    if infos.len() == 0 {
        s
    } else {
        declare_subscribers(
            s,
            key,
            infos.drop_last(),
            callbacks.drop_last(),
        ).declare_subscriber(key, infos.last(), callbacks.last()).0
    }
}

/// The session after subscribers on `key` have been undeclared one after
/// the other: those whose ids are `first` plus each of `order`, each one
/// with a handler or with a stream as the flag of its rank in `callbacks`
/// says.
pub open spec fn undeclare_subscribers(
    s: SessionView,
    key: ResKeyView,
    first: Id,
    order: Seq<int>,
    callbacks: Seq<bool>,
) -> SessionView
    decreases order.len(),
{
    if order.len() == 0 {
        s
    } else {
        undeclare_subscribers(s, key, first, order.drop_last(), callbacks).undeclare_subscriber(
            (first + order.last()) as Id,
            key,
            callbacks[order.last()],
        ).0
    }
}

/// `order` lists each of the numbers below `n` once.
pub open spec fn is_order(order: Seq<int>, n: int) -> bool {
    &&& order.len() == n
    &&& order.no_duplicates()
    &&& forall|j: int| 0 <= j < order.len() ==> 0 <= #[trigger] order[j] < n
    &&& forall|i: int| 0 <= i < n ==> order.contains(i)
}

/// `d` is `s` with the `n` subscribers on `key` that were declared from
/// the declaration id of `s` on, but for those of the ranks `removed`.
spec fn shaped(
    s: SessionView,
    d: SessionView,
    key: ResKeyView,
    callbacks: Seq<bool>,
    n: int,
    removed: Seq<int>,
) -> bool {
    let c = s.state.decl_id_counter;
    &&& d.pid == s.pid
    &&& !d.closed
    &&& d.state.rid_counter == s.state.rid_counter
    &&& d.state.qid_counter == s.state.qid_counter
    &&& d.state.local_resources == s.state.local_resources
    &&& d.state.remote_resources == s.state.remote_resources
    &&& d.state.publishers == s.state.publishers
    &&& d.state.queryables == s.state.queryables
    &&& d.state.queries == s.state.queries
    &&& d.state.decl_id_counter == c + n
    &&& forall|id: Id| #[trigger]
        d.state.subscribers.contains_key(id) <==> s.state.subscribers.contains_key(id) || (c
            <= id < c + n && !callbacks[id - c] && !removed.contains(id - c))
    &&& forall|id: Id| #[trigger]
        s.state.subscribers.contains_key(id) ==> d.state.subscribers[id]
            == s.state.subscribers[id]
    &&& forall|id: Id|
        c <= id < c + n && #[trigger] d.state.subscribers.contains_key(id)
            ==> d.state.subscribers[id].reskey == key
    &&& forall|id: Id| #[trigger]
        d.state.callback_subscribers.contains_key(id)
            <==> s.state.callback_subscribers.contains_key(id) || (c <= id < c + n
            && callbacks[id - c] && !removed.contains(id - c))
    &&& forall|id: Id| #[trigger]
        s.state.callback_subscribers.contains_key(id) ==> d.state.callback_subscribers[id]
            == s.state.callback_subscribers[id]
    &&& forall|id: Id|
        c <= id < c + n && #[trigger] d.state.callback_subscribers.contains_key(id)
            ==> d.state.callback_subscribers[id].reskey == key
}

proof fn lemma_declared_shape(
    s: SessionView,
    key: ResKeyView,
    infos: Seq<SubInfo>,
    callbacks: Seq<bool>,
)
    requires
        s.wf(),
        !s.closed,
        s.state.localkey_to_resname(key) is Ok,
        !s.state.subscribes(key),
        callbacks.len() == infos.len(),
        s.state.decl_id_counter + infos.len() <= Id::MAX,
    ensures
        shaped(
            s,
            declare_subscribers(s, key, infos, callbacks),
            key,
            callbacks,
            infos.len() as int,
            Seq::empty(),
        ),
        declare_subscribers(s, key, infos, callbacks).pending == if infos.len() == 0 {
            s.pending
        } else {
            s.pending.push(
                ActionView::Send(PrimitiveView::Subscriber { reskey: key, sub_info: infos[0] }),
            )
        },
    decreases infos.len(),
{
    let c = s.state.decl_id_counter;
    let none = Seq::<int>::empty();
    if infos.len() > 0 {
        let n = infos.len() - 1;
        let fewer = callbacks.drop_last();
        lemma_declared_shape(s, key, infos.drop_last(), fewer);
        let before = declare_subscribers(s, key, infos.drop_last(), fewer);
        let after = before.declare_subscriber(key, infos.last(), callbacks.last()).0;
        assert(forall|i: int| 0 <= i < n ==> #[trigger] fewer[i] == callbacks[i]);
        assert(before.state.localkey_to_resname(key) == s.state.localkey_to_resname(key));
        let id = (c + n) as Id;
        assert(!s.state.subscribers.contains_key(id));
        assert(!s.state.callback_subscribers.contains_key(id));
        if n == 0 {
            assert(!before.state.subscribes(key)) by {
                if before.state.subscribes(key) {
                    if exists|x: Id| #[trigger]
                        before.state.subscribers.contains_key(x)
                            && before.state.subscribers[x].reskey == key {
                        let x = choose|x: Id| #[trigger]
                            before.state.subscribers.contains_key(x)
                                && before.state.subscribers[x].reskey == key;
                        assert(s.state.subscribers.contains_key(x));
                    } else {
                        let x = choose|x: Id| #[trigger]
                            before.state.callback_subscribers.contains_key(x)
                                && before.state.callback_subscribers[x].reskey == key;
                        assert(s.state.callback_subscribers.contains_key(x));
                    }
                }
            }
            assert(infos.last() == infos[0]);
        } else {
            assert(before.state.subscribes(key)) by {
                let x = c;
                if callbacks[0] {
                    assert(before.state.callback_subscribers.contains_key(x));
                } else {
                    assert(before.state.subscribers.contains_key(x));
                }
            }
            assert(infos.drop_last()[0] == infos[0]);
        }
        assert(shaped(s, after, key, callbacks, infos.len() as int, none));
    }
}

proof fn lemma_undeclared_shape(
    s: SessionView,
    d: SessionView,
    key: ResKeyView,
    callbacks: Seq<bool>,
    order: Seq<int>,
    m: int,
)
    requires
        s.wf(),
        !s.state.subscribes(key),
        is_order(order, callbacks.len() as int),
        shaped(s, d, key, callbacks, callbacks.len() as int, Seq::empty()),
        s.state.decl_id_counter + callbacks.len() <= Id::MAX,
        0 <= m <= order.len(),
    ensures
        shaped(
            s,
            undeclare_subscribers(d, key, s.state.decl_id_counter, order.take(m), callbacks),
            key,
            callbacks,
            callbacks.len() as int,
            order.take(m),
        ),
        undeclare_subscribers(d, key, s.state.decl_id_counter, order.take(m), callbacks).pending
            == if 0 < m && m == order.len() {
            d.pending.push(ActionView::Send(PrimitiveView::ForgetSubscriber { reskey: key }))
        } else {
            d.pending
        },
    decreases m,
{
    let c = s.state.decl_id_counter;
    let n = callbacks.len() as int;
    if m == 0 {
        assert(order.take(0) =~= Seq::<int>::empty());
    } else {
        lemma_undeclared_shape(s, d, key, callbacks, order, m - 1);
        let done = order.take(m - 1);
        let now = order.take(m);
        assert(now.drop_last() =~= done);
        assert(now.last() == order[m - 1]);
        let k = order[m - 1];
        let before = undeclare_subscribers(d, key, c, done, callbacks);
        let id = (c + k) as Id;
        let after = before.undeclare_subscriber(id, key, callbacks[k]).0;
        assert(!s.state.subscribers.contains_key(id));
        assert(!s.state.callback_subscribers.contains_key(id));
        assert forall|x: int| now.contains(x) <==> done.contains(x) || x == k by {
            if now.contains(x) {
                let j = choose|j: int| 0 <= j < now.len() && now[j] == x;
                if j < m - 1 {
                    assert(done[j] == x);
                }
            }
            if done.contains(x) {
                let j = choose|j: int| 0 <= j < done.len() && done[j] == x;
                assert(now[j] == x);
            }
            assert(now[m - 1] == k);
        }
        assert(shaped(s, after, key, callbacks, n, now));
        let removed = if callbacks[k] {
            StateView {
                callback_subscribers: before.state.callback_subscribers.remove(id),
                ..before.state
            }
        } else {
            StateView { subscribers: before.state.subscribers.remove(id), ..before.state }
        };
        if m < order.len() {
            let left = order[m];
            assert(!now.contains(left)) by {
                if now.contains(left) {
                    let j = choose|j: int| 0 <= j < now.len() && now[j] == left;
                    assert(order[j] == order[m]);
                }
            }
            let x = (c + left) as Id;
            assert(removed.subscribes(key)) by {
                if callbacks[left] {
                    assert(after.state.callback_subscribers.contains_key(x));
                    assert(removed.callback_subscribers.contains_key(x));
                } else {
                    assert(after.state.subscribers.contains_key(x));
                    assert(removed.subscribers.contains_key(x));
                }
            }
        } else {
            assert(!removed.subscribes(key)) by {
                if removed.subscribes(key) {
                    if exists|x: Id| #[trigger]
                        removed.subscribers.contains_key(x) && removed.subscribers[x].reskey
                            == key {
                        let x = choose|x: Id| #[trigger]
                            removed.subscribers.contains_key(x) && removed.subscribers[x].reskey
                                == key;
                        assert(after.state.subscribers.contains_key(x));
                        if s.state.subscribers.contains_key(x) {
                            assert(s.state.subscribes(key));
                        } else {
                            assert(order.contains(x - c));
                            assert(now =~= order);
                        }
                    } else {
                        let x = choose|x: Id| #[trigger]
                            removed.callback_subscribers.contains_key(x)
                                && removed.callback_subscribers[x].reskey == key;
                        assert(after.state.callback_subscribers.contains_key(x));
                        if s.state.callback_subscribers.contains_key(x) {
                            assert(s.state.subscribes(key));
                        } else {
                            assert(order.contains(x - c));
                            assert(now =~= order);
                        }
                    }
                }
            }
        }
    }
}

/// However many subscribers are declared on one key that had none, with a
/// stream or with a handler, and in whatever order they are then
/// undeclared, the network is told once that there is a subscriber on the
/// key, with the first declaration, and once that there is none, with the
/// last undeclaration, and nothing else; and the tables are as they were.
pub proof fn lemma_one_subscriber_one_forget(
    s: SessionView,
    key: ResKeyView,
    infos: Seq<SubInfo>,
    callbacks: Seq<bool>,
    order: Seq<int>,
)
    requires
        s.wf(),
        !s.closed,
        s.state.localkey_to_resname(key) is Ok,
        !s.state.subscribes(key),
        infos.len() >= 1,
        callbacks.len() == infos.len(),
        s.state.decl_id_counter + infos.len() <= Id::MAX,
        is_order(order, infos.len() as int),
    ensures
        ({
            let declared = declare_subscribers(s, key, infos, callbacks);
            let end = undeclare_subscribers(
                declared,
                key,
                s.state.decl_id_counter,
                order,
                callbacks,
            );
            &&& declared.pending == s.pending.push(
                ActionView::Send(PrimitiveView::Subscriber { reskey: key, sub_info: infos[0] }),
            )
            &&& end.pending == declared.pending.push(
                ActionView::Send(PrimitiveView::ForgetSubscriber { reskey: key }),
            )
            &&& end.state == (StateView {
                decl_id_counter: (s.state.decl_id_counter + infos.len()) as Id,
                ..s.state
            })
        }),
{
    lemma_declared_shape(s, key, infos, callbacks);
    let declared = declare_subscribers(s, key, infos, callbacks);
    lemma_undeclared_shape(s, declared, key, callbacks, order, order.len() as int);
    assert(order.take(order.len() as int) =~= order);
    let end = undeclare_subscribers(declared, key, s.state.decl_id_counter, order, callbacks);
    let c = s.state.decl_id_counter;
    assert(end.state.subscribers =~= s.state.subscribers) by {
        assert forall|id: Id|
            end.state.subscribers.contains_key(id) == s.state.subscribers.contains_key(id) by {
            if end.state.subscribers.contains_key(id) && !s.state.subscribers.contains_key(id) {
                assert(order.contains(id - c));
            }
        }
    }
    assert(end.state.callback_subscribers =~= s.state.callback_subscribers) by {
        assert forall|id: Id|
            end.state.callback_subscribers.contains_key(id)
                == s.state.callback_subscribers.contains_key(id) by {
            if end.state.callback_subscribers.contains_key(id)
                && !s.state.callback_subscribers.contains_key(id) {
                assert(order.contains(id - c));
            }
        }
    }
}


/// How many times `action` occurs in `actions`.
pub open spec fn occurrences(actions: Seq<ActionView>, action: ActionView) -> nat
    decreases actions.len(),
{
    if actions.len() == 0 {
        0
    } else {
        occurrences(actions.drop_last(), action) + if actions.last() == action {
            1nat
        } else {
            0nat
        }
    }
}

proof fn lemma_occurrences_concat(x: Seq<ActionView>, y: Seq<ActionView>, action: ActionView)
    ensures
        occurrences(x + y, action) == occurrences(x, action) + occurrences(y, action),
    decreases y.len(),
{
    if y.len() == 0 {
        assert(x + y =~= x);
    } else {
        lemma_occurrences_concat(x, y.drop_last(), action);
        assert((x + y).drop_last() =~= x + y.drop_last());
    }
}

proof fn lemma_occurrences_handed(ids: Seq<Id>, sample: SampleView, id: Id)
    requires
        ids.no_duplicates(),
    ensures
        occurrences(deliveries(ids, sample), ActionView::Deliver { subscriber: id, sample })
            == if ids.contains(id) {
            1nat
        } else {
            0nat
        },
        occurrences(calls(ids, sample), ActionView::Call { subscriber: id, sample })
            == if ids.contains(id) {
            1nat
        } else {
            0nat
        },
        occurrences(deliveries(ids, sample), ActionView::Call { subscriber: id, sample }) == 0,
        occurrences(calls(ids, sample), ActionView::Deliver { subscriber: id, sample }) == 0,
    decreases ids.len(),
{
    if ids.len() > 0 {
        let before = ids.drop_last();
        lemma_occurrences_handed(before, sample, id);
        assert(deliveries(ids, sample).drop_last() =~= deliveries(before, sample));
        assert(calls(ids, sample).drop_last() =~= calls(before, sample));
        assert(ids.contains(id) <==> before.contains(id) || ids.last() == id) by {
            if ids.contains(id) {
                let j = choose|j: int| 0 <= j < ids.len() && ids[j] == id;
                if j < ids.len() - 1 {
                    assert(before[j] == id);
                }
            }
            if before.contains(id) {
                let j = choose|j: int| 0 <= j < before.len() && before[j] == id;
                assert(ids[j] == id);
            }
            assert(ids[ids.len() - 1] == ids.last());
        }
        if before.contains(id) {
            let j = choose|j: int| 0 <= j < before.len() && before[j] == id;
            assert(ids[j] == id);
            assert(ids.last() != id);
        }
    }
}

/// A piece of data on a key that resolves is handed exactly once to every
/// subscriber whose name intersects the name of the data, to its stream or
/// to its handler as it was declared, and to no other; what is handed over
/// is the data under its name; and the tables stay as they are.
pub proof fn lemma_delivered_once(
    pre: SessionView,
    next: SessionView,
    local: bool,
    reskey: ResKeyView,
    info: Option<DataInfoView>,
    payload: Seq<u8>,
    id: Id,
)
    requires
        !pre.closed,
        pre.state.reskey_to_resname(reskey, local) is Ok,
        pre.handles_data(next, local, reskey, info, payload),
    ensures
        ({
            let name = pre.state.reskey_to_resname(reskey, local)->Ok_0;
            let sample = sample_of(name, info, payload);
            let handed = next.pending.skip(pre.pending.len() as int);
            &&& next.state == pre.state
            &&& next.pending == pre.pending + handed
            &&& occurrences(handed, ActionView::Deliver { subscriber: id, sample }) == if
                pre.state.subscribers.contains_key(id) && names_intersect(
                pre.state.subscribers[id].resname,
                name,
            ) {
                1nat
            } else {
                0nat
            }
            &&& occurrences(handed, ActionView::Call { subscriber: id, sample }) == if
                pre.state.callback_subscribers.contains_key(id) && names_intersect(
                pre.state.callback_subscribers[id].resname,
                name,
            ) {
                1nat
            } else {
                0nat
            }
            &&& forall|i: int|
                0 <= i < handed.len() ==> match #[trigger] handed[i] {
                    ActionView::Deliver { subscriber, sample: s } => s == sample
                        && pre.state.subscribers.contains_key(subscriber),
                    ActionView::Call { subscriber, sample: s } => s == sample
                        && pre.state.callback_subscribers.contains_key(subscriber),
                    _ => false,
                }
        }),
{
    let name = pre.state.reskey_to_resname(reskey, local)->Ok_0;
    let sample = sample_of(name, info, payload);
    let (called, streamed) = choose|called: Seq<Id>, streamed: Seq<Id>|
        {
            &&& selects(called, pre.state.callback_subscribers, name)
            &&& selects(streamed, pre.state.subscribers, name)
            &&& #[trigger] pre.fans_out(next, called, streamed, name, info, payload)
        };
    let handed = next.pending.skip(pre.pending.len() as int);
    assert(handed =~= calls(called, sample) + deliveries(streamed, sample));
    assert(next.pending =~= pre.pending + handed);
    lemma_occurrences_handed(called, sample, id);
    lemma_occurrences_handed(streamed, sample, id);
    lemma_occurrences_concat(
        calls(called, sample),
        deliveries(streamed, sample),
        ActionView::Deliver { subscriber: id, sample },
    );
    lemma_occurrences_concat(
        calls(called, sample),
        deliveries(streamed, sample),
        ActionView::Call { subscriber: id, sample },
    );
    assert forall|i: int| 0 <= i < handed.len() implies match #[trigger] handed[i] {
        ActionView::Deliver { subscriber, sample: s } => s == sample
            && pre.state.subscribers.contains_key(subscriber),
        ActionView::Call { subscriber, sample: s } => s == sample
            && pre.state.callback_subscribers.contains_key(subscriber),
        _ => false,
    } by {
        if i < called.len() {
            assert(called.contains(called[i]));
        } else {
            assert(streamed.contains(streamed[i - called.len()]));
        }
    }
}

/// What is written reaches every subscriber of the same session whose name
/// intersects the name that the key stands for: after the data has been
/// sent, the stream of such a subscriber is handed one sample, under that
/// name and with the payload that was written.
pub proof fn lemma_written_is_delivered(
    pre: SessionView,
    next: SessionView,
    reskey: ResKeyView,
    payload: Seq<u8>,
    id: Id,
)
    requires
        !pre.closed,
        pre.state.localkey_to_resname(reskey) is Ok,
        pre.writes(next, reskey, payload),
        pre.state.subscribers.contains_key(id),
        names_intersect(
            pre.state.subscribers[id].resname,
            pre.state.localkey_to_resname(reskey)->Ok_0,
        ),
    ensures
        next.pending.len() > pre.pending.len(),
        next.pending[pre.pending.len() as int] == ActionView::Send(
            PrimitiveView::Data { reskey, reliable: true, info: None, payload },
        ),
        occurrences(
            next.pending.skip(pre.pending.len() as int + 1),
            ActionView::Deliver {
                subscriber: id,
                sample: sample_of(pre.state.localkey_to_resname(reskey)->Ok_0, None, payload),
            },
        ) == 1,
{
    let sent = pre.send(PrimitiveView::Data { reskey, reliable: true, info: None, payload });
    lemma_delivered_once(sent, next, true, reskey, None, payload, id);
}


/// What is written with an encoding and a kind reaches the subscribers of
/// the same session as what is written without: the key is looked up among
/// the ids of the application, and the stream of every subscriber whose
/// name intersects that name is handed one sample, under that name, with
/// the payload that was written and with the encoding and the kind as all
/// that is known about it.
pub proof fn lemma_written_ext_is_delivered(
    pre: SessionView,
    next: SessionView,
    reskey: ResKeyView,
    payload: Seq<u8>,
    encoding: ZInt,
    kind: ZInt,
    id: Id,
)
    requires
        !pre.closed,
        pre.state.localkey_to_resname(reskey) is Ok,
        pre.writes_ext(next, reskey, payload, encoding, kind),
        pre.state.subscribers.contains_key(id),
        names_intersect(
            pre.state.subscribers[id].resname,
            pre.state.localkey_to_resname(reskey)->Ok_0,
        ),
    ensures
        next.pending.len() > pre.pending.len(),
        next.pending[pre.pending.len() as int] == ActionView::Send(
            PrimitiveView::Data {
                reskey,
                reliable: true,
                info: Some(SessionView::written_info(encoding, kind)),
                payload,
            },
        ),
        occurrences(
            next.pending.skip(pre.pending.len() as int + 1),
            ActionView::Deliver {
                subscriber: id,
                sample: sample_of(
                    pre.state.localkey_to_resname(reskey)->Ok_0,
                    Some(SessionView::written_info(encoding, kind)),
                    payload,
                ),
            },
        ) == 1,
{
    let info = Some(SessionView::written_info(encoding, kind));
    let sent = pre.send(PrimitiveView::Data { reskey, reliable: true, info, payload });
    lemma_delivered_once(sent, next, true, reskey, info, payload, id);
}

} // verus!
