//! The session as a state machine over mathematical values: what the state
//! holds, how names are resolved, and what each operation does to the state
//! and asks of the driver.

use crate::error::{ZError, ZResult};
use crate::key::names_intersect;
use crate::proto::{ActionView, PrimitiveView};
use crate::types::{
    kinds_compatible, DataInfoView, Id, QueryConsolidation, QueryTarget, QueryView, ReplyView,
    ResKeyView, ResourceId, SampleView, SubInfo, ZInt,
};
use vstd::prelude::*;

verus! {

/// The capacity of the stream of a subscriber.
pub const API_DATA_RECEPTION_CHANNEL_SIZE: usize = 256;

/// The capacity of the stream of a queryable.
pub const API_QUERY_RECEPTION_CHANNEL_SIZE: usize = 256;

/// The capacity of the route on which the replies to one incoming query are
/// gathered.
pub const API_REPLY_EMISSION_CHANNEL_SIZE: usize = 256;

/// The capacity of the reply stream of a query that this session issues.
pub const API_REPLY_RECEPTION_CHANNEL_SIZE: usize = 256;

/// A subscription: the key it was declared on and the name that key stood
/// for at that time.
pub struct SubscriberView {
    pub reskey: ResKeyView,
    pub resname: Seq<char>,
}

/// A queryable: the key it was declared on and its kind.
pub struct QueryableView {
    pub reskey: ResKeyView,
    pub kind: ZInt,
}

/// The tables of a session.
pub struct StateView {
    /// The id that the next declared resource gets.
    pub rid_counter: ResourceId,
    /// The id that the next query gets.
    pub qid_counter: ZInt,
    /// The id that the next declaration gets.
    pub decl_id_counter: Id,
    /// The resources that the application declared.
    pub local_resources: Map<ResourceId, Seq<char>>,
    /// The resources that the remote side declared.
    pub remote_resources: Map<ResourceId, Seq<char>>,
    pub publishers: Map<Id, ResKeyView>,
    pub subscribers: Map<Id, SubscriberView>,
    pub callback_subscribers: Map<Id, SubscriberView>,
    pub queryables: Map<Id, QueryableView>,
    /// The queries under way, each with the number of routes that have yet
    /// to say that they are done.
    pub queries: Map<ZInt, u8>,
}

impl StateView {
    /// The state of a new session: no declaration, the first resource id is
    /// one.
    pub open spec fn initial() -> StateView {
        StateView {
            rid_counter: 1,
            qid_counter: 0,
            decl_id_counter: 0,
            local_resources: Map::empty(),
            remote_resources: Map::empty(),
            publishers: Map::empty(),
            subscribers: Map::empty(),
            callback_subscribers: Map::empty(),
            queryables: Map::empty(),
            queries: Map::empty(),
        }
    }

    /// Every id in use was handed out by its counter, and every query under
    /// way waits for at least one route.
    pub open spec fn wf(self) -> bool {
        &&& self.rid_counter >= 1
        &&& forall|rid: ResourceId| #[trigger]
            self.local_resources.contains_key(rid) ==> 1 <= rid < self.rid_counter
        &&& forall|id: Id| #[trigger] self.publishers.contains_key(id) ==> id < self.decl_id_counter
        &&& forall|id: Id| #[trigger]
            self.subscribers.contains_key(id) ==> id < self.decl_id_counter
        &&& forall|id: Id| #[trigger]
            self.callback_subscribers.contains_key(id) ==> id < self.decl_id_counter
        &&& forall|id: Id| #[trigger] self.queryables.contains_key(id) ==> id < self.decl_id_counter
        &&& forall|qid: ZInt| #[trigger]
            self.queries.contains_key(qid) ==> qid < self.qid_counter && self.queries[qid] >= 1
    }

    /// The name that the application bound to `rid`.
    pub open spec fn localid_to_resname(self, rid: ResourceId) -> ZResult<Seq<char>> {
        if self.local_resources.contains_key(rid) {
            Ok(self.local_resources[rid])
        } else {
            Err(ZError::UnknownResourceId { rid })
        }
    }

    /// The name that the remote side bound to `rid`, or else the one that
    /// the application bound to it.
    pub open spec fn rid_to_resname(self, rid: ResourceId) -> ZResult<Seq<char>> {
        if self.remote_resources.contains_key(rid) {
            Ok(self.remote_resources[rid])
        } else {
            self.localid_to_resname(rid)
        }
    }

    /// The name that a key of the application stands for.
    pub open spec fn localkey_to_resname(self, reskey: ResKeyView) -> ZResult<Seq<char>> {
        match reskey {
            ResKeyView::RName(name) => Ok(name),
            ResKeyView::RId(rid) => self.localid_to_resname(rid),
            ResKeyView::RIdWithSuffix(rid, suffix) => match self.localid_to_resname(rid) {
                Ok(prefix) => Ok(prefix + suffix),
                Err(e) => Err(e),
            },
        }
    }

    /// The name that a key of the remote side stands for.
    pub open spec fn remotekey_to_resname(self, reskey: ResKeyView) -> ZResult<Seq<char>> {
        match reskey {
            ResKeyView::RName(name) => Ok(name),
            ResKeyView::RId(rid) => self.rid_to_resname(rid),
            ResKeyView::RIdWithSuffix(rid, suffix) => match self.rid_to_resname(rid) {
                Ok(prefix) => Ok(prefix + suffix),
                Err(e) => Err(e),
            },
        }
    }

    /// The name that a key stands for, in the direction given.
    pub open spec fn reskey_to_resname(self, reskey: ResKeyView, local: bool) -> ZResult<
        Seq<char>,
    > {
        if local {
            self.localkey_to_resname(reskey)
        } else {
            self.remotekey_to_resname(reskey)
        }
    }

    /// Some publisher is declared on `reskey`.
    pub open spec fn publishes(self, reskey: ResKeyView) -> bool {
        exists|id: Id| #[trigger] self.publishers.contains_key(id) && self.publishers[id] == reskey
    }

    /// Some subscriber, with a stream or with a handler, is declared on
    /// `reskey`.
    pub open spec fn subscribes(self, reskey: ResKeyView) -> bool {
        ||| exists|id: Id| #[trigger]
            self.subscribers.contains_key(id) && self.subscribers[id].reskey == reskey
        ||| exists|id: Id| #[trigger]
            self.callback_subscribers.contains_key(id) && self.callback_subscribers[id].reskey
                == reskey
    }

    /// Some queryable is declared on `reskey`.
    pub open spec fn answers(self, reskey: ResKeyView) -> bool {
        exists|id: Id| #[trigger]
            self.queryables.contains_key(id) && self.queryables[id].reskey == reskey
    }

    /// The queryable `id` is among those that a query on `name` for the
    /// kinds `target_kind` goes to.
    pub open spec fn queried(self, id: Id, name: Seq<char>, target_kind: ZInt) -> bool {
        &&& self.queryables.contains_key(id)
        &&& self.localkey_to_resname(self.queryables[id].reskey) matches Ok(own)
        &&& names_intersect(own, name)
        &&& kinds_compatible(self.queryables[id].kind, target_kind)
    }
}


/// A session: who it is, whether it has been closed, its tables, and what
/// it has asked of its driver since the driver last took the list.
pub struct SessionView {
    pub pid: Seq<u8>,
    pub closed: bool,
    pub state: StateView,
    pub pending: Seq<ActionView>,
}

/// The sample that a piece of data becomes for those it is handed to.
pub open spec fn sample_of(
    name: Seq<char>,
    info: Option<DataInfoView>,
    payload: Seq<u8>,
) -> SampleView {
    SampleView { res_name: name, payload, data_info: info }
}

/// One run of a handler for each id, in order.
pub open spec fn calls(ids: Seq<Id>, sample: SampleView) -> Seq<ActionView> {
    ids.map_values(|id: Id| ActionView::Call { subscriber: id, sample })
}

/// One delivery to a stream for each id, in order.
pub open spec fn deliveries(ids: Seq<Id>, sample: SampleView) -> Seq<ActionView> {
    ids.map_values(|id: Id| ActionView::Deliver { subscriber: id, sample })
}

/// One query for each id, in order, each under the kind of its queryable.
pub open spec fn asks(
    ids: Seq<Id>,
    queryables: Map<Id, QueryableView>,
    name: Seq<char>,
    predicate: Seq<char>,
) -> Seq<ActionView> {
    ids.map_values(
        |id: Id|
            ActionView::Ask {
                queryable: id,
                query: QueryView { res_name: name, predicate, kind: queryables[id].kind },
            },
    )
}

/// `ids` lists, each once and in some order, the subscribers whose name
/// intersects `name`.
pub open spec fn selects(ids: Seq<Id>, subscribers: Map<Id, SubscriberView>, name: Seq<char>) -> bool {
    &&& ids.no_duplicates()
    &&& forall|id: Id|
        ids.contains(id) <==> (#[trigger] subscribers.contains_key(id) && names_intersect(
            subscribers[id].resname,
            name,
        ))
}

/// `ids` lists, each once and in some order, the queryables that a query on
/// `name` for the kinds `target_kind` goes to.
pub open spec fn selects_queryables(
    ids: Seq<Id>,
    state: StateView,
    name: Seq<char>,
    target_kind: ZInt,
) -> bool {
    &&& ids.no_duplicates()
    &&& forall|id: Id| ids.contains(id) <==> #[trigger] state.queried(id, name, target_kind)
}

impl SessionView {
    /// A new session of the peer `pid`.
    pub open spec fn initial(pid: Seq<u8>) -> SessionView {
        SessionView { pid, closed: false, state: StateView::initial(), pending: Seq::empty() }
    }

    /// The tables are well formed.
    pub open spec fn wf(self) -> bool {
        self.state.wf()
    }

    /// The same session with other tables.
    pub open spec fn with_state(self, state: StateView) -> SessionView {
        SessionView { state, ..self }
    }

    /// The same session with one more thing asked of the driver.
    pub open spec fn emit(self, action: ActionView) -> SessionView {
        SessionView { pending: self.pending.push(action), ..self }
    }

    /// The same session with more things asked of the driver.
    pub open spec fn emit_all(self, actions: Seq<ActionView>) -> SessionView {
        SessionView { pending: self.pending + actions, ..self }
    }

    /// The same session with one more primitive to send.
    pub open spec fn send(self, primitive: PrimitiveView) -> SessionView {
        self.emit(ActionView::Send(primitive))
    }

    /// The same session once the driver has taken the list of actions.
    pub open spec fn drained(self) -> SessionView {
        SessionView { pending: Seq::empty(), ..self }
    }

    /// Closing: every declaration and every query under way is dropped,
    /// the driver is asked to shut down and to send `close`. Closing a
    /// closed session changes nothing.
    pub open spec fn close(self) -> SessionView {
        if self.closed {
            self
        } else {
            SessionView {
                closed: true,
                state: StateView {
                    local_resources: Map::empty(),
                    remote_resources: Map::empty(),
                    publishers: Map::empty(),
                    subscribers: Map::empty(),
                    callback_subscribers: Map::empty(),
                    queryables: Map::empty(),
                    queries: Map::empty(),
                    ..self.state
                },
                ..self
            }.emit(ActionView::Shutdown).send(PrimitiveView::Close)
        }
    }

    /// Declaring a resource takes the next resource id, also where the key
    /// then turns out to name an unknown id. Otherwise the id is bound to
    /// the name that the key stands for, and `resource` is sent.
    pub open spec fn declare_resource(self, reskey: ResKeyView) -> (SessionView, ZResult<ResourceId>) {
        if self.closed {
            (self, Err(ZError::Closed))
        } else {
            let rid = self.state.rid_counter;
            let counted = StateView { rid_counter: (rid + 1) as ResourceId, ..self.state };
            match self.state.localkey_to_resname(reskey) {
                Err(e) => (self.with_state(counted), Err(e)),
                Ok(name) => (
                    self.with_state(
                        StateView {
                            local_resources: self.state.local_resources.insert(rid, name),
                            ..counted
                        },
                    ).send(PrimitiveView::Resource { rid, reskey }),
                    Ok(rid),
                ),
            }
        }
    }

    /// Undeclaring a resource unbinds the id and sends `forget_resource`.
    pub open spec fn undeclare_resource(self, rid: ResourceId) -> (SessionView, ZResult<()>) {
        if self.closed {
            (self, Err(ZError::Closed))
        } else {
            (
                self.with_state(
                    StateView {
                        local_resources: self.state.local_resources.remove(rid),
                        ..self.state
                    },
                ).send(PrimitiveView::ForgetResource { rid }),
                Ok(()),
            )
        }
    }

    /// Declaring a publisher takes the next declaration id. `publisher` is
    /// sent unless a publisher on the same key is declared already.
    pub open spec fn declare_publisher(self, reskey: ResKeyView) -> (SessionView, ZResult<Id>) {
        if self.closed {
            (self, Err(ZError::Closed))
        } else {
            let id = self.state.decl_id_counter;
            let declared = self.with_state(
                StateView {
                    decl_id_counter: (id + 1) as Id,
                    publishers: self.state.publishers.insert(id, reskey),
                    ..self.state
                },
            );
            if self.state.publishes(reskey) {
                (declared, Ok(id))
            } else {
                (declared.send(PrimitiveView::Publisher { reskey }), Ok(id))
            }
        }
    }

    /// Undeclaring a publisher removes it. `forget_publisher` is sent if
    /// no publisher on the same key is left.
    pub open spec fn undeclare_publisher(self, id: Id, reskey: ResKeyView) -> (
        SessionView,
        ZResult<()>,
    ) {
        if self.closed {
            (self, Err(ZError::Closed))
        } else {
            let removed = StateView { publishers: self.state.publishers.remove(id), ..self.state };
            if removed.publishes(reskey) {
                (self.with_state(removed), Ok(()))
            } else {
                (
                    self.with_state(removed).send(PrimitiveView::ForgetPublisher { reskey }),
                    Ok(()),
                )
            }
        }
    }

    /// Declaring a subscriber takes the next declaration id, also where the
    /// key then turns out to name an unknown id. Otherwise the subscriber is
    /// kept with the name that the key stands for, among those with a
    /// handler if `callback` is set and among those with a stream if not,
    /// and `subscriber` is sent unless a subscriber of either sort on the
    /// same key is declared already.
    pub open spec fn declare_subscriber(
        self,
        reskey: ResKeyView,
        sub_info: SubInfo,
        callback: bool,
    ) -> (SessionView, ZResult<(Id, Seq<char>)>) {
        if self.closed {
            (self, Err(ZError::Closed))
        } else {
            let id = self.state.decl_id_counter;
            let counted = StateView { decl_id_counter: (id + 1) as Id, ..self.state };
            match self.state.localkey_to_resname(reskey) {
                Err(e) => (self.with_state(counted), Err(e)),
                Ok(resname) => {
                    let entry = SubscriberView { reskey, resname };
                    let declared = self.with_state(
                        if callback {
                            StateView {
                                callback_subscribers: self.state.callback_subscribers.insert(
                                    id,
                                    entry,
                                ),
                                ..counted
                            }
                        } else {
                            StateView {
                                subscribers: self.state.subscribers.insert(id, entry),
                                ..counted
                            }
                        },
                    );
                    if self.state.subscribes(reskey) {
                        (declared, Ok((id, resname)))
                    } else {
                        (
                            declared.send(PrimitiveView::Subscriber { reskey, sub_info }),
                            Ok((id, resname)),
                        )
                    }
                },
            }
        }
    }

    /// Undeclaring a subscriber removes it. `forget_subscriber` is sent if
    /// no subscriber of either sort on the same key is left.
    pub open spec fn undeclare_subscriber(self, id: Id, reskey: ResKeyView, callback: bool) -> (
        SessionView,
        ZResult<()>,
    ) {
        if self.closed {
            (self, Err(ZError::Closed))
        } else {
            let removed = if callback {
                StateView {
                    callback_subscribers: self.state.callback_subscribers.remove(id),
                    ..self.state
                }
            } else {
                StateView { subscribers: self.state.subscribers.remove(id), ..self.state }
            };
            if removed.subscribes(reskey) {
                (self.with_state(removed), Ok(()))
            } else {
                (
                    self.with_state(removed).send(PrimitiveView::ForgetSubscriber { reskey }),
                    Ok(()),
                )
            }
        }
    }

    /// Declaring a queryable takes the next declaration id. `queryable` is
    /// sent unless a queryable on the same key is declared already.
    pub open spec fn declare_queryable(self, reskey: ResKeyView, kind: ZInt) -> (
        SessionView,
        ZResult<Id>,
    ) {
        if self.closed {
            (self, Err(ZError::Closed))
        } else {
            let id = self.state.decl_id_counter;
            let declared = self.with_state(
                StateView {
                    decl_id_counter: (id + 1) as Id,
                    queryables: self.state.queryables.insert(id, QueryableView { reskey, kind }),
                    ..self.state
                },
            );
            if self.state.answers(reskey) {
                (declared, Ok(id))
            } else {
                (declared.send(PrimitiveView::Queryable { reskey }), Ok(id))
            }
        }
    }

    /// Undeclaring a queryable removes it. `forget_queryable` is sent if
    /// no queryable on the same key is left.
    pub open spec fn undeclare_queryable(self, id: Id, reskey: ResKeyView) -> (
        SessionView,
        ZResult<()>,
    ) {
        if self.closed {
            (self, Err(ZError::Closed))
        } else {
            let removed = StateView { queryables: self.state.queryables.remove(id), ..self.state };
            if removed.answers(reskey) {
                (self.with_state(removed), Ok(()))
            } else {
                (
                    self.with_state(removed).send(PrimitiveView::ForgetQueryable { reskey }),
                    Ok(()),
                )
            }
        }
    }

    /// Asking for the data of a subscription in pull mode sends a final
    /// `pull` on its key.
    pub open spec fn pull(self, reskey: ResKeyView) -> (SessionView, ZResult<()>) {
        if self.closed {
            (self, Err(ZError::Closed))
        } else {
            (
                self.send(
                    PrimitiveView::Pull { is_final: true, reskey, pull_id: 0, max_samples: None },
                ),
                Ok(()),
            )
        }
    }

    /// Whether `next` is what handling a piece of data makes of this
    /// session. Data on a key that does not resolve is dropped; so is all
    /// data once the session is closed. Otherwise every subscriber whose
    /// name intersects the name of the data gets the sample once: first
    /// those with a handler, then those with a stream, each group in some
    /// order.
    pub open spec fn handles_data(
        self,
        next: SessionView,
        local: bool,
        reskey: ResKeyView,
        info: Option<DataInfoView>,
        payload: Seq<u8>,
    ) -> bool {
        if self.closed {
            next == self
        } else {
            match self.state.reskey_to_resname(reskey, local) {
                Err(_) => next == self,
                Ok(name) => exists|called: Seq<Id>, streamed: Seq<Id>|
                    {
                        &&& selects(called, self.state.callback_subscribers, name)
                        &&& selects(streamed, self.state.subscribers, name)
                        &&& #[trigger] self.fans_out(next, called, streamed, name, info, payload)
                    },
            }
        }
    }

    /// `next` is this session with the sample asked to be handed to the
    /// handlers of `called`, then to the streams of `streamed`.
    pub open spec fn fans_out(
        self,
        next: SessionView,
        called: Seq<Id>,
        streamed: Seq<Id>,
        name: Seq<char>,
        info: Option<DataInfoView>,
        payload: Seq<u8>,
    ) -> bool {
        next == self.emit_all(calls(called, sample_of(name, info, payload))).emit_all(
            deliveries(streamed, sample_of(name, info, payload)),
        )
    }

    /// Whether `next` is what handling a query makes of this session. A
    /// query on a key that does not resolve is dropped; so is every query
    /// once the session is closed. Otherwise a reply route is opened, and
    /// the query goes once to every queryable whose name intersects the
    /// name of the query and whose kind the query is for, in some order.
    pub open spec fn handles_query(
        self,
        next: SessionView,
        local: bool,
        reskey: ResKeyView,
        predicate: Seq<char>,
        qid: ZInt,
        target: QueryTarget,
    ) -> bool {
        if self.closed {
            next == self
        } else {
            match self.state.reskey_to_resname(reskey, local) {
                Err(_) => next == self,
                Ok(name) => exists|asked: Seq<Id>|
                    {
                        &&& selects_queryables(asked, self.state, name, target.kind)
                        &&& #[trigger] self.dispatches(next, asked, local, name, predicate, qid)
                    },
            }
        }
    }

    /// `next` is this session with a reply route asked for and the query
    /// asked to be handed to the queryables `asked`.
    pub open spec fn dispatches(
        self,
        next: SessionView,
        asked: Seq<Id>,
        local: bool,
        name: Seq<char>,
        predicate: Seq<char>,
        qid: ZInt,
    ) -> bool {
        next == self.emit(
            ActionView::Collect { qid, local, capacity: API_REPLY_EMISSION_CHANNEL_SIZE },
        ).emit_all(asks(asked, self.state.queryables, name, predicate))
    }

    /// Writing sends the data, then handles it as data of this session.
    pub open spec fn writes(
        self,
        next: SessionView,
        reskey: ResKeyView,
        payload: Seq<u8>,
    ) -> bool {
        self.send(
            PrimitiveView::Data { reskey, reliable: true, info: None, payload },
        ).handles_data(next, true, reskey, None, payload)
    }

    /// The information that goes with data written with an encoding and a
    /// kind.
    pub open spec fn written_info(encoding: ZInt, kind: ZInt) -> DataInfoView {
        DataInfoView {
            source_id: None,
            source_sn: None,
            first_broker_id: None,
            first_broker_sn: None,
            timestamp: None,
            kind: Some(kind),
            encoding: Some(encoding),
        }
    }

    /// Writing with an encoding and a kind sends the data with that
    /// information, then handles it as data of this session, as writing
    /// does.
    pub open spec fn writes_ext(
        self,
        next: SessionView,
        reskey: ResKeyView,
        payload: Seq<u8>,
        encoding: ZInt,
        kind: ZInt,
    ) -> bool {
        self.send(
            PrimitiveView::Data {
                reskey,
                reliable: true,
                info: Some(Self::written_info(encoding, kind)),
                payload,
            },
        ).handles_data(next, true, reskey, Some(Self::written_info(encoding, kind)), payload)
    }

    /// The routes on which a query of this session on `reskey` goes out:
    /// the network, and this session itself where the key resolves.
    pub open spec fn query_routes(self, reskey: ResKeyView) -> u8 {
        if self.state.localkey_to_resname(reskey) is Ok {
            2
        } else {
            1
        }
    }

    /// The session once a query has been entered: the next query id is
    /// taken, the query waits for each of its routes, a reply stream is
    /// opened and the query is sent.
    pub open spec fn enters_query(
        self,
        reskey: ResKeyView,
        predicate: Seq<char>,
        target: QueryTarget,
        consolidation: QueryConsolidation,
    ) -> SessionView {
        let qid = self.state.qid_counter;
        self.with_state(
            StateView {
                qid_counter: (qid + 1) as ZInt,
                queries: self.state.queries.insert(qid, self.query_routes(reskey)),
                ..self.state
            },
        ).emit(ActionView::Expect { qid, capacity: API_REPLY_RECEPTION_CHANNEL_SIZE }).send(
            PrimitiveView::Query { reskey, predicate, qid, target, consolidation },
        )
    }

    /// Whether `next` is what issuing a query makes of this open session:
    /// the query is entered, then handled as a query of this session.
    pub open spec fn queries(
        self,
        next: SessionView,
        reskey: ResKeyView,
        predicate: Seq<char>,
        target: QueryTarget,
        consolidation: QueryConsolidation,
    ) -> bool {
        self.enters_query(reskey, predicate, target, consolidation).handles_query(
            next,
            true,
            reskey,
            predicate,
            self.state.qid_counter,
            target,
        )
    }

    /// A resource that the remote side declares is bound to the name that
    /// its key stands for. A key that does not resolve is dropped.
    pub open spec fn resource(self, rid: ZInt, reskey: ResKeyView) -> SessionView {
        if self.closed {
            self
        } else {
            match self.state.remotekey_to_resname(reskey) {
                Err(_) => self,
                Ok(name) => self.with_state(
                    StateView {
                        remote_resources: self.state.remote_resources.insert(rid, name),
                        ..self.state
                    },
                ),
            }
        }
    }

    /// A reply to a query under way is handed to its stream, under the name
    /// that its key stands for. A reply to an unknown query is dropped, and
    /// so is one whose key does not resolve.
    pub open spec fn reply_data(
        self,
        qid: ZInt,
        source_kind: ZInt,
        replier_id: Seq<u8>,
        reskey: ResKeyView,
        info: Option<DataInfoView>,
        payload: Seq<u8>,
    ) -> SessionView {
        if self.closed || !self.state.queries.contains_key(qid) {
            self
        } else {
            match self.state.remotekey_to_resname(reskey) {
                Err(_) => self,
                Ok(name) => self.emit(
                    ActionView::Answer {
                        qid,
                        reply: ReplyView {
                            data: sample_of(name, info, payload),
                            source_kind,
                            replier_id,
                        },
                    },
                ),
            }
        }
    }

    /// A route that is done with a query under way is counted off; with the
    /// last one the query is dropped and its stream ended. For an unknown
    /// query nothing happens.
    pub open spec fn reply_final(self, qid: ZInt) -> SessionView {
        if self.closed || !self.state.queries.contains_key(qid) {
            self
        } else if self.state.queries[qid] <= 1 {
            self.with_state(
                StateView { queries: self.state.queries.remove(qid), ..self.state },
            ).emit(ActionView::EndOfReplies { qid })
        } else {
            self.with_state(
                StateView {
                    queries: self.state.queries.insert(
                        qid,
                        (self.state.queries[qid] - 1) as u8,
                    ),
                    ..self.state
                },
            )
        }
    }

    /// What a queryable sends back goes to where the query came from, under
    /// the id of this peer: to this session for a query of its own, and to
    /// the network otherwise.
    pub open spec fn forward_reply(
        self,
        local: bool,
        qid: ZInt,
        kind: ZInt,
        sample: SampleView,
    ) -> SessionView {
        if self.closed {
            self
        } else if local {
            self.reply_data(
                qid,
                kind,
                self.pid,
                ResKeyView::RName(sample.res_name),
                sample.data_info,
                sample.payload,
            )
        } else {
            self.send(
                PrimitiveView::ReplyData {
                    qid,
                    source_kind: kind,
                    replier_id: self.pid,
                    reskey: ResKeyView::RName(sample.res_name),
                    info: sample.data_info,
                    payload: sample.payload,
                },
            )
        }
    }

    /// Whether `next` is what a primitive that comes in from the network
    /// makes of this session. Declarations of the remote side other than
    /// those of resources, pulls and `close` leave it as it is.
    pub open spec fn handles(self, next: SessionView, message: PrimitiveView) -> bool {
        match message {
            PrimitiveView::Resource { rid, reskey } => next == self.resource(rid, reskey),
            PrimitiveView::Data { reskey, reliable, info, payload } => self.handles_data(
                next,
                false,
                reskey,
                info,
                payload,
            ),
            PrimitiveView::Query { reskey, predicate, qid, target, consolidation } => {
                self.handles_query(next, false, reskey, predicate, qid, target)
            },
            PrimitiveView::ReplyData { qid, source_kind, replier_id, reskey, info, payload } => {
                next == self.reply_data(qid, source_kind, replier_id, reskey, info, payload)
            },
            PrimitiveView::ReplyFinal { qid } => next == self.reply_final(qid),
            _ => next == self,
        }
    }

    /// Once no queryable holds the reply route of a query any more, the
    /// route is done: this is told to where the query came from.
    pub open spec fn finish_replies(self, local: bool, qid: ZInt) -> SessionView {
        if self.closed {
            self
        } else if local {
            self.reply_final(qid)
        } else {
            self.send(PrimitiveView::ReplyFinal { qid })
        }
    }
}


/// How to show `handles_data` for data on a key that resolves: name the
/// subscribers that were picked, in the order in which they were.
pub proof fn lemma_data_handled(
    pre: SessionView,
    next: SessionView,
    local: bool,
    reskey: ResKeyView,
    info: Option<DataInfoView>,
    payload: Seq<u8>,
    called: Seq<Id>,
    streamed: Seq<Id>,
    name: Seq<char>,
)
    requires
        !pre.closed,
        pre.state.reskey_to_resname(reskey, local) == Ok::<Seq<char>, ZError>(name),
        selects(called, pre.state.callback_subscribers, name),
        selects(streamed, pre.state.subscribers, name),
        pre.fans_out(next, called, streamed, name, info, payload),
    ensures
        pre.handles_data(next, local, reskey, info, payload),
{
    let r = pre.state.reskey_to_resname(reskey, local);
    assert(r is Ok && r->Ok_0 == name);
}

/// How to show `handles_query` for a query on a key that resolves: name
/// the queryables that were picked, in the order in which they were.
pub proof fn lemma_query_handled(
    pre: SessionView,
    next: SessionView,
    local: bool,
    reskey: ResKeyView,
    predicate: Seq<char>,
    qid: ZInt,
    target: QueryTarget,
    asked: Seq<Id>,
    name: Seq<char>,
)
    requires
        !pre.closed,
        pre.state.reskey_to_resname(reskey, local) == Ok::<Seq<char>, ZError>(name),
        selects_queryables(asked, pre.state, name, target.kind),
        pre.dispatches(next, asked, local, name, predicate, qid),
    ensures
        pre.handles_query(next, local, reskey, predicate, qid, target),
{
    let r = pre.state.reskey_to_resname(reskey, local);
    assert(r is Ok && r->Ok_0 == name);
}

} // verus!
