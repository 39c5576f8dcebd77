//! The session: the operations of the application on the tables, and the
//! handling of what comes in from the network. A session does nothing by
//! itself to the world around it: it keeps, in order, what it asks its
//! driver to do.

use crate::config::{Config, WhatAmI};
use crate::error::{ZError, ZResult};
use crate::model::{
    asks, calls, deliveries, lemma_data_handled, lemma_query_handled, sample_of, SessionView,
    StateView, API_REPLY_EMISSION_CHANNEL_SIZE, API_REPLY_RECEPTION_CHANNEL_SIZE,
};
use crate::proto::{action_views, Action, ActionView, Primitive};
use crate::runtime::Runtime;
use crate::tables::SessionState;
use crate::types::{
    copy_bytes, option_view, CallbackSubscriber, CallbackSubscriberState, DataInfo, Id, PeerId,
    Properties, Publisher, PublisherState, Query, QueryConsolidation, QueryTarget, Queryable,
    QueryableState, RepliesSender, Reply, ResKey, ResourceId, Sample, SubInfo, Subscriber,
    SubscriberState, ZInt,
};
use vstd::prelude::*;

verus! {

/// The key under which the information about a session holds the id of
/// its peer.
pub const ZN_INFO_PID_KEY: ZInt = 0x00;

/// The key under which the information about a session holds the id of a
/// peer that it has a link with.
pub const ZN_INFO_PEER_PID_KEY: ZInt = 0x01;

/// The key under which the information about a session holds the id of a
/// router.
pub const ZN_INFO_ROUTER_PID_KEY: ZInt = 0x02;

/// What a link tells of the peer at its other end: its role and its id,
/// as far as they can be told.
#[derive(Debug)]
pub struct LinkedPeer {
    pub whatami: Option<WhatAmI>,
    pub pid: Option<PeerId>,
}

/// What a `LinkedPeer` holds.
pub struct LinkedPeerView {
    pub whatami: Option<WhatAmI>,
    pub pid: Option<Seq<u8>>,
}

impl View for LinkedPeer {
    type V = LinkedPeerView;

    open spec fn view(&self) -> LinkedPeerView {
        LinkedPeerView { whatami: self.whatami, pid: option_view(self.pid) }
    }
}

/// The views of a list of linked peers.
pub open spec fn linked_views(links: Seq<LinkedPeer>) -> Seq<LinkedPeerView> {
    links.map_values(|l: LinkedPeer| l@)
}

/// The views of a list of properties.
pub open spec fn property_views(properties: Seq<(ZInt, Vec<u8>)>) -> Seq<(ZInt, Seq<u8>)> {
    properties.map_values(|p: (ZInt, Vec<u8>)| (p.0, p.1@))
}

/// The ids of the linked peers of the given role, in order, each under
/// `key`.
pub open spec fn pids_of(links: Seq<LinkedPeerView>, role: WhatAmI, key: ZInt) -> Seq<
    (ZInt, Seq<u8>),
>
    decreases links.len(),
{
    if links.len() == 0 {
        Seq::empty()
    } else {
        let before = pids_of(links.drop_last(), role, key);
        match (links.last().whatami, links.last().pid) {
            (Some(w), Some(pid)) => if w == role {
                before.push((key, pid))
            } else {
                before
            },
            _ => before,
        }
    }
}

/// The information about a session of the peer `pid` in the role
/// `whatami` with the given links.
pub open spec fn info_of(pid: Seq<u8>, whatami: WhatAmI, links: Seq<LinkedPeerView>) -> Seq<
    (ZInt, Seq<u8>),
> {
    seq![(ZN_INFO_PID_KEY, pid)] + pids_of(links, WhatAmI::Peer, ZN_INFO_PEER_PID_KEY) + (
    if whatami == WhatAmI::Broker {
        seq![(ZN_INFO_ROUTER_PID_KEY, pid)]
    } else {
        Seq::empty()
    }) + pids_of(links, WhatAmI::Broker, ZN_INFO_ROUTER_PID_KEY)
}

/// A session of one peer.
pub struct Session {
    runtime: Runtime,
    state: SessionState,
    closed: bool,
    pending: Vec<Action>,
}

impl View for Session {
    type V = SessionView;

    closed spec fn view(&self) -> SessionView {
        SessionView {
            pid: self.runtime@,
            closed: self.closed,
            state: self.state@,
            pending: action_views(self.pending@),
        }
    }
}

impl Session {
    /// The tables of the session are well formed.
    pub closed spec fn wf(&self) -> bool {
        self.state.wf()
    }

    /// What `wf` says of the tables.
    pub proof fn lemma_wf(&self)
        requires
            self.wf(),
        ensures
            self@.wf(),
    {
    }

    /// But for the tables and for whether the session is closed, the
    /// session is as it was.
    spec fn rest_as(&self, before: &Session) -> bool {
        self.runtime == before.runtime && self.pending == before.pending
    }

    /// Asks the driver for one more thing.
    fn emit(&mut self, action: Action)
        ensures
            final(self)@ == old(self)@.emit(action@),
            final(self).state == old(self).state,
    {
        let ghost before = action_views(self.pending@);
        self.pending.push(action);
        assert(self.closed == old(self).closed);
        assert(self.runtime == old(self).runtime);
        assert(self.state == old(self).state);
        assert(action_views(self.pending@) =~= before.push(action@));
    }

    /// A session on the given runtime: open, with empty tables and nothing
    /// asked of the driver.
    pub fn init(runtime: Runtime) -> (session: Session)
        ensures
            session.wf(),
            session@ == SessionView::initial(runtime@),
            session.spec_whatami() == runtime.spec_state().config.whatami,
    {
        let session = Session {
            runtime,
            state: SessionState::new(),
            closed: false,
            pending: Vec::new(),
        };
        assert(action_views(session.pending@) =~= Seq::empty());
        session
    }

    /// Opens a session on a runtime of its own, in the role that the
    /// configuration gives, with an id drawn at random.
    pub fn new(config: Config) -> (r: ZResult<Session>)
        ensures
            r matches Ok(session) && session.wf() && !session@.closed && session@.state
                == StateView::initial() && session@.pending == Seq::<ActionView>::empty()
                && session@.pid.len() == 16 && session@.pid[6] / 16 == 4 && session@.pid[8] / 64
                == 2 && session.spec_whatami() == config.whatami,
    {
        match Runtime::new(0, config, None) {
            Ok(runtime) => Ok(Session::init(runtime)),
            Err(e) => Err(e),
        }
    }

    /// Hands over what the session has asked of its driver since the last
    /// call, in order, and forgets it.
    pub fn take_actions(&mut self) -> (actions: Vec<Action>)
        ensures
            action_views(actions@) == old(self)@.pending,
            final(self)@ == old(self)@.drained(),
            final(self).wf() == old(self).wf(),
    {
        let mut actions: Vec<Action> = Vec::new();
        std::mem::swap(&mut actions, &mut self.pending);
        assert(self.closed == old(self).closed);
        assert(self.runtime == old(self).runtime);
        assert(self.state == old(self).state);
        assert(action_views(self.pending@) =~= Seq::empty());
        actions
    }

    /// Whether a resource id is left for one more resource.
    pub fn resource_ids_left(&self) -> (left: bool)
        ensures
            left == (self@.state.rid_counter < ResourceId::MAX),
    {
        self.state.next_rid() < ResourceId::MAX
    }

    /// Whether a declaration id is left for one more publisher, subscriber
    /// or queryable.
    pub fn declaration_ids_left(&self) -> (left: bool)
        ensures
            left == (self@.state.decl_id_counter < Id::MAX),
    {
        self.state.next_decl_id() < Id::MAX
    }

    /// Whether a query id is left for one more query.
    pub fn query_ids_left(&self) -> (left: bool)
        ensures
            left == (self@.state.qid_counter < ZInt::MAX),
    {
        self.state.next_qid() < ZInt::MAX
    }

    /// Whether the session has been closed.
    pub fn is_closed(&self) -> (closed: bool)
        ensures
            closed == self@.closed,
    {
        self.closed
    }

    /// Closes the session. Every declaration and every query under way is
    /// dropped; the driver is asked to shut down and to send `close`.
    /// Closing a closed session does nothing.
    pub fn close(&mut self) -> (r: ZResult<()>)
        requires
            old(self).wf(),
        ensures
            final(self).wf(),
            r is Ok,
            final(self)@ == old(self)@.close(),
    {
        if self.closed {
            return Ok(());
        }
        self.closed = true;
        self.state.clear();
        assert(self.rest_as(old(self)));
        self.emit(Action::Shutdown);
        self.emit(Action::Send(Primitive::Close));
        Ok(())
    }

    /// Binds the next resource id to the name that `resource` stands for
    /// and sends `resource`. The id is taken also where the key names an
    /// unknown id, which is the error then.
    pub fn declare_resource(&mut self, resource: &ResKey) -> (r: ZResult<ResourceId>)
        requires
            old(self).wf(),
            old(self)@.state.rid_counter < ResourceId::MAX,
        ensures
            final(self).wf(),
            (final(self)@, r) == old(self)@.declare_resource(resource@),
    {
        if self.closed {
            return Err(ZError::Closed);
        }
        let found = self.state.localkey_to_resname(resource);
        let rid = self.state.take_rid();
        assert(self.rest_as(old(self)));
        match found {
            Err(e) => Err(e),
            Ok(rname) => {
                self.state.bind_local(rid, rname);
                assert(self.rest_as(old(self)));
                self.emit(Action::Send(Primitive::Resource { rid, reskey: resource.clone() }));
                Ok(rid)
            },
        }
    }

    /// Unbinds a resource id and sends `forget_resource`.
    pub fn undeclare_resource(&mut self, rid: ResourceId) -> (r: ZResult<()>)
        requires
            old(self).wf(),
        ensures
            final(self).wf(),
            (final(self)@, r) == old(self)@.undeclare_resource(rid),
    {
        if self.closed {
            return Err(ZError::Closed);
        }
        self.state.unbind_local(rid);
        assert(self.rest_as(old(self)));
        self.emit(Action::Send(Primitive::ForgetResource { rid }));
        Ok(())
    }

    /// Declares a publisher on `resource`. `publisher` is sent unless a
    /// publisher on the same key is declared already.
    pub fn declare_publisher(&mut self, resource: &ResKey) -> (r: ZResult<Publisher>)
        requires
            old(self).wf(),
            old(self)@.state.decl_id_counter < Id::MAX,
        ensures
            final(self).wf(),
            final(self)@ == old(self)@.declare_publisher(resource@).0,
            match r {
                Ok(publisher) => old(self)@.declare_publisher(resource@).1 == Ok::<Id, ZError>(
                    publisher.state.id,
                ) && publisher.state.reskey@ == resource@,
                Err(e) => old(self)@.declare_publisher(resource@).1 == Err::<Id, ZError>(e),
            },
    {
        if self.closed {
            return Err(ZError::Closed);
        }
        let known = self.state.publishes(resource);
        let id = self.state.take_decl_id();
        self.state.add_publisher(PublisherState { id, reskey: resource.clone() });
        assert(self.rest_as(old(self)));
        if !known {
            self.emit(Action::Send(Primitive::Publisher { reskey: resource.clone() }));
        }
        Ok(Publisher { state: PublisherState { id, reskey: resource.clone() } })
    }

    /// Undeclares a publisher. `forget_publisher` is sent if no publisher
    /// on the same key is left.
    pub fn undeclare_publisher(&mut self, publisher: Publisher) -> (r: ZResult<()>)
        requires
            old(self).wf(),
        ensures
            final(self).wf(),
            (final(self)@, r) == old(self)@.undeclare_publisher(
                publisher.state.id,
                publisher.state.reskey@,
            ),
    {
        if self.closed {
            return Err(ZError::Closed);
        }
        self.state.remove_publisher(publisher.state.id);
        assert(self.rest_as(old(self)));
        if !self.state.publishes(&publisher.state.reskey) {
            self.emit(Action::Send(Primitive::ForgetPublisher { reskey: publisher.state.reskey }));
        }
        Ok(())
    }

    /// Declares a subscriber with a stream on `resource`. The declaration
    /// id is taken also where the key names an unknown id, which is the
    /// error then. `subscriber` is sent unless a subscriber on the same key
    /// is declared already.
    pub fn declare_subscriber(&mut self, resource: &ResKey, info: &SubInfo) -> (r: ZResult<
        Subscriber,
    >)
        requires
            old(self).wf(),
            old(self)@.state.decl_id_counter < Id::MAX,
        ensures
            final(self).wf(),
            final(self)@ == old(self)@.declare_subscriber(resource@, *info, false).0,
            match r {
                Ok(subscriber) => old(self)@.declare_subscriber(resource@, *info, false).1 == Ok::<
                    (Id, Seq<char>),
                    ZError,
                >((subscriber.state.id, subscriber.state.resname@)) && subscriber.state.reskey@
                    == resource@,
                Err(e) => old(self)@.declare_subscriber(resource@, *info, false).1 == Err::<
                    (Id, Seq<char>),
                    ZError,
                >(e),
            },
    {
        if self.closed {
            return Err(ZError::Closed);
        }
        let found = self.state.localkey_to_resname(resource);
        let known = self.state.subscribes(resource);
        let id = self.state.take_decl_id();
        assert(self.rest_as(old(self)));
        match found {
            Err(e) => Err(e),
            Ok(resname) => {
                self.state.add_subscriber(
                    SubscriberState { id, reskey: resource.clone(), resname: resname.clone() },
                );
                assert(self.rest_as(old(self)));
                if !known {
                    self.emit(
                        Action::Send(
                            Primitive::Subscriber { reskey: resource.clone(), sub_info: *info },
                        ),
                    );
                }
                Ok(Subscriber { state: SubscriberState { id, reskey: resource.clone(), resname } })
            },
        }
    }

    /// Declares a subscriber with a handler on `resource`. The handler
    /// itself stays with the driver, which runs it when asked to. The
    /// declaration id is taken also where the key names an unknown id,
    /// which is the error then. `subscriber` is sent unless a subscriber on
    /// the same key is declared already.
    pub fn declare_callback_subscriber(&mut self, resource: &ResKey, info: &SubInfo) -> (r: ZResult<
        CallbackSubscriber,
    >)
        requires
            old(self).wf(),
            old(self)@.state.decl_id_counter < Id::MAX,
        ensures
            final(self).wf(),
            final(self)@ == old(self)@.declare_subscriber(resource@, *info, true).0,
            match r {
                Ok(subscriber) => old(self)@.declare_subscriber(resource@, *info, true).1 == Ok::<
                    (Id, Seq<char>),
                    ZError,
                >((subscriber.state.id, subscriber.state.resname@)) && subscriber.state.reskey@
                    == resource@,
                Err(e) => old(self)@.declare_subscriber(resource@, *info, true).1 == Err::<
                    (Id, Seq<char>),
                    ZError,
                >(e),
            },
    {
        if self.closed {
            return Err(ZError::Closed);
        }
        let found = self.state.localkey_to_resname(resource);
        let known = self.state.subscribes(resource);
        let id = self.state.take_decl_id();
        assert(self.rest_as(old(self)));
        match found {
            Err(e) => Err(e),
            Ok(resname) => {
                self.state.add_callback_subscriber(
                    CallbackSubscriberState {
                        id,
                        reskey: resource.clone(),
                        resname: resname.clone(),
                    },
                );
                assert(self.rest_as(old(self)));
                if !known {
                    self.emit(
                        Action::Send(
                            Primitive::Subscriber { reskey: resource.clone(), sub_info: *info },
                        ),
                    );
                }
                Ok(
                    CallbackSubscriber {
                        state: CallbackSubscriberState { id, reskey: resource.clone(), resname },
                    },
                )
            },
        }
    }

    /// Undeclares a subscriber with a stream. `forget_subscriber` is sent
    /// if no subscriber on the same key is left, with a stream or with a
    /// handler.
    pub fn undeclare_subscriber(&mut self, subscriber: Subscriber) -> (r: ZResult<()>)
        requires
            old(self).wf(),
        ensures
            final(self).wf(),
            (final(self)@, r) == old(self)@.undeclare_subscriber(
                subscriber.state.id,
                subscriber.state.reskey@,
                false,
            ),
    {
        if self.closed {
            return Err(ZError::Closed);
        }
        self.state.remove_subscriber(subscriber.state.id);
        assert(self.rest_as(old(self)));
        if !self.state.subscribes(&subscriber.state.reskey) {
            self.emit(
                Action::Send(Primitive::ForgetSubscriber { reskey: subscriber.state.reskey }),
            );
        }
        Ok(())
    }

    /// Undeclares a subscriber with a handler. `forget_subscriber` is sent
    /// if no subscriber on the same key is left, with a stream or with a
    /// handler.
    pub fn undeclare_callback_subscriber(&mut self, subscriber: CallbackSubscriber) -> (r: ZResult<
        (),
    >)
        requires
            old(self).wf(),
        ensures
            final(self).wf(),
            (final(self)@, r) == old(self)@.undeclare_subscriber(
                subscriber.state.id,
                subscriber.state.reskey@,
                true,
            ),
    {
        if self.closed {
            return Err(ZError::Closed);
        }
        self.state.remove_callback_subscriber(subscriber.state.id);
        assert(self.rest_as(old(self)));
        if !self.state.subscribes(&subscriber.state.reskey) {
            self.emit(
                Action::Send(Primitive::ForgetSubscriber { reskey: subscriber.state.reskey }),
            );
        }
        Ok(())
    }

    /// Declares a queryable of the given kind on `resource`. `queryable`
    /// is sent unless a queryable on the same key is declared already.
    pub fn declare_queryable(&mut self, resource: &ResKey, kind: ZInt) -> (r: ZResult<Queryable>)
        requires
            old(self).wf(),
            old(self)@.state.decl_id_counter < Id::MAX,
        ensures
            final(self).wf(),
            final(self)@ == old(self)@.declare_queryable(resource@, kind).0,
            match r {
                Ok(queryable) => old(self)@.declare_queryable(resource@, kind).1 == Ok::<
                    Id,
                    ZError,
                >(queryable.state.id) && queryable.state.reskey@ == resource@
                    && queryable.state.kind == kind,
                Err(e) => old(self)@.declare_queryable(resource@, kind).1 == Err::<Id, ZError>(e),
            },
    {
        if self.closed {
            return Err(ZError::Closed);
        }
        let known = self.state.answers(resource);
        let id = self.state.take_decl_id();
        self.state.add_queryable(QueryableState { id, reskey: resource.clone(), kind });
        assert(self.rest_as(old(self)));
        if !known {
            self.emit(Action::Send(Primitive::Queryable { reskey: resource.clone() }));
        }
        Ok(Queryable { state: QueryableState { id, reskey: resource.clone(), kind } })
    }

    /// Undeclares a queryable. `forget_queryable` is sent if no queryable
    /// on the same key is left.
    pub fn undeclare_queryable(&mut self, queryable: Queryable) -> (r: ZResult<()>)
        requires
            old(self).wf(),
        ensures
            final(self).wf(),
            (final(self)@, r) == old(self)@.undeclare_queryable(
                queryable.state.id,
                queryable.state.reskey@,
            ),
    {
        if self.closed {
            return Err(ZError::Closed);
        }
        self.state.remove_queryable(queryable.state.id);
        assert(self.rest_as(old(self)));
        if !self.state.answers(&queryable.state.reskey) {
            self.emit(Action::Send(Primitive::ForgetQueryable { reskey: queryable.state.reskey }));
        }
        Ok(())
    }

    /// Asks for the data of a subscription in pull mode: sends a final
    /// `pull` on `reskey`.
    pub fn pull(&mut self, reskey: &ResKey) -> (r: ZResult<()>)
        requires
            old(self).wf(),
        ensures
            final(self).wf(),
            (final(self)@, r) == old(self)@.pull(reskey@),
    {
        if self.closed {
            return Err(ZError::Closed);
        }
        self.emit(
            Action::Send(
                Primitive::Pull {
                    is_final: true,
                    reskey: reskey.clone(),
                    pull_id: 0,
                    max_samples: None,
                },
            ),
        );
        Ok(())
    }

    /// Asks for the sample to be handed to each of `ids`: to their handlers
    /// if `call` is set, to their streams if not.
    fn hand_out(&mut self, ids: &Vec<Id>, call: bool, sample: &Sample)
        ensures
            final(self)@ == old(self)@.emit_all(
                if call {
                    calls(ids@, sample@)
                } else {
                    deliveries(ids@, sample@)
                },
            ),
            final(self).state == old(self).state,
    {
        let ghost start = self@;
        let mut i: usize = 0;
        assert(ids@.take(0) =~= Seq::<Id>::empty());
        assert(start.emit_all(calls(Seq::<Id>::empty(), sample@)).pending =~= start.pending);
        assert(start.emit_all(deliveries(Seq::<Id>::empty(), sample@)).pending =~= start.pending);
        while i < ids.len()
            invariant
                i <= ids.len(),
                self.state == old(self).state,
                self@ == start.emit_all(
                    if call {
                        calls(ids@.take(i as int), sample@)
                    } else {
                        deliveries(ids@.take(i as int), sample@)
                    },
                ),
            decreases ids.len() - i,
        {
            let ghost done = ids@.take(i as int);
            let ghost more = ids@.take(i + 1);
            assert(more =~= done.push(ids@[i as int]));
            let subscriber = ids[i];
            if call {
                self.emit(Action::Call { subscriber, sample: sample.clone() });
                assert(calls(more, sample@) =~= calls(done, sample@).push(
                    ActionView::Call { subscriber, sample: sample@ },
                ));
                assert(self@.pending =~= start.emit_all(calls(more, sample@)).pending);
            } else {
                self.emit(Action::Deliver { subscriber, sample: sample.clone() });
                assert(deliveries(more, sample@) =~= deliveries(done, sample@).push(
                    ActionView::Deliver { subscriber, sample: sample@ },
                ));
                assert(self@.pending =~= start.emit_all(deliveries(more, sample@)).pending);
            }
            i += 1;
        }
        assert(ids@.take(ids@.len() as int) =~= ids@);
    }

    /// Handles a piece of data, of this session if `local` is set and of
    /// the remote side if not. Data on a key that does not resolve is
    /// dropped, and so is all data once the session is closed. Otherwise
    /// every subscriber whose name intersects the name of the data is
    /// handed the sample once: those with a handler first, then those with
    /// a stream.
    pub fn handle_data(
        &mut self,
        local: bool,
        reskey: &ResKey,
        reliable: bool,
        info: Option<DataInfo>,
        payload: Vec<u8>,
    )
        requires
            old(self).wf(),
        ensures
            final(self).wf(),
            old(self)@.handles_data(final(self)@, local, reskey@, option_view(info), payload@),
    {
        if self.closed {
            return ;
        }
        match self.state.reskey_to_resname(reskey, local) {
            Err(_) => {},
            Ok(resname) => {
                let called = self.state.matching_callbacks(resname.as_str());
                let streamed = self.state.matching_streams(resname.as_str());
                let ghost name = resname@;
                let ghost info_view = option_view(info);
                let ghost bytes = payload@;
                let sample = Sample { res_name: resname, payload, data_info: info };
                assert(sample@ == sample_of(name, info_view, bytes));
                self.hand_out(&called, true, &sample);
                self.hand_out(&streamed, false, &sample);
                proof {
                    assert(old(self)@.fans_out(self@, called@, streamed@, name, info_view, bytes));
                    lemma_data_handled(
                        old(self)@,
                        self@,
                        local,
                        reskey@,
                        info_view,
                        bytes,
                        called@,
                        streamed@,
                        name,
                    );
                }
            },
        }
    }

    /// Handles a piece of data that the remote side sent.
    pub fn data(&mut self, reskey: &ResKey, reliable: bool, info: Option<DataInfo>, payload: Vec<u8>)
        requires
            old(self).wf(),
        ensures
            final(self).wf(),
            old(self)@.handles_data(final(self)@, false, reskey@, option_view(info), payload@),
    {
        self.handle_data(false, reskey, reliable, info, payload)
    }

    /// Writes data: sends it, then hands it to the subscribers of this
    /// session whose name intersects the name that `resource` stands for.
    pub fn write(&mut self, resource: &ResKey, payload: Vec<u8>) -> (r: ZResult<()>)
        requires
            old(self).wf(),
        ensures
            final(self).wf(),
            old(self)@.closed ==> r == Err::<(), ZError>(ZError::Closed) && final(self)@ == old(
                self,
            )@,
            !old(self)@.closed ==> r is Ok && old(self)@.writes(final(self)@, resource@, payload@),
    {
        if self.closed {
            return Err(ZError::Closed);
        }
        self.emit(
            Action::Send(
                Primitive::Data {
                    reskey: resource.clone(),
                    reliable: true,
                    info: None,
                    payload: copy_bytes(&payload),
                },
            ),
        );
        self.handle_data(true, resource, true, None, payload);
        Ok(())
    }

    /// Writes data with an encoding and a kind: sends it with that
    /// information, then hands it to the subscribers of this session whose
    /// name intersects the name that `resource` stands for.
    pub fn write_ext(&mut self, resource: &ResKey, payload: Vec<u8>, encoding: ZInt, kind: ZInt) -> (r:
        ZResult<()>)
        requires
            old(self).wf(),
        ensures
            final(self).wf(),
            old(self)@.closed ==> r == Err::<(), ZError>(ZError::Closed) && final(self)@ == old(
                self,
            )@,
            !old(self)@.closed ==> r is Ok && old(self)@.writes_ext(
                final(self)@,
                resource@,
                payload@,
                encoding,
                kind,
            ),
    {
        if self.closed {
            return Err(ZError::Closed);
        }
        let info = DataInfo {
            source_id: None,
            source_sn: None,
            first_broker_id: None,
            first_broker_sn: None,
            timestamp: None,
            kind: Some(kind),
            encoding: Some(encoding),
        };
        assert(info@ == SessionView::written_info(encoding, kind));
        self.emit(
            Action::Send(
                Primitive::Data {
                    reskey: resource.clone(),
                    reliable: true,
                    info: Some(info.clone()),
                    payload: copy_bytes(&payload),
                },
            ),
        );
        self.handle_data(true, resource, true, Some(info), payload);
        Ok(())
    }

    /// Asks for the query to be handed to each of `ids`, under the kind of
    /// each.
    fn ask_all(&mut self, ids: &Vec<Id>, name: &String, predicate: &str)
        requires
            forall|i: int|
                0 <= i < ids@.len() ==> old(self)@.state.queryables.contains_key(#[trigger] ids@[i]),
        ensures
            final(self)@ == old(self)@.emit_all(
                asks(ids@, old(self)@.state.queryables, name@, predicate@),
            ),
            final(self).state == old(self).state,
    {
        let ghost start = self@;
        let ghost table = start.state.queryables;
        let mut i: usize = 0;
        assert(ids@.take(0) =~= Seq::<Id>::empty());
        assert(start.emit_all(asks(Seq::<Id>::empty(), table, name@, predicate@)).pending
            =~= start.pending);
        while i < ids.len()
            invariant
                i <= ids.len(),
                self.state == old(self).state,
                start == old(self)@,
                table == start.state.queryables,
                forall|j: int| 0 <= j < ids@.len() ==> table.contains_key(#[trigger] ids@[j]),
                self@ == start.emit_all(asks(ids@.take(i as int), table, name@, predicate@)),
            decreases ids.len() - i,
        {
            let ghost done = ids@.take(i as int);
            let ghost more = ids@.take(i + 1);
            assert(more =~= done.push(ids@[i as int]));
            let queryable = ids[i];
            assert(table.contains_key(ids@[i as int]));
            match self.state.queryable_kind(queryable) {
                Some(kind) => {
                    let query = Query {
                        res_name: name.clone(),
                        predicate: predicate.to_owned(),
                        replies_sender: RepliesSender { kind },
                    };
                    let ghost view = ActionView::Ask { queryable, query: query@ };
                    self.emit(Action::Ask { queryable, query });
                    assert(asks(more, table, name@, predicate@) =~= asks(
                        done,
                        table,
                        name@,
                        predicate@,
                    ).push(view));
                    assert(self@.pending =~= start.emit_all(
                        asks(more, table, name@, predicate@),
                    ).pending);
                },
                None => {},
            }
            i += 1;
        }
        assert(ids@.take(ids@.len() as int) =~= ids@);
    }

    /// Handles a query, of this session if `local` is set and of the remote
    /// side if not. A query on a key that does not resolve is dropped, and
    /// so is every query once the session is closed. Otherwise the driver
    /// is asked to open a reply route, and then to hand the query to every
    /// queryable whose name intersects the name of the query and whose kind
    /// the query is for.
    pub fn handle_query(
        &mut self,
        local: bool,
        reskey: &ResKey,
        predicate: &str,
        qid: ZInt,
        target: QueryTarget,
        consolidation: QueryConsolidation,
    )
        requires
            old(self).wf(),
        ensures
            final(self).wf(),
            old(self)@.handles_query(final(self)@, local, reskey@, predicate@, qid, target),
    {
        if self.closed {
            return ;
        }
        match self.state.reskey_to_resname(reskey, local) {
            Err(_) => {},
            Ok(resname) => {
                let asked = self.state.matching_queryables(resname.as_str(), target.kind);
                self.emit(
                    Action::Collect { qid, local, capacity: API_REPLY_EMISSION_CHANNEL_SIZE },
                );
                proof {
                    assert forall|i: int| 0 <= i < asked@.len() implies self@.state.queryables.contains_key(
                        #[trigger] asked@[i],
                    ) by {
                        assert(asked@.contains(asked@[i]));
                        assert(old(self)@.state.queried(asked@[i], resname@, target.kind));
                    }
                }
                self.ask_all(&asked, &resname, predicate);
                proof {
                    assert(old(self)@.dispatches(
                        self@,
                        asked@,
                        local,
                        resname@,
                        predicate@,
                        qid,
                    ));
                    lemma_query_handled(
                        old(self)@,
                        self@,
                        local,
                        reskey@,
                        predicate@,
                        qid,
                        target,
                        asked@,
                        resname@,
                    );
                }
            },
        }
    }

    /// Issues a query. The query takes the next query id and waits for
    /// each of its routes: the network, and this session itself where
    /// `resource` resolves. The driver is asked to open the reply stream
    /// and to send the query; then the query is handled as a query of this
    /// session. The id of the query is returned.
    pub fn query(
        &mut self,
        resource: &ResKey,
        predicate: &str,
        target: QueryTarget,
        consolidation: QueryConsolidation,
    ) -> (r: ZResult<ZInt>)
        requires
            old(self).wf(),
            old(self)@.state.qid_counter < ZInt::MAX,
        ensures
            final(self).wf(),
            old(self)@.closed ==> r == Err::<ZInt, ZError>(ZError::Closed) && final(self)@ == old(
                self,
            )@,
            !old(self)@.closed ==> r == Ok::<ZInt, ZError>(old(self)@.state.qid_counter) && old(
                self,
            )@.queries(final(self)@, resource@, predicate@, target, consolidation),
    {
        if self.closed {
            return Err(ZError::Closed);
        }
        let routes: u8 = match self.state.localkey_to_resname(resource) {
            Ok(_) => 2,
            Err(_) => 1,
        };
        let qid = self.state.take_qid();
        self.state.set_query(qid, routes);
        assert(self.rest_as(old(self)));
        self.emit(Action::Expect { qid, capacity: API_REPLY_RECEPTION_CHANNEL_SIZE });
        self.emit(
            Action::Send(
                Primitive::Query {
                    reskey: resource.clone(),
                    predicate: predicate.to_owned(),
                    qid,
                    target,
                    consolidation,
                },
            ),
        );
        assert(self@ == old(self)@.enters_query(resource@, predicate@, target, consolidation));
        self.handle_query(true, resource, predicate, qid, target, consolidation);
        Ok(qid)
    }

    /// Takes in a resource that the remote side declares: binds the id to
    /// the name that the key stands for. A key that does not resolve is
    /// dropped.
    pub fn resource(&mut self, rid: ZInt, reskey: &ResKey)
        requires
            old(self).wf(),
        ensures
            final(self).wf(),
            final(self)@ == old(self)@.resource(rid, reskey@),
    {
        if self.closed {
            return ;
        }
        match self.state.remotekey_to_resname(reskey) {
            Ok(name) => {
                self.state.bind_remote(rid, name);
                assert(self.rest_as(old(self)));
            },
            Err(_) => {},
        }
    }

    /// Takes in a reply to a query. The reply is handed to the stream of
    /// the query, under the name that its key stands for. A reply to an
    /// unknown query is dropped, and so is one whose key does not resolve.
    pub fn reply_data(
        &mut self,
        qid: ZInt,
        source_kind: ZInt,
        replier_id: PeerId,
        reskey: ResKey,
        data_info: Option<DataInfo>,
        payload: Vec<u8>,
    )
        requires
            old(self).wf(),
        ensures
            final(self).wf(),
            final(self)@ == old(self)@.reply_data(
                qid,
                source_kind,
                replier_id@,
                reskey@,
                option_view(data_info),
                payload@,
            ),
    {
        if self.closed {
            return ;
        }
        if self.state.remaining_repliers(qid).is_none() {
            return ;
        }
        match self.state.remotekey_to_resname(&reskey) {
            Err(_) => {},
            Ok(res_name) => {
                let reply = Reply {
                    data: Sample { res_name, payload, data_info },
                    source_kind,
                    replier_id,
                };
                self.emit(Action::Answer { qid, reply });
            },
        }
    }

    /// Takes in the end of the replies of one route of a query. The route
    /// is counted off; with the last one the query is dropped and its
    /// stream ended. For an unknown query nothing happens.
    pub fn reply_final(&mut self, qid: ZInt)
        requires
            old(self).wf(),
        ensures
            final(self).wf(),
            final(self)@ == old(self)@.reply_final(qid),
    {
        if self.closed {
            return ;
        }
        match self.state.remaining_repliers(qid) {
            None => {},
            Some(remaining) => {
                if remaining <= 1 {
                    self.state.remove_query(qid);
                    assert(self.rest_as(old(self)));
                    self.emit(Action::EndOfReplies { qid });
                } else {
                    self.state.set_query(qid, remaining - 1);
                    assert(self.rest_as(old(self)));
                }
            },
        }
    }

    /// Passes on what a queryable sent back for the query `qid`: the item
    /// that it put on the reply route, under the id of this peer. For a
    /// query of this session (`local`) the reply is taken in at once; for a
    /// query of the remote side it is sent.
    pub fn forward_reply(&mut self, local: bool, qid: ZInt, item: (ZInt, Sample))
        requires
            old(self).wf(),
        ensures
            final(self).wf(),
            final(self)@ == old(self)@.forward_reply(local, qid, item.0, item.1@),
    {
        if self.closed {
            return ;
        }
        let (kind, sample) = item;
        let replier_id = self.runtime.read().pid.clone();
        let reskey = ResKey::RName(sample.res_name);
        if local {
            self.reply_data(qid, kind, replier_id, reskey, sample.data_info, sample.payload);
        } else {
            self.emit(
                Action::Send(
                    Primitive::ReplyData {
                        qid,
                        source_kind: kind,
                        replier_id,
                        reskey,
                        info: sample.data_info,
                        payload: sample.payload,
                    },
                ),
            );
        }
    }

    /// Tells where the query `qid` came from that this session has no more
    /// replies to it: to be called once no queryable holds the reply route
    /// any more. For a query of this session (`local`) the end is taken in
    /// at once; for a query of the remote side `reply_final` is sent.
    pub fn finish_replies(&mut self, local: bool, qid: ZInt)
        requires
            old(self).wf(),
        ensures
            final(self).wf(),
            final(self)@ == old(self)@.finish_replies(local, qid),
    {
        if self.closed {
            return ;
        }
        if local {
            self.reply_final(qid);
        } else {
            self.emit(Action::Send(Primitive::ReplyFinal { qid }));
        }
    }

    /// Takes in a primitive from the network.
    pub fn handle(&mut self, message: Primitive)
        requires
            old(self).wf(),
        ensures
            final(self).wf(),
            old(self)@.handles(final(self)@, message@),
    {
        match message {
            Primitive::Resource { rid, reskey } => self.resource(rid, &reskey),
            Primitive::Data { reskey, reliable, info, payload } => self.data(
                &reskey,
                reliable,
                info,
                payload,
            ),
            Primitive::Query { reskey, predicate, qid, target, consolidation } => {
                self.handle_query(false, &reskey, predicate.as_str(), qid, target, consolidation)
            },
            Primitive::ReplyData { qid, source_kind, replier_id, reskey, info, payload } => {
                self.reply_data(qid, source_kind, replier_id, reskey, info, payload)
            },
            Primitive::ReplyFinal { qid } => self.reply_final(qid),
            _ => {},
        }
    }

    /// What is known about the session: the id of its peer, then the ids
    /// of the peers that it has links with, then, if its own role is that
    /// of a broker, its own id again as that of a router, then the ids of
    /// the brokers that it has links with. A link of which the role or the
    /// id cannot be told is passed over.
    pub fn info(&self, links: &Vec<LinkedPeer>) -> (info: Properties)
        ensures
            property_views(info@) == info_of(
                self@.pid,
                self.spec_whatami(),
                linked_views(links@),
            ),
    {
        let ghost all = linked_views(links@);
        let runtime = self.runtime.read();
        let mut info: Properties = Vec::new();
        info.push((ZN_INFO_PID_KEY, runtime.pid.to_vec()));
        assert(property_views(info@) =~= seq![(ZN_INFO_PID_KEY, self@.pid)]);
        let ghost head = property_views(info@);
        let mut i: usize = 0;
        assert(all.take(0) =~= Seq::<LinkedPeerView>::empty());
        assert(head + pids_of(all.take(0), WhatAmI::Peer, ZN_INFO_PEER_PID_KEY) =~= head);
        while i < links.len()
            invariant
                i <= links.len(),
                all == linked_views(links@),
                property_views(info@) == head + pids_of(
                    all.take(i as int),
                    WhatAmI::Peer,
                    ZN_INFO_PEER_PID_KEY,
                ),
            decreases links.len() - i,
        {
            let ghost before = property_views(info@);
            let ghost upto = all.take(i + 1);
            assert(upto.drop_last() =~= all.take(i as int));
            assert(upto.last() == links@[i as int]@);
            match (&links[i].whatami, &links[i].pid) {
                (Some(WhatAmI::Peer), Some(pid)) => {
                    info.push((ZN_INFO_PEER_PID_KEY, pid.to_vec()));
                    assert(property_views(info@) =~= before.push((ZN_INFO_PEER_PID_KEY, pid@)));
                },
                _ => {},
            }
            assert(property_views(info@) =~= head + pids_of(
                upto,
                WhatAmI::Peer,
                ZN_INFO_PEER_PID_KEY,
            ));
            i += 1;
        }
        assert(all.take(links@.len() as int) =~= all);
        if runtime.config.whatami.bits() & WhatAmI::Broker.bits() != 0 {
            let ghost before = property_views(info@);
            info.push((ZN_INFO_ROUTER_PID_KEY, runtime.pid.to_vec()));
            assert(property_views(info@) =~= before.push((ZN_INFO_ROUTER_PID_KEY, self@.pid)));
        }
        assert(self.spec_whatami() == WhatAmI::Broker <==> runtime.config.whatami.bits()
            & WhatAmI::Broker.bits() != 0) by {
            let b = runtime.config.whatami.bits();
            assert(b == 1 || b == 2 || b == 4 || b == 8);
            assert(1u64 & 1u64 != 0 && 2u64 & 1u64 == 0 && 4u64 & 1u64 == 0 && 8u64 & 1u64 == 0)
                by (bit_vector);
        }
        let ghost middle = property_views(info@);
        let mut i: usize = 0;
        assert(middle + pids_of(all.take(0), WhatAmI::Broker, ZN_INFO_ROUTER_PID_KEY) =~= middle);
        while i < links.len()
            invariant
                i <= links.len(),
                all == linked_views(links@),
                property_views(info@) == middle + pids_of(
                    all.take(i as int),
                    WhatAmI::Broker,
                    ZN_INFO_ROUTER_PID_KEY,
                ),
            decreases links.len() - i,
        {
            let ghost before = property_views(info@);
            let ghost upto = all.take(i + 1);
            assert(upto.drop_last() =~= all.take(i as int));
            assert(upto.last() == links@[i as int]@);
            match (&links[i].whatami, &links[i].pid) {
                (Some(WhatAmI::Broker), Some(pid)) => {
                    info.push((ZN_INFO_ROUTER_PID_KEY, pid.to_vec()));
                    assert(property_views(info@) =~= before.push((ZN_INFO_ROUTER_PID_KEY, pid@)));
                },
                _ => {},
            }
            assert(property_views(info@) =~= middle + pids_of(
                upto,
                WhatAmI::Broker,
                ZN_INFO_ROUTER_PID_KEY,
            ));
            i += 1;
        }
        assert(all.take(links@.len() as int) =~= all);
        info
    }

    /// The role of the peer of the session.
    pub closed spec fn spec_whatami(&self) -> WhatAmI {
        self.runtime.spec_state().config.whatami
    }
}

impl Subscriber {
    /// Asks for the data of this subscription, for a subscriber in pull
    /// mode.
    pub fn pull(&self, session: &mut Session) -> (r: ZResult<()>)
        requires
            old(session).wf(),
        ensures
            final(session).wf(),
            (final(session)@, r) == old(session)@.pull(self.state.reskey@),
    {
        session.pull(&self.state.reskey)
    }
}

impl CallbackSubscriber {
    /// Asks for the data of this subscription, for a subscriber in pull
    /// mode.
    pub fn pull(&self, session: &mut Session) -> (r: ZResult<()>)
        requires
            old(session).wf(),
        ensures
            final(session).wf(),
            (final(session)@, r) == old(session)@.pull(self.state.reskey@),
    {
        session.pull(&self.state.reskey)
    }
}

} // verus!
