//! The messages between a session and the routing side, and what a session
//! asks its driver to do.

use crate::types::{
    option_view, DataInfo, DataInfoView, Id, PeerId, Query, QueryConsolidation, QueryTarget,
    QueryView, Reply, ReplyView, ResKey, ResKeyView, Sample, SampleView, SubInfo, ZInt,
};
use vstd::prelude::*;

verus! {

/// One call of the protocol-facing interface. The session emits these
/// towards the network and takes them in from it.
#[derive(Debug)]
pub enum Primitive {
    Resource { rid: ZInt, reskey: ResKey },
    ForgetResource { rid: ZInt },
    Publisher { reskey: ResKey },
    ForgetPublisher { reskey: ResKey },
    Subscriber { reskey: ResKey, sub_info: SubInfo },
    ForgetSubscriber { reskey: ResKey },
    Queryable { reskey: ResKey },
    ForgetQueryable { reskey: ResKey },
    Data { reskey: ResKey, reliable: bool, info: Option<DataInfo>, payload: Vec<u8> },
    Query {
        reskey: ResKey,
        predicate: String,
        qid: ZInt,
        target: QueryTarget,
        consolidation: QueryConsolidation,
    },
    ReplyData {
        qid: ZInt,
        source_kind: ZInt,
        replier_id: PeerId,
        reskey: ResKey,
        info: Option<DataInfo>,
        payload: Vec<u8>,
    },
    ReplyFinal { qid: ZInt },
    Pull { is_final: bool, reskey: ResKey, pull_id: ZInt, max_samples: Option<ZInt> },
    Close,
}

/// What a primitive holds.
pub enum PrimitiveView {
    Resource { rid: ZInt, reskey: ResKeyView },
    ForgetResource { rid: ZInt },
    Publisher { reskey: ResKeyView },
    ForgetPublisher { reskey: ResKeyView },
    Subscriber { reskey: ResKeyView, sub_info: SubInfo },
    ForgetSubscriber { reskey: ResKeyView },
    Queryable { reskey: ResKeyView },
    ForgetQueryable { reskey: ResKeyView },
    Data { reskey: ResKeyView, reliable: bool, info: Option<DataInfoView>, payload: Seq<u8> },
    Query {
        reskey: ResKeyView,
        predicate: Seq<char>,
        qid: ZInt,
        target: QueryTarget,
        consolidation: QueryConsolidation,
    },
    ReplyData {
        qid: ZInt,
        source_kind: ZInt,
        replier_id: Seq<u8>,
        reskey: ResKeyView,
        info: Option<DataInfoView>,
        payload: Seq<u8>,
    },
    ReplyFinal { qid: ZInt },
    Pull { is_final: bool, reskey: ResKeyView, pull_id: ZInt, max_samples: Option<ZInt> },
    Close,
}

impl View for Primitive {
    type V = PrimitiveView;

    open spec fn view(&self) -> PrimitiveView {
        match self {
            Primitive::Resource { rid, reskey } => PrimitiveView::Resource {
                rid: *rid,
                reskey: reskey@,
            },
            Primitive::ForgetResource { rid } => PrimitiveView::ForgetResource { rid: *rid },
            Primitive::Publisher { reskey } => PrimitiveView::Publisher { reskey: reskey@ },
            Primitive::ForgetPublisher { reskey } => PrimitiveView::ForgetPublisher {
                reskey: reskey@,
            },
            Primitive::Subscriber { reskey, sub_info } => PrimitiveView::Subscriber {
                reskey: reskey@,
                sub_info: *sub_info,
            },
            Primitive::ForgetSubscriber { reskey } => PrimitiveView::ForgetSubscriber {
                reskey: reskey@,
            },
            Primitive::Queryable { reskey } => PrimitiveView::Queryable { reskey: reskey@ },
            Primitive::ForgetQueryable { reskey } => PrimitiveView::ForgetQueryable {
                reskey: reskey@,
            },
            Primitive::Data { reskey, reliable, info, payload } => PrimitiveView::Data {
                reskey: reskey@,
                reliable: *reliable,
                info: option_view(*info),
                payload: payload@,
            },
            Primitive::Query { reskey, predicate, qid, target, consolidation } => {
                PrimitiveView::Query {
                    reskey: reskey@,
                    predicate: predicate@,
                    qid: *qid,
                    target: *target,
                    consolidation: *consolidation,
                }
            },
            Primitive::ReplyData { qid, source_kind, replier_id, reskey, info, payload } => {
                PrimitiveView::ReplyData {
                    qid: *qid,
                    source_kind: *source_kind,
                    replier_id: replier_id@,
                    reskey: reskey@,
                    info: option_view(*info),
                    payload: payload@,
                }
            },
            Primitive::ReplyFinal { qid } => PrimitiveView::ReplyFinal { qid: *qid },
            Primitive::Pull { is_final, reskey, pull_id, max_samples } => PrimitiveView::Pull {
                is_final: *is_final,
                reskey: reskey@,
                pull_id: *pull_id,
                max_samples: *max_samples,
            },
            Primitive::Close => PrimitiveView::Close,
        }
    }
}

/// What a session asks of its driver, in the order in which it is to be
/// done.
#[derive(Debug)]
pub enum Action {
    /// Emit a primitive towards the network.
    Send(Primitive),
    /// Hand a sample to a stream subscriber.
    Deliver { subscriber: Id, sample: Sample },
    /// Run the handler of a callback subscriber on a sample.
    Call { subscriber: Id, sample: Sample },
    /// Open a reply route of the given capacity for an incoming query, before
    /// its queryables are asked. `local` says whether the query came from
    /// this session.
    Collect { qid: ZInt, local: bool, capacity: usize },
    /// Hand a query to a queryable.
    Ask { queryable: Id, query: Query },
    /// Open the reply stream of a query that this session issues.
    Expect { qid: ZInt, capacity: usize },
    /// Hand a reply to the stream of a query that this session issued.
    Answer { qid: ZInt, reply: Reply },
    /// End the reply stream of a query that this session issued.
    EndOfReplies { qid: ZInt },
    /// Stop the links, end every stream.
    Shutdown,
}

/// What an action holds.
pub enum ActionView {
    Send(PrimitiveView),
    Deliver { subscriber: Id, sample: SampleView },
    Call { subscriber: Id, sample: SampleView },
    Collect { qid: ZInt, local: bool, capacity: usize },
    Ask { queryable: Id, query: QueryView },
    Expect { qid: ZInt, capacity: usize },
    Answer { qid: ZInt, reply: ReplyView },
    EndOfReplies { qid: ZInt },
    Shutdown,
}

impl View for Action {
    type V = ActionView;

    open spec fn view(&self) -> ActionView {
        match self {
            Action::Send(primitive) => ActionView::Send(primitive@),
            Action::Deliver { subscriber, sample } => ActionView::Deliver {
                subscriber: *subscriber,
                sample: sample@,
            },
            Action::Call { subscriber, sample } => ActionView::Call {
                subscriber: *subscriber,
                sample: sample@,
            },
            Action::Collect { qid, local, capacity } => ActionView::Collect {
                qid: *qid,
                local: *local,
                capacity: *capacity,
            },
            Action::Ask { queryable, query } => ActionView::Ask {
                queryable: *queryable,
                query: query@,
            },
            Action::Expect { qid, capacity } => ActionView::Expect {
                qid: *qid,
                capacity: *capacity,
            },
            Action::Answer { qid, reply } => ActionView::Answer { qid: *qid, reply: reply@ },
            Action::EndOfReplies { qid } => ActionView::EndOfReplies { qid: *qid },
            Action::Shutdown => ActionView::Shutdown,
        }
    }
}

/// The views of a list of actions.
pub open spec fn action_views(actions: Seq<Action>) -> Seq<ActionView> {
    actions.map_values(|a: Action| a@)
}

} // verus!
