//! The values that a session exchanges with the application and the network.

use vstd::prelude::*;

verus! {

/// A protocol integer.
pub type ZInt = u64;

/// A numerical id bound to a resource name. Ids declared by the application
/// and ids declared by the remote side are unrelated.
pub type ResourceId = ZInt;

/// The local id of a declaration.
pub type Id = usize;

/// The id that names no resource.
pub const NO_RESOURCE: ResourceId = 0;

/// How many bytes a peer id holds at most.
pub const PEER_ID_MAX_SIZE: usize = 16;

/// A list of key/value pairs.
pub type Properties = Vec<(ZInt, Vec<u8>)>;

/// A copy of the bytes.
pub fn copy_bytes(a: &Vec<u8>) -> (r: Vec<u8>)
    ensures
        r@ == a@,
{
    let mut out: Vec<u8> = Vec::new();
    let mut i: usize = 0;
    while i < a.len()
        invariant
            i <= a.len(),
            out@ == a@.take(i as int),
        decreases a.len() - i,
    {
        out.push(a[i]);
        assert(out@ =~= a@.take(i + 1));
        i += 1;
    }
    assert(out@ =~= a@);
    out
}

/// A resource key: a name, a declared id, or a declared id and a suffix.
#[derive(Debug)]
pub enum ResKey {
    RName(String),
    RId(ResourceId),
    RIdWithSuffix(ResourceId, String),
}

/// What a resource key holds.
pub enum ResKeyView {
    RName(Seq<char>),
    RId(ResourceId),
    RIdWithSuffix(ResourceId, Seq<char>),
}

impl View for ResKey {
    type V = ResKeyView;

    open spec fn view(&self) -> ResKeyView {
        match self {
            ResKey::RName(name) => ResKeyView::RName(name@),
            ResKey::RId(rid) => ResKeyView::RId(*rid),
            ResKey::RIdWithSuffix(rid, suffix) => ResKeyView::RIdWithSuffix(*rid, suffix@),
        }
    }
}

impl Clone for ResKey {
    fn clone(&self) -> (r: Self)
        ensures
            r@ == self@,
    {
        match self {
            ResKey::RName(name) => ResKey::RName(name.clone()),
            ResKey::RId(rid) => ResKey::RId(*rid),
            ResKey::RIdWithSuffix(rid, suffix) => ResKey::RIdWithSuffix(*rid, suffix.clone()),
        }
    }
}

impl ResKey {
    /// Whether two keys are the same key: the same form with the same id
    /// and the same text. Keys of different forms differ even where they
    /// resolve to one name.
    pub fn same(&self, other: &ResKey) -> (r: bool)
        ensures
            r == (self@ == other@),
    {
        match (self, other) {
            (ResKey::RName(a), ResKey::RName(b)) => {
                let r = *a == *b;
                r
            },
            (ResKey::RId(a), ResKey::RId(b)) => *a == *b,
            (ResKey::RIdWithSuffix(a, s), ResKey::RIdWithSuffix(b, t)) => {
                let r = *a == *b && *s == *t;
                r
            },
            _ => false,
        }
    }
}

/// The global id of a peer: between one and sixteen bytes.
#[derive(Debug)]
pub struct PeerId {
    id: Vec<u8>,
}

impl View for PeerId {
    type V = Seq<u8>;

    closed spec fn view(&self) -> Seq<u8> {
        self.id@
    }
}

impl PeerId {
    #[verifier::type_invariant]
    spec fn sized(self) -> bool {
        1 <= self.id@.len() <= PEER_ID_MAX_SIZE
    }

    /// A peer id of the given bytes. `None` unless there are between one
    /// and sixteen of them.
    pub fn new(id: Vec<u8>) -> (r: Option<PeerId>)
        ensures
            r is Some <==> 1 <= id@.len() <= PEER_ID_MAX_SIZE,
            r matches Some(pid) ==> pid@ == id@,
    {
        if 1 <= id.len() && id.len() <= PEER_ID_MAX_SIZE {
            Some(PeerId { id })
        } else {
            None
        }
    }

    /// The number of bytes, between one and sixteen.
    pub fn size(&self) -> (n: usize)
        ensures
            n == self@.len(),
            1 <= n <= PEER_ID_MAX_SIZE,
    {
        proof {
            use_type_invariant(self);
        }
        self.id.len()
    }

    /// The bytes.
    pub fn as_slice(&self) -> (bytes: &[u8])
        ensures
            bytes@ == self@,
    {
        self.id.as_slice()
    }

    /// A copy of the bytes.
    pub fn to_vec(&self) -> (bytes: Vec<u8>)
        ensures
            bytes@ == self@,
    {
        copy_bytes(&self.id)
    }
}

impl Clone for PeerId {
    fn clone(&self) -> (r: Self)
        ensures
            r@ == self@,
    {
        proof {
            use_type_invariant(self);
        }
        PeerId { id: copy_bytes(&self.id) }
    }
}


/// The view of an optional value that has a view.
pub open spec fn option_view<T: View>(o: Option<T>) -> Option<T::V> {
    match o {
        Some(x) => Some(x@),
        None => None,
    }
}

/// A point in time as a clock stamped it: the time and the id of the clock.
#[derive(Debug)]
pub struct Timestamp {
    pub time: u64,
    pub id: Vec<u8>,
}

/// What a timestamp holds.
pub struct TimestampView {
    pub time: u64,
    pub id: Seq<u8>,
}

impl View for Timestamp {
    type V = TimestampView;

    open spec fn view(&self) -> TimestampView {
        TimestampView { time: self.time, id: self.id@ }
    }
}

impl Clone for Timestamp {
    fn clone(&self) -> (r: Self)
        ensures
            r@ == self@,
    {
        Timestamp { time: self.time, id: copy_bytes(&self.id) }
    }
}

/// What is known about a piece of data beside its payload.
#[derive(Debug)]
pub struct DataInfo {
    pub source_id: Option<PeerId>,
    pub source_sn: Option<ZInt>,
    pub first_broker_id: Option<PeerId>,
    pub first_broker_sn: Option<ZInt>,
    pub timestamp: Option<Timestamp>,
    pub kind: Option<ZInt>,
    pub encoding: Option<ZInt>,
}

/// What a `DataInfo` holds.
pub struct DataInfoView {
    pub source_id: Option<Seq<u8>>,
    pub source_sn: Option<ZInt>,
    pub first_broker_id: Option<Seq<u8>>,
    pub first_broker_sn: Option<ZInt>,
    pub timestamp: Option<TimestampView>,
    pub kind: Option<ZInt>,
    pub encoding: Option<ZInt>,
}

impl View for DataInfo {
    type V = DataInfoView;

    open spec fn view(&self) -> DataInfoView {
        DataInfoView {
            source_id: option_view(self.source_id),
            source_sn: self.source_sn,
            first_broker_id: option_view(self.first_broker_id),
            first_broker_sn: self.first_broker_sn,
            timestamp: option_view(self.timestamp),
            kind: self.kind,
            encoding: self.encoding,
        }
    }
}

fn clone_peer(o: &Option<PeerId>) -> (r: Option<PeerId>)
    ensures
        option_view(r) == option_view(*o),
{
    match o {
        Some(pid) => Some(pid.clone()),
        None => None,
    }
}

impl Clone for DataInfo {
    fn clone(&self) -> (r: Self)
        ensures
            r@ == self@,
    {
        DataInfo {
            source_id: clone_peer(&self.source_id),
            source_sn: self.source_sn,
            first_broker_id: clone_peer(&self.first_broker_id),
            first_broker_sn: self.first_broker_sn,
            timestamp: match &self.timestamp {
                Some(t) => Some(t.clone()),
                None => None,
            },
            kind: self.kind,
            encoding: self.encoding,
        }
    }
}

/// A copy of optional data information.
pub fn clone_info(info: &Option<DataInfo>) -> (r: Option<DataInfo>)
    ensures
        option_view(r) == option_view(*info),
{
    match info {
        Some(i) => Some(i.clone()),
        None => None,
    }
}

/// A value: the name it was written under, the bytes, and what is known
/// about them.
#[derive(Debug)]
pub struct Sample {
    pub res_name: String,
    pub payload: Vec<u8>,
    pub data_info: Option<DataInfo>,
}

/// What a sample holds.
pub struct SampleView {
    pub res_name: Seq<char>,
    pub payload: Seq<u8>,
    pub data_info: Option<DataInfoView>,
}

impl View for Sample {
    type V = SampleView;

    open spec fn view(&self) -> SampleView {
        SampleView {
            res_name: self.res_name@,
            payload: self.payload@,
            data_info: option_view(self.data_info),
        }
    }
}

impl Clone for Sample {
    fn clone(&self) -> (r: Self)
        ensures
            r@ == self@,
    {
        Sample {
            res_name: self.res_name.clone(),
            payload: copy_bytes(&self.payload),
            data_info: clone_info(&self.data_info),
        }
    }
}

/// One answer to a query: the sample, the kind of the queryable that gave
/// it, and the peer that queryable lives on.
#[derive(Debug)]
pub struct Reply {
    pub data: Sample,
    pub source_kind: ZInt,
    pub replier_id: PeerId,
}

/// What a reply holds.
pub struct ReplyView {
    pub data: SampleView,
    pub source_kind: ZInt,
    pub replier_id: Seq<u8>,
}

impl View for Reply {
    type V = ReplyView;

    open spec fn view(&self) -> ReplyView {
        ReplyView { data: self.data@, source_kind: self.source_kind, replier_id: self.replier_id@ }
    }
}

/// The kind of reliability.
#[derive(Debug, Clone, Copy, PartialEq, Eq)]
pub enum Reliability {
    BestEffort,
    Reliable,
}

/// The subscription mode.
#[derive(Debug, Clone, Copy, PartialEq, Eq)]
pub enum SubMode {
    Push,
    Pull,
}

/// A time period.
#[derive(Debug, Clone, Copy, PartialEq, Eq)]
pub struct Period {
    pub origin: ZInt,
    pub period: ZInt,
    pub duration: ZInt,
}

/// How a subscription is to be served.
#[derive(Debug, Clone, Copy, PartialEq, Eq)]
pub struct SubInfo {
    pub reliability: Reliability,
    pub mode: SubMode,
    pub period: Option<Period>,
}

/// Which of the matching queryables a query is for.
#[derive(Debug, Clone, Copy, PartialEq, Eq)]
pub enum Target {
    BestMatching,
    Complete { n: ZInt },
    All,
    NoTarget,
}

/// The queryables that a query is for: a mask of kinds and a choice among
/// those that match.
#[derive(Debug, Clone, Copy, PartialEq, Eq)]
pub struct QueryTarget {
    pub kind: ZInt,
    pub target: Target,
}

/// The consolidation to apply to the replies of a query.
#[derive(Debug, Clone, Copy, PartialEq, Eq)]
pub enum QueryConsolidation {
    NoConsolidation,
    LastHop,
    Incremental,
}

/// The kind mask that stands for every kind of queryable.
pub const ALL_KINDS: ZInt = 0x01;

/// The kind of a queryable that stores values.
pub const STORAGE: ZInt = 0x02;

/// The kind of a queryable that computes values.
pub const EVAL: ZInt = 0x04;

/// Whether a queryable of kind `queryable_kind` is among those that a query
/// with the mask `target_kind` is for.
pub open spec fn kinds_compatible(queryable_kind: ZInt, target_kind: ZInt) -> bool {
    queryable_kind == ALL_KINDS || target_kind == ALL_KINDS || (queryable_kind & target_kind) != 0
}

/// Decides `kinds_compatible`.
pub fn kind_matches(queryable_kind: ZInt, target_kind: ZInt) -> (r: bool)
    ensures
        r == kinds_compatible(queryable_kind, target_kind),
{
    queryable_kind == ALL_KINDS || target_kind == ALL_KINDS || (queryable_kind & target_kind) != 0
}

/// What a queryable holds to answer one query: its own kind, which tags
/// every sample it sends back.
#[derive(Debug, Clone, Copy, PartialEq, Eq)]
pub struct RepliesSender {
    pub kind: ZInt,
}

impl RepliesSender {
    /// The item that goes on the reply route for `msg`: the sample under
    /// the kind of the queryable.
    pub fn send(&self, msg: Sample) -> (item: (ZInt, Sample))
        ensures
            item.0 == self.kind,
            item.1 == msg,
    {
        (self.kind, msg)
    }
}

/// Why a reply route did not take an item. The item comes back.
#[derive(Debug)]
pub enum TrySendError<T> {
    Full(T),
    Disconnected(T),
}

/// What a full or closed reply route hands back to the queryable: the
/// sample alone, without the kind it was sent under.
pub fn untagged(refused: TrySendError<(ZInt, Sample)>) -> (r: TrySendError<Sample>)
    ensures
        match refused {
            TrySendError::Full(item) => r == TrySendError::Full(item.1),
            TrySendError::Disconnected(item) => r == TrySendError::Disconnected(item.1),
        },
{
    match refused {
        TrySendError::Full(item) => TrySendError::Full(item.1),
        TrySendError::Disconnected(item) => TrySendError::Disconnected(item.1),
    }
}

/// A query as a queryable receives it.
#[derive(Debug)]
pub struct Query {
    pub res_name: String,
    pub predicate: String,
    pub replies_sender: RepliesSender,
}

/// What a query holds: its name, its predicate, and the kind under
/// which the queryable that gets it answers.
pub struct QueryView {
    pub res_name: Seq<char>,
    pub predicate: Seq<char>,
    pub kind: ZInt,
}

impl View for Query {
    type V = QueryView;

    open spec fn view(&self) -> QueryView {
        QueryView {
            res_name: self.res_name@,
            predicate: self.predicate@,
            kind: self.replies_sender.kind,
        }
    }
}

impl Query {
    /// The item that goes on the reply route for `msg`.
    pub fn reply(&self, msg: Sample) -> (item: (ZInt, Sample))
        ensures
            item.0 == self.replies_sender.kind,
            item.1 == msg,
    {
        self.replies_sender.send(msg)
    }
}


/// The view of a result that holds a name.
pub open spec fn name_result_view<E>(r: Result<String, E>) -> Result<Seq<char>, E> {
    match r {
        Ok(name) => Ok(name@),
        Err(e) => Err(e),
    }
}

/// What the session keeps of a publisher.
#[derive(Debug)]
pub struct PublisherState {
    pub id: Id,
    pub reskey: ResKey,
}

/// A publisher.
#[derive(Debug)]
pub struct Publisher {
    pub state: PublisherState,
}

/// What the session keeps of a subscriber that gets its data through a
/// stream.
#[derive(Debug)]
pub struct SubscriberState {
    pub id: Id,
    pub reskey: ResKey,
    pub resname: String,
}

/// A subscriber that gets its data through a stream.
#[derive(Debug)]
pub struct Subscriber {
    pub state: SubscriberState,
}

/// What the session keeps of a subscriber that gets its data through a
/// handler.
#[derive(Debug)]
pub struct CallbackSubscriberState {
    pub id: Id,
    pub reskey: ResKey,
    pub resname: String,
}

/// A subscriber that gets its data through a handler.
#[derive(Debug)]
pub struct CallbackSubscriber {
    pub state: CallbackSubscriberState,
}

/// What the session keeps of a queryable.
#[derive(Debug)]
pub struct QueryableState {
    pub id: Id,
    pub reskey: ResKey,
    pub kind: ZInt,
}

/// An entity that answers queries.
#[derive(Debug)]
pub struct Queryable {
    pub state: QueryableState,
}

} // verus!
