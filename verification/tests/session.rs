use zenoh_net::config::Config;
use zenoh_net::error::ZError;
use zenoh_net::proto::{Action, Primitive};
use zenoh_net::runtime::Runtime;
use zenoh_net::session::Session;
use zenoh_net::types::{
    QueryConsolidation, QueryTarget, Reliability, ResKey, Sample, SubInfo, SubMode, Target,
    ALL_KINDS,
};

fn open() -> Session {
    Session::init(Runtime::new(0, Config::peer(), None).unwrap())
}

fn name(s: &str) -> ResKey {
    ResKey::RName(s.to_string())
}

fn push() -> SubInfo {
    SubInfo { reliability: Reliability::Reliable, mode: SubMode::Push, period: None }
}

fn deliveries(actions: &[Action]) -> Vec<(usize, String, Vec<u8>)> {
    actions
        .iter()
        .filter_map(|a| match a {
            Action::Deliver { subscriber, sample } => {
                Some((*subscriber, sample.res_name.clone(), sample.payload.clone()))
            }
            _ => None,
        })
        .collect()
}

fn forgets(actions: &[Action], key: &str) -> usize {
    actions
        .iter()
        .filter(|a| match a {
            Action::Send(Primitive::ForgetSubscriber { reskey: ResKey::RName(n) }) => n == key,
            _ => false,
        })
        .count()
}

fn subscribes(actions: &[Action], key: &str) -> usize {
    actions
        .iter()
        .filter(|a| match a {
            Action::Send(Primitive::Subscriber { reskey: ResKey::RName(n), .. }) => n == key,
            _ => false,
        })
        .count()
}

#[test]
fn local_echo() {
    let mut session = open();
    let sub = session.declare_subscriber(&name("/a/*"), &push()).unwrap();
    session.take_actions();
    session.write(&name("/a/b"), b"hi".to_vec()).unwrap();
    let actions = session.take_actions();
    assert_eq!(
        deliveries(&actions),
        vec![(sub.state.id, "/a/b".to_string(), b"hi".to_vec())]
    );
    match &actions[0] {
        Action::Send(Primitive::Data { reskey: ResKey::RName(n), reliable, info, payload }) => {
            assert_eq!(n, "/a/b");
            assert!(*reliable);
            assert!(info.is_none());
            assert_eq!(payload, &b"hi".to_vec());
        }
        other => panic!("unexpected {:?}", other),
    }
    assert_eq!(actions.len(), 2);
}

#[test]
fn wildcard_miss() {
    let mut session = open();
    session.declare_subscriber(&name("/a/*"), &push()).unwrap();
    session.take_actions();
    session.write(&name("/a/b/c"), b"hi".to_vec()).unwrap();
    let actions = session.take_actions();
    assert!(deliveries(&actions).is_empty());
    assert_eq!(actions.len(), 1);
}

#[test]
fn id_indirection() {
    let mut session = open();
    let rid = session.declare_resource(&name("/x/y")).unwrap();
    assert_eq!(rid, 1);
    let sub = session.declare_subscriber(&name("/x/*"), &push()).unwrap();
    session.take_actions();
    session.write(&ResKey::RId(1), b"p".to_vec()).unwrap();
    let actions = session.take_actions();
    assert_eq!(
        deliveries(&actions),
        vec![(sub.state.id, "/x/y".to_string(), b"p".to_vec())]
    );
}

#[test]
fn forget_last() {
    let mut session = open();
    let first = session.declare_subscriber(&name("/k"), &push()).unwrap();
    let second = session.declare_subscriber(&name("/k"), &push()).unwrap();
    let declared = session.take_actions();
    assert_eq!(subscribes(&declared, "/k"), 1);
    session.undeclare_subscriber(first).unwrap();
    assert_eq!(forgets(&session.take_actions(), "/k"), 0);
    session.undeclare_subscriber(second).unwrap();
    assert_eq!(forgets(&session.take_actions(), "/k"), 1);
}

#[test]
fn query_aggregation() {
    let mut session = open();
    let queryable = session.declare_queryable(&name("/q/*"), 1).unwrap();
    session.take_actions();
    let target = QueryTarget { kind: ALL_KINDS, target: Target::BestMatching };
    let qid = session
        .query(&name("/q/x"), "", target, QueryConsolidation::NoConsolidation)
        .unwrap();
    let actions = session.take_actions();
    assert_eq!(actions.len(), 4);
    assert!(matches!(&actions[0], Action::Expect { qid: q, capacity: 256 } if *q == qid));
    assert!(matches!(&actions[1], Action::Send(Primitive::Query { qid: q, .. }) if *q == qid));
    assert!(
        matches!(&actions[2], Action::Collect { qid: q, local: true, capacity: 256 } if *q == qid)
    );
    let query = match &actions[3] {
        Action::Ask { queryable: id, query } => {
            assert_eq!(*id, queryable.state.id);
            assert_eq!(query.res_name, "/q/x");
            assert_eq!(query.replies_sender.kind, 1);
            query
        }
        other => panic!("unexpected {:?}", other),
    };
    let item = query.reply(Sample {
        res_name: "/q/x".to_string(),
        payload: b"r1".to_vec(),
        data_info: None,
    });
    session.forward_reply(true, qid, item);
    let answers = session.take_actions();
    assert_eq!(answers.len(), 1);
    match &answers[0] {
        Action::Answer { qid: q, reply } => {
            assert_eq!(*q, qid);
            assert_eq!(reply.data.payload, b"r1".to_vec());
            assert_eq!(reply.data.res_name, "/q/x");
            assert_eq!(reply.source_kind, 1);
        }
        other => panic!("unexpected {:?}", other),
    }
    session.finish_replies(true, qid);
    assert!(session.take_actions().is_empty());
    session.reply_final(qid);
    let end = session.take_actions();
    assert_eq!(end.len(), 1);
    assert!(matches!(&end[0], Action::EndOfReplies { qid: q } if *q == qid));
    session.reply_final(qid);
    assert!(session.take_actions().is_empty());
}

#[test]
fn a_new_session_is_open_and_empty() {
    let mut session = Session::new(Config::peer().add_timestamp()).unwrap();
    assert!(!session.is_closed());
    assert!(session.take_actions().is_empty());
    assert_eq!(session.declare_resource(&name("/first")).unwrap(), 1);
    assert_eq!(session.info(&vec![])[0].1.len(), 16);
}

#[test]
fn unknown_resource_id_is_reported() {
    let mut session = open();
    let err = session.declare_subscriber(&ResKey::RId(7), &push()).unwrap_err();
    assert_eq!(err, ZError::UnknownResourceId { rid: 7 });
    let err = session.declare_resource(&ResKey::RIdWithSuffix(3, "/x".to_string())).unwrap_err();
    assert_eq!(err, ZError::UnknownResourceId { rid: 3 });
    assert!(session.take_actions().is_empty());
}
