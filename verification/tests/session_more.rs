use zenoh_net::config::{Config, WhatAmI};
use zenoh_net::error::ZError;
use zenoh_net::proto::{Action, Primitive};
use zenoh_net::runtime::Runtime;
use zenoh_net::session::{
    LinkedPeer, Session, ZN_INFO_PEER_PID_KEY, ZN_INFO_PID_KEY, ZN_INFO_ROUTER_PID_KEY,
};
use zenoh_net::tables::SessionState;
use zenoh_net::types::{
    kind_matches, DataInfo, PeerId, QueryConsolidation, QueryTarget, Reliability, ResKey, Sample,
    SubInfo, SubMode, Target, ALL_KINDS, EVAL, STORAGE,
};

fn session() -> Session {
    Session::init(Runtime::new(0, Config::peer(), Some("0102")).unwrap())
}

fn key(s: &str) -> ResKey {
    ResKey::RName(s.to_string())
}

fn push_mode() -> SubInfo {
    SubInfo { reliability: Reliability::Reliable, mode: SubMode::Push, period: None }
}

fn target(kind: u64) -> QueryTarget {
    QueryTarget { kind, target: Target::All }
}

fn delivered_to(actions: &[Action]) -> Vec<usize> {
    let mut ids: Vec<usize> = actions
        .iter()
        .filter_map(|a| match a {
            Action::Deliver { subscriber, .. } => Some(*subscriber),
            _ => None,
        })
        .collect();
    ids.sort();
    ids
}

fn called(actions: &[Action]) -> Vec<usize> {
    let mut ids: Vec<usize> = actions
        .iter()
        .filter_map(|a| match a {
            Action::Call { subscriber, .. } => Some(*subscriber),
            _ => None,
        })
        .collect();
    ids.sort();
    ids
}

fn asked(actions: &[Action]) -> Vec<usize> {
    let mut ids: Vec<usize> = actions
        .iter()
        .filter_map(|a| match a {
            Action::Ask { queryable, .. } => Some(*queryable),
            _ => None,
        })
        .collect();
    ids.sort();
    ids
}

#[test]
fn resource_ids_grow_and_resolve_until_undeclared() {
    let mut s = session();
    let a = s.declare_resource(&key("/a")).unwrap();
    let b = s.declare_resource(&key("/b")).unwrap();
    let c = s.declare_resource(&ResKey::RIdWithSuffix(a, "/c".to_string())).unwrap();
    assert_eq!((a, b, c), (1, 2, 3));
    let failed = s.declare_resource(&ResKey::RId(99)).unwrap_err();
    assert_eq!(failed, ZError::UnknownResourceId { rid: 99 });
    let d = s.declare_resource(&key("/d")).unwrap();
    assert_eq!(d, 5);
    let actions = s.take_actions();
    assert_eq!(actions.len(), 4);
    assert!(matches!(
        &actions[2],
        Action::Send(Primitive::Resource { rid: 3, reskey: ResKey::RIdWithSuffix(1, suffix) })
            if suffix == "/c"
    ));

    let sub = s.declare_subscriber(&ResKey::RId(c), &push_mode()).unwrap();
    assert_eq!(sub.state.resname, "/a/c");
    s.undeclare_resource(b).unwrap();
    let gone = s.declare_subscriber(&ResKey::RId(b), &push_mode()).unwrap_err();
    assert_eq!(gone, ZError::UnknownResourceId { rid: b });
    let still = s.declare_subscriber(&ResKey::RId(a), &push_mode()).unwrap();
    assert_eq!(still.state.resname, "/a");
    let actions = s.take_actions();
    assert!(matches!(&actions[1], Action::Send(Primitive::ForgetResource { rid: 2 })));
}

#[test]
fn one_subscriber_and_one_forget_for_many_declarations() {
    let mut s = session();
    let a = s.declare_subscriber(&key("/k"), &push_mode()).unwrap();
    let b = s.declare_callback_subscriber(&key("/k"), &push_mode()).unwrap();
    let c = s.declare_subscriber(&key("/k"), &push_mode()).unwrap();
    let other = s.declare_subscriber(&key("/other"), &push_mode()).unwrap();
    assert_eq!((a.state.id, b.state.id, c.state.id, other.state.id), (0, 1, 2, 3));
    let declared = s.take_actions();
    assert_eq!(declared.len(), 2);
    assert!(matches!(
        &declared[0],
        Action::Send(Primitive::Subscriber { reskey: ResKey::RName(n), .. }) if n == "/k"
    ));
    assert!(matches!(
        &declared[1],
        Action::Send(Primitive::Subscriber { reskey: ResKey::RName(n), .. }) if n == "/other"
    ));
    s.undeclare_subscriber(c).unwrap();
    assert!(s.take_actions().is_empty());
    s.undeclare_subscriber(a).unwrap();
    assert!(s.take_actions().is_empty());
    s.undeclare_callback_subscriber(b).unwrap();
    let forgotten = s.take_actions();
    assert_eq!(forgotten.len(), 1);
    assert!(matches!(
        &forgotten[0],
        Action::Send(Primitive::ForgetSubscriber { reskey: ResKey::RName(n) }) if n == "/k"
    ));
    s.write(&key("/other"), vec![1]).unwrap();
    assert_eq!(delivered_to(&s.take_actions()), vec![other.state.id]);
}

#[test]
fn keys_of_different_forms_are_different_keys() {
    let mut s = session();
    let rid = s.declare_resource(&key("/k")).unwrap();
    s.take_actions();
    let by_name = s.declare_publisher(&key("/k")).unwrap();
    let by_id = s.declare_publisher(&ResKey::RId(rid)).unwrap();
    let again = s.declare_publisher(&key("/k")).unwrap();
    let declared = s.take_actions();
    assert_eq!(declared.len(), 2);
    assert!(matches!(&declared[0], Action::Send(Primitive::Publisher { reskey: ResKey::RName(_) })));
    assert!(matches!(&declared[1], Action::Send(Primitive::Publisher { reskey: ResKey::RId(1) })));
    s.undeclare_publisher(by_name).unwrap();
    assert!(s.take_actions().is_empty());
    s.undeclare_publisher(by_id).unwrap();
    assert!(matches!(
        &s.take_actions()[..],
        [Action::Send(Primitive::ForgetPublisher { reskey: ResKey::RId(1) })]
    ));
    s.undeclare_publisher(again).unwrap();
    assert!(matches!(
        &s.take_actions()[..],
        [Action::Send(Primitive::ForgetPublisher { reskey: ResKey::RName(_) })]
    ));
}

#[test]
fn queryables_are_declared_once_per_key() {
    let mut s = session();
    let a = s.declare_queryable(&key("/q"), EVAL).unwrap();
    let b = s.declare_queryable(&key("/q"), STORAGE).unwrap();
    let declared = s.take_actions();
    assert_eq!(declared.len(), 1);
    assert!(matches!(&declared[0], Action::Send(Primitive::Queryable { .. })));
    s.undeclare_queryable(a).unwrap();
    assert!(s.take_actions().is_empty());
    s.undeclare_queryable(b).unwrap();
    assert!(matches!(
        &s.take_actions()[..],
        [Action::Send(Primitive::ForgetQueryable { reskey: ResKey::RName(_) })]
    ));
}

#[test]
fn data_goes_once_to_each_matching_subscriber() {
    let mut s = session();
    let exact = s.declare_subscriber(&key("/a/b"), &push_mode()).unwrap();
    let star = s.declare_subscriber(&key("/a/*"), &push_mode()).unwrap();
    let twice = s.declare_subscriber(&key("/a/*"), &push_mode()).unwrap();
    let miss = s.declare_subscriber(&key("/a/c"), &push_mode()).unwrap();
    let handler = s.declare_callback_subscriber(&key("/**"), &push_mode()).unwrap();
    let malformed = s.declare_subscriber(&key("/a//b"), &push_mode()).unwrap();
    s.take_actions();
    s.write(&key("/a/b"), vec![1, 2, 3]).unwrap();
    let actions = s.take_actions();
    assert_eq!(delivered_to(&actions), vec![exact.state.id, star.state.id, twice.state.id]);
    assert_eq!(called(&actions), vec![handler.state.id]);
    assert_eq!(actions.len(), 5);
    assert!(matches!(&actions[0], Action::Send(Primitive::Data { .. })));
    assert!(matches!(&actions[1], Action::Call { .. }));
    for action in &actions[1..] {
        match action {
            Action::Call { sample, .. } | Action::Deliver { sample, .. } => {
                assert_eq!(sample.res_name, "/a/b");
                assert_eq!(sample.payload, vec![1, 2, 3]);
                assert!(sample.data_info.is_none());
            }
            other => panic!("unexpected {:?}", other),
        }
    }
    let _ = (miss, malformed);
}

#[test]
fn data_on_an_unknown_id_is_dropped() {
    let mut s = session();
    s.declare_subscriber(&key("/**"), &push_mode()).unwrap();
    s.take_actions();
    s.write(&ResKey::RId(5), vec![1]).unwrap();
    let actions = s.take_actions();
    assert_eq!(actions.len(), 1);
    assert!(matches!(&actions[0], Action::Send(Primitive::Data { reskey: ResKey::RId(5), .. })));
    s.data(&ResKey::RIdWithSuffix(5, "/x".to_string()), true, None, vec![1]);
    assert!(s.take_actions().is_empty());
}

#[test]
fn remote_ids_are_looked_up_before_local_ones() {
    let mut s = session();
    let sub = s.declare_subscriber(&key("/**"), &push_mode()).unwrap();
    let local = s.declare_resource(&key("/local")).unwrap();
    assert_eq!(local, 1);
    s.resource(1, &key("/remote"));
    s.resource(2, &ResKey::RIdWithSuffix(1, "/more".to_string()));
    s.resource(3, &ResKey::RId(77));
    s.take_actions();

    s.data(&ResKey::RId(1), true, None, vec![]);
    s.data(&ResKey::RId(2), false, None, vec![]);
    s.data(&ResKey::RId(3), true, None, vec![]);
    s.write(&ResKey::RId(1), vec![]).unwrap();
    let names: Vec<String> = s
        .take_actions()
        .into_iter()
        .filter_map(|a| match a {
            Action::Deliver { sample, subscriber } => {
                assert_eq!(subscriber, sub.state.id);
                Some(sample.res_name)
            }
            _ => None,
        })
        .collect();
    assert_eq!(names, vec!["/remote", "/remote/more", "/local"]);

    let state = SessionState::new();
    assert_eq!((state.next_rid(), state.next_qid(), state.next_decl_id()), (1, 0, 0));
    assert_eq!(
        state.remotekey_to_resname(&ResKey::RId(1)).unwrap_err(),
        ZError::UnknownResourceId { rid: 1 }
    );
    assert_eq!(state.localkey_to_resname(&key("/n")).unwrap(), "/n");
    assert_eq!(
        state.reskey_to_resname(&ResKey::RIdWithSuffix(4, "/s".to_string()), true).unwrap_err(),
        ZError::UnknownResourceId { rid: 4 }
    );
}

#[test]
fn write_ext_carries_kind_and_encoding() {
    let mut s = session();
    let sub = s.declare_subscriber(&key("/e"), &push_mode()).unwrap();
    s.take_actions();
    s.write_ext(&key("/e"), vec![9], 4, 1).unwrap();
    let actions = s.take_actions();
    assert_eq!(actions.len(), 2);
    match &actions[0] {
        Action::Send(Primitive::Data { info: Some(info), reliable: true, payload, .. }) => {
            assert_eq!(info.encoding, Some(4));
            assert_eq!(info.kind, Some(1));
            assert!(info.source_id.is_none() && info.timestamp.is_none());
            assert_eq!(payload, &vec![9]);
        }
        other => panic!("unexpected {:?}", other),
    }
    match &actions[1] {
        Action::Deliver { subscriber, sample } => {
            assert_eq!(*subscriber, sub.state.id);
            let info: &DataInfo = sample.data_info.as_ref().unwrap();
            assert_eq!((info.kind, info.encoding), (Some(1), Some(4)));
        }
        other => panic!("unexpected {:?}", other),
    }
}

#[test]
fn write_ext_looks_ids_up_among_those_of_the_application() {
    let mut s = session();
    let rid = s.declare_resource(&key("/local/name")).unwrap();
    s.resource(rid, &key("/remote/name"));
    let on_local = s.declare_subscriber(&key("/local/*"), &push_mode()).unwrap();
    let on_remote = s.declare_subscriber(&key("/remote/*"), &push_mode()).unwrap();
    s.take_actions();
    s.write_ext(&ResKey::RId(rid), vec![7], 3, 2).unwrap();
    let actions = s.take_actions();
    assert_eq!(actions.len(), 2);
    match &actions[1] {
        Action::Deliver { subscriber, sample } => {
            assert_eq!(*subscriber, on_local.state.id);
            assert_eq!(sample.res_name, "/local/name");
            assert_eq!(sample.payload, vec![7]);
            let info = sample.data_info.as_ref().unwrap();
            assert_eq!((info.kind, info.encoding), (Some(2), Some(3)));
            assert!(info.source_id.is_none() && info.source_sn.is_none());
            assert!(info.first_broker_id.is_none() && info.first_broker_sn.is_none());
            assert!(info.timestamp.is_none());
        }
        other => panic!("unexpected {:?}", other),
    }
    s.write(&ResKey::RId(rid), vec![8]).unwrap();
    assert_eq!(delivered_to(&s.take_actions()), vec![on_local.state.id]);
    s.data(&ResKey::RId(rid), true, None, vec![9]);
    assert_eq!(delivered_to(&s.take_actions()), vec![on_remote.state.id]);
    s.write_ext(&ResKey::RId(rid + 1), vec![], 0, 0).unwrap();
    assert_eq!(s.take_actions().len(), 1);
}

#[test]
fn the_role_of_a_new_session_is_that_of_its_configuration() {
    let links = vec![];
    let broker = Session::new(Config::peer().mode(WhatAmI::Broker)).unwrap();
    let info = broker.info(&links);
    assert_eq!(info.len(), 2);
    assert_eq!(info[1].0, ZN_INFO_ROUTER_PID_KEY);
    assert_eq!(info[0].1, info[1].1);
    assert_eq!(info[0].1[6] >> 4, 4);
    let client = Session::new(Config::client()).unwrap();
    assert_eq!(client.info(&links).len(), 1);
}

#[test]
fn replies_then_end_of_stream() {
    let mut s = session();
    let qid = s
        .query(&key("/q/x"), "p", target(ALL_KINDS), QueryConsolidation::LastHop)
        .unwrap();
    assert_eq!(qid, 0);
    let entered = s.take_actions();
    assert_eq!(entered.len(), 3);
    match &entered[1] {
        Action::Send(Primitive::Query { predicate, qid: 0, consolidation, .. }) => {
            assert_eq!(predicate, "p");
            assert_eq!(*consolidation, QueryConsolidation::LastHop);
        }
        other => panic!("unexpected {:?}", other),
    }
    assert!(matches!(&entered[2], Action::Collect { qid: 0, local: true, .. }));
    let replier = PeerId::new(vec![7]).unwrap();
    for n in 0..5u8 {
        s.reply_data(qid, EVAL, replier.clone(), key("/q/x"), None, vec![n]);
    }
    s.reply_data(qid + 1, EVAL, replier.clone(), key("/q/x"), None, vec![42]);
    s.reply_data(qid, EVAL, replier.clone(), ResKey::RId(12), None, vec![43]);
    s.reply_final(qid);
    s.reply_final(qid + 1);
    s.reply_final(qid);
    s.reply_data(qid, EVAL, replier.clone(), key("/q/x"), None, vec![44]);
    s.reply_final(qid);
    let actions = s.take_actions();
    assert_eq!(actions.len(), 6);
    for (n, action) in actions[..5].iter().enumerate() {
        match action {
            Action::Answer { qid: 0, reply } => {
                assert_eq!(reply.data.payload, vec![n as u8]);
                assert_eq!(reply.source_kind, EVAL);
                assert_eq!(reply.replier_id.as_slice(), &[7]);
            }
            other => panic!("unexpected {:?}", other),
        }
    }
    assert!(matches!(&actions[5], Action::EndOfReplies { qid: 0 }));
    let second = s
        .query(&key("/q/x"), "", target(ALL_KINDS), QueryConsolidation::NoConsolidation)
        .unwrap();
    assert_eq!(second, 1);
}

#[test]
fn a_query_on_an_unknown_id_waits_for_the_network_only() {
    let mut s = session();
    let qid = s
        .query(&ResKey::RId(3), "", target(ALL_KINDS), QueryConsolidation::NoConsolidation)
        .unwrap();
    let entered = s.take_actions();
    assert_eq!(entered.len(), 2);
    assert!(matches!(&entered[0], Action::Expect { .. }));
    assert!(matches!(&entered[1], Action::Send(Primitive::Query { .. })));
    s.reply_final(qid);
    assert!(matches!(&s.take_actions()[..], [Action::EndOfReplies { .. }]));
}

#[test]
fn queries_go_to_queryables_of_a_kind_that_is_asked_for() {
    let mut s = session();
    let all = s.declare_queryable(&key("/q/**"), ALL_KINDS).unwrap();
    let eval = s.declare_queryable(&key("/q/*"), EVAL).unwrap();
    let storage = s.declare_queryable(&key("/q/x"), STORAGE).unwrap();
    let elsewhere = s.declare_queryable(&key("/r/x"), ALL_KINDS).unwrap();
    let unknown = s.declare_queryable(&ResKey::RId(50), ALL_KINDS).unwrap();
    s.take_actions();

    s.handle_query(false, &key("/q/x"), "", 9, target(EVAL), QueryConsolidation::NoConsolidation);
    let actions = s.take_actions();
    assert!(matches!(&actions[0], Action::Collect { qid: 9, local: false, capacity: 256 }));
    assert_eq!(asked(&actions), vec![all.state.id, eval.state.id]);

    s.handle_query(
        false,
        &key("/q/x"),
        "",
        10,
        target(STORAGE | EVAL),
        QueryConsolidation::NoConsolidation,
    );
    assert_eq!(asked(&s.take_actions()), vec![all.state.id, eval.state.id, storage.state.id]);

    s.handle_query(false, &key("/q/x"), "", 11, target(ALL_KINDS), QueryConsolidation::NoConsolidation);
    let actions = s.take_actions();
    assert_eq!(asked(&actions), vec![all.state.id, eval.state.id, storage.state.id]);
    for action in &actions[1..] {
        match action {
            Action::Ask { queryable, query } => {
                let kind = if *queryable == all.state.id {
                    ALL_KINDS
                } else if *queryable == eval.state.id {
                    EVAL
                } else {
                    STORAGE
                };
                assert_eq!(query.replies_sender.kind, kind);
                assert_eq!(query.res_name, "/q/x");
            }
            other => panic!("unexpected {:?}", other),
        }
    }

    s.handle_query(false, &ResKey::RId(50), "", 12, target(ALL_KINDS), QueryConsolidation::NoConsolidation);
    assert!(s.take_actions().is_empty());
    let _ = (elsewhere, unknown);
}

#[test]
fn kinds_are_compatible_by_mask() {
    assert!(kind_matches(ALL_KINDS, 0));
    assert!(kind_matches(0, ALL_KINDS));
    assert!(kind_matches(EVAL, EVAL | STORAGE));
    assert!(!kind_matches(EVAL, STORAGE));
    assert!(!kind_matches(0, 0));
    assert!(kind_matches(6, 4));
}

#[test]
fn replies_of_queryables_are_forwarded() {
    let mut s = session();
    let sample = || Sample { res_name: "/q/x".to_string(), payload: vec![5], data_info: None };
    s.forward_reply(false, 77, (EVAL, sample()));
    s.finish_replies(false, 77);
    let actions = s.take_actions();
    assert_eq!(actions.len(), 2);
    match &actions[0] {
        Action::Send(Primitive::ReplyData {
            qid: 77,
            source_kind,
            replier_id,
            reskey: ResKey::RName(n),
            info: None,
            payload,
        }) => {
            assert_eq!(*source_kind, EVAL);
            assert_eq!(replier_id.as_slice(), &[1, 2]);
            assert_eq!(n, "/q/x");
            assert_eq!(payload, &vec![5]);
        }
        other => panic!("unexpected {:?}", other),
    }
    assert!(matches!(&actions[1], Action::Send(Primitive::ReplyFinal { qid: 77 })));
    s.forward_reply(true, 78, (EVAL, sample()));
    s.finish_replies(true, 78);
    assert!(s.take_actions().is_empty());
}

#[test]
fn primitives_from_the_network_are_taken_in() {
    let mut s = session();
    let sub = s.declare_subscriber(&key("/n/*"), &push_mode()).unwrap();
    let queryable = s.declare_queryable(&key("/n/*"), EVAL).unwrap();
    s.take_actions();
    s.handle(Primitive::Resource { rid: 4, reskey: key("/n/four") });
    s.handle(Primitive::Data {
        reskey: ResKey::RId(4),
        reliable: false,
        info: None,
        payload: vec![4],
    });
    s.handle(Primitive::Query {
        reskey: ResKey::RId(4),
        predicate: "?".to_string(),
        qid: 3,
        target: target(EVAL),
        consolidation: QueryConsolidation::Incremental,
    });
    s.handle(Primitive::Subscriber { reskey: key("/n/*"), sub_info: push_mode() });
    s.handle(Primitive::ForgetResource { rid: 4 });
    s.handle(Primitive::Pull { is_final: true, reskey: key("/n"), pull_id: 0, max_samples: None });
    s.handle(Primitive::Close);
    s.handle(Primitive::ReplyFinal { qid: 3 });
    let actions = s.take_actions();
    assert_eq!(actions.len(), 3);
    assert_eq!(delivered_to(&actions), vec![sub.state.id]);
    assert!(matches!(&actions[1], Action::Collect { qid: 3, local: false, .. }));
    match &actions[2] {
        Action::Ask { queryable: id, query } => {
            assert_eq!(*id, queryable.state.id);
            assert_eq!(query.predicate, "?");
            assert_eq!(query.res_name, "/n/four");
        }
        other => panic!("unexpected {:?}", other),
    }
    assert!(!s.is_closed());
}

#[test]
fn pull_is_sent_for_the_key_of_the_subscriber() {
    let mut s = session();
    let sub = s.declare_subscriber(&key("/p"), &push_mode()).unwrap();
    let handler = s.declare_callback_subscriber(&key("/h"), &push_mode()).unwrap();
    s.take_actions();
    sub.pull(&mut s).unwrap();
    handler.pull(&mut s).unwrap();
    let actions = s.take_actions();
    assert!(matches!(
        &actions[0],
        Action::Send(Primitive::Pull {
            is_final: true,
            reskey: ResKey::RName(n),
            pull_id: 0,
            max_samples: None
        }) if n == "/p"
    ));
    assert!(matches!(
        &actions[1],
        Action::Send(Primitive::Pull { reskey: ResKey::RName(n), .. }) if n == "/h"
    ));
}

#[test]
fn a_closed_session_refuses_and_drops() {
    let mut s = session();
    let sub = s.declare_subscriber(&key("/c"), &push_mode()).unwrap();
    let publisher = s.declare_publisher(&key("/c")).unwrap();
    let queryable = s.declare_queryable(&key("/c"), EVAL).unwrap();
    let handler = s.declare_callback_subscriber(&key("/c"), &push_mode()).unwrap();
    let qid = s.query(&key("/c"), "", target(EVAL), QueryConsolidation::NoConsolidation).unwrap();
    s.take_actions();
    assert!(s.close().is_ok());
    assert!(s.is_closed());
    let closing = s.take_actions();
    assert_eq!(closing.len(), 2);
    assert!(matches!(&closing[0], Action::Shutdown));
    assert!(matches!(&closing[1], Action::Send(Primitive::Close)));
    assert!(s.close().is_ok());
    assert!(s.take_actions().is_empty());

    assert_eq!(s.declare_resource(&key("/c")).unwrap_err(), ZError::Closed);
    assert_eq!(s.undeclare_resource(1).unwrap_err(), ZError::Closed);
    assert_eq!(s.declare_publisher(&key("/c")).unwrap_err(), ZError::Closed);
    assert_eq!(s.declare_subscriber(&key("/c"), &push_mode()).unwrap_err(), ZError::Closed);
    assert_eq!(
        s.declare_callback_subscriber(&key("/c"), &push_mode()).unwrap_err(),
        ZError::Closed
    );
    assert_eq!(s.declare_queryable(&key("/c"), EVAL).unwrap_err(), ZError::Closed);
    assert_eq!(s.write(&key("/c"), vec![]).unwrap_err(), ZError::Closed);
    assert_eq!(s.write_ext(&key("/c"), vec![], 0, 0).unwrap_err(), ZError::Closed);
    assert_eq!(s.pull(&key("/c")).unwrap_err(), ZError::Closed);
    assert_eq!(
        s.query(&key("/c"), "", target(EVAL), QueryConsolidation::NoConsolidation).unwrap_err(),
        ZError::Closed
    );
    assert_eq!(s.undeclare_subscriber(sub).unwrap_err(), ZError::Closed);
    assert_eq!(s.undeclare_publisher(publisher).unwrap_err(), ZError::Closed);
    assert_eq!(s.undeclare_queryable(queryable).unwrap_err(), ZError::Closed);
    assert_eq!(s.undeclare_callback_subscriber(handler).unwrap_err(), ZError::Closed);
    s.data(&key("/c"), true, None, vec![1]);
    s.reply_data(qid, EVAL, PeerId::new(vec![1]).unwrap(), key("/c"), None, vec![]);
    s.reply_final(qid);
    s.resource(9, &key("/c"));
    s.forward_reply(false, 1, (0, Sample { res_name: "/c".into(), payload: vec![], data_info: None }));
    s.finish_replies(false, 1);
    assert!(s.take_actions().is_empty());
}

#[test]
fn information_about_a_session() {
    let pid = |b: u8| Some(PeerId::new(vec![b]).unwrap());
    let links = vec![
        LinkedPeer { whatami: Some(WhatAmI::Peer), pid: pid(10) },
        LinkedPeer { whatami: Some(WhatAmI::Broker), pid: pid(11) },
        LinkedPeer { whatami: None, pid: pid(12) },
        LinkedPeer { whatami: Some(WhatAmI::Peer), pid: None },
        LinkedPeer { whatami: Some(WhatAmI::Client), pid: pid(13) },
        LinkedPeer { whatami: Some(WhatAmI::Peer), pid: pid(14) },
    ];
    let peer = session();
    assert_eq!(
        peer.info(&links),
        vec![
            (ZN_INFO_PID_KEY, vec![1, 2]),
            (ZN_INFO_PEER_PID_KEY, vec![10]),
            (ZN_INFO_PEER_PID_KEY, vec![14]),
            (ZN_INFO_ROUTER_PID_KEY, vec![11]),
        ]
    );
    let broker = Session::init(
        Runtime::new(0, Config::peer().mode(WhatAmI::Broker), Some("ab")).unwrap(),
    );
    assert_eq!(
        broker.info(&links),
        vec![
            (ZN_INFO_PID_KEY, vec![0xab]),
            (ZN_INFO_PEER_PID_KEY, vec![10]),
            (ZN_INFO_PEER_PID_KEY, vec![14]),
            (ZN_INFO_ROUTER_PID_KEY, vec![0xab]),
            (ZN_INFO_ROUTER_PID_KEY, vec![11]),
        ]
    );
    assert_eq!(peer.info(&vec![]), vec![(0, vec![1, 2])]);
}

#[test]
fn ids_are_left_in_a_new_session() {
    let s = session();
    assert!(s.resource_ids_left());
    assert!(s.declaration_ids_left());
    assert!(s.query_ids_left());
}
