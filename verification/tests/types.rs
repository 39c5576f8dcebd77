use zenoh_net::types::{
    clone_info, copy_bytes, untagged, DataInfo, PeerId, Query, RepliesSender, ResKey, Sample,
    Timestamp, TrySendError,
};

fn sample() -> Sample {
    Sample {
        res_name: "/s".to_string(),
        payload: vec![1, 2],
        data_info: Some(DataInfo {
            source_id: PeerId::new(vec![1, 2, 3]),
            source_sn: Some(5),
            first_broker_id: None,
            first_broker_sn: None,
            timestamp: Some(Timestamp { time: 77, id: vec![9] }),
            kind: Some(1),
            encoding: None,
        }),
    }
}

#[test]
fn keys_are_the_same_by_form_and_content() {
    let name = ResKey::RName("/a".to_string());
    assert!(name.same(&ResKey::RName("/a".to_string())));
    assert!(!name.same(&ResKey::RName("/b".to_string())));
    assert!(!name.same(&ResKey::RId(1)));
    assert!(ResKey::RId(1).same(&ResKey::RId(1)));
    assert!(!ResKey::RId(1).same(&ResKey::RId(2)));
    let suffixed = ResKey::RIdWithSuffix(1, "/a".to_string());
    assert!(suffixed.same(&suffixed.clone()));
    assert!(!suffixed.same(&ResKey::RIdWithSuffix(2, "/a".to_string())));
    assert!(!suffixed.same(&ResKey::RIdWithSuffix(1, "/b".to_string())));
    assert!(!suffixed.same(&ResKey::RId(1)));
}

#[test]
fn copies_are_equal_to_what_they_copy() {
    let s = sample();
    let c = s.clone();
    assert_eq!(c.res_name, "/s");
    assert_eq!(c.payload, vec![1, 2]);
    let info = c.data_info.unwrap();
    assert_eq!(info.source_id.unwrap().as_slice(), &[1, 2, 3]);
    assert_eq!(info.source_sn, Some(5));
    assert!(info.first_broker_id.is_none());
    let stamp = info.timestamp.unwrap();
    assert_eq!((stamp.time, stamp.id), (77, vec![9]));
    assert_eq!(info.kind, Some(1));
    assert!(clone_info(&None).is_none());
    assert_eq!(copy_bytes(&vec![3, 4, 5]), vec![3, 4, 5]);
}

#[test]
fn replies_are_tagged_with_the_kind() {
    let sender = RepliesSender { kind: 4 };
    let (kind, back) = sender.send(sample());
    assert_eq!(kind, 4);
    assert_eq!(back.payload, vec![1, 2]);
    let query = Query { res_name: "/q".into(), predicate: "".into(), replies_sender: sender };
    assert_eq!(query.reply(sample()).0, 4);
}

#[test]
fn what_a_route_refuses_comes_back_untagged() {
    match untagged(TrySendError::Full((4, sample()))) {
        TrySendError::Full(s) => assert_eq!(s.res_name, "/s"),
        other => panic!("unexpected {:?}", other),
    }
    match untagged(TrySendError::Disconnected((4, sample()))) {
        TrySendError::Disconnected(s) => assert_eq!(s.payload, vec![1, 2]),
        other => panic!("unexpected {:?}", other),
    }
}
