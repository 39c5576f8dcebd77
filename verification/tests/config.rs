use zenoh_net::config::{Config, Duration, WhatAmI};
use zenoh_net::locator::Scheme;

#[test]
fn peer_configuration_defaults() {
    let config = Config::peer();
    assert_eq!(config.whatami, WhatAmI::Peer);
    assert!(config.peers.is_empty());
    assert!(config.listeners.is_empty());
    assert_eq!(config.multicast_interface, "auto");
    assert_eq!(config.scouting_delay, Duration { secs: 0, nanos: 250_000_000 });
    assert!(!config.add_timestamp);
    assert_eq!(Config::client().whatami, WhatAmI::Client);
    assert_eq!(Config::default().whatami, WhatAmI::Peer);
}

#[test]
fn configuration_is_built_step_by_step() {
    let config = Config::peer()
        .add_listener("tcp/0.0.0.0:7447")
        .add_peer("tcp/10.10.10.10:7447")
        .add_peers(vec!["tls/a:1", "udp/b:2"])
        .add_listeners(vec!["quic/c:3"])
        .multicast_interface("eth0".to_string())
        .scouting_delay(Duration::from_millis(1500))
        .mode(WhatAmI::Router)
        .add_timestamp();
    assert_eq!(config.whatami, WhatAmI::Router);
    assert_eq!(config.peers.len(), 3);
    assert_eq!(config.peers[0].host(), "10.10.10.10");
    assert_eq!(config.peers[1].scheme(), Scheme::Tls);
    assert_eq!(config.peers[2].port(), 2);
    assert_eq!(config.listeners.len(), 2);
    assert_eq!(config.listeners[0].port(), 7447);
    assert_eq!(config.listeners[1].scheme(), Scheme::Quic);
    assert_eq!(config.multicast_interface, "eth0");
    assert_eq!(config.scouting_delay, Duration { secs: 1, nanos: 500_000_000 });
    assert!(config.add_timestamp);
}

#[test]
fn modes_are_read_from_words() {
    assert_eq!(Config::parse_mode("peer"), Ok(WhatAmI::Peer));
    assert_eq!(Config::parse_mode("client"), Ok(WhatAmI::Client));
    assert_eq!(Config::parse_mode("router"), Ok(WhatAmI::Router));
    assert_eq!(Config::parse_mode("broker"), Ok(WhatAmI::Broker));
    assert_eq!(Config::parse_mode("Peer"), Err(()));
    assert_eq!(Config::parse_mode(""), Err(()));
}

#[test]
fn roles_have_one_bit_each() {
    assert_eq!(WhatAmI::Broker.bits(), 1);
    assert_eq!(WhatAmI::Router.bits(), 2);
    assert_eq!(WhatAmI::Peer.bits(), 4);
    assert_eq!(WhatAmI::Client.bits(), 8);
}
