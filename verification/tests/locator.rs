use zenoh_net::error::ZError;
use zenoh_net::locator::{Locator, Scheme};

#[test]
fn locator_with_host_and_port() {
    let locator = Locator::parse("tcp/10.10.10.10:7447").unwrap();
    assert_eq!(locator.scheme(), Scheme::Tcp);
    assert_eq!(locator.host(), "10.10.10.10");
    assert_eq!(locator.port(), 7447);
    assert!(locator.options().is_empty());
}

#[test]
fn locator_schemes() {
    assert_eq!(Locator::parse("tls/localhost:1").unwrap().scheme(), Scheme::Tls);
    assert_eq!(Locator::parse("udp/localhost:1").unwrap().scheme(), Scheme::Udp);
    assert_eq!(Locator::parse("quic/localhost:1").unwrap().scheme(), Scheme::Quic);
    assert_eq!(Locator::parse("ws/localhost:1").unwrap_err(), ZError::InvalidLocator);
    assert_eq!(Locator::parse("TCP/localhost:1").unwrap_err(), ZError::InvalidLocator);
    assert_eq!(Locator::parse("/localhost:1").unwrap_err(), ZError::InvalidLocator);
}

#[test]
fn locator_port_is_after_the_last_colon() {
    let locator = Locator::parse("tcp/[::1]:65535").unwrap();
    assert_eq!(locator.host(), "[::1]");
    assert_eq!(locator.port(), 65535);
    let zero = Locator::parse("tcp/0.0.0.0:0").unwrap();
    assert_eq!(zero.port(), 0);
    let padded = Locator::parse("tcp/h:00080").unwrap();
    assert_eq!(padded.port(), 80);
}

#[test]
fn locator_with_options() {
    let locator =
        Locator::parse("tls/example.org:7447?client_auth=false&server_private_key=/k=1.pem&x=")
            .unwrap();
    assert_eq!(locator.host(), "example.org");
    assert_eq!(locator.port(), 7447);
    assert_eq!(locator.options().len(), 3);
    assert_eq!(locator.option("client_auth").unwrap(), "false");
    assert_eq!(locator.option("server_private_key").unwrap(), "/k=1.pem");
    assert_eq!(locator.option("x").unwrap(), "");
    assert!(locator.option("y").is_none());
}

#[test]
fn first_of_two_options_of_one_name_wins() {
    let locator = Locator::parse("tcp/h:1?a=1&a=2").unwrap();
    assert_eq!(locator.option("a").unwrap(), "1");
}

#[test]
fn malformed_locators_are_refused() {
    for text in [
        "",
        "tcp",
        "tcp/",
        "tcp/host",
        "tcp/host:",
        "tcp/:7447",
        "tcp/host:x",
        "tcp/host:65536",
        "tcp/host:123456",
        "tcp/host:7447?",
        "tcp/host:7447?a",
        "tcp/host:7447?=b",
        "tcp/host:7447?a=b&",
        "tcp/host:7447?a=b&&c=d",
        "tcp/h\u{f6}st:7447",
    ] {
        assert_eq!(Locator::parse(text).unwrap_err(), ZError::InvalidLocator, "{:?}", text);
    }
}

#[test]
fn locator_on_another_port() {
    let locator = Locator::parse("tls/host:0?a=b").unwrap().with_port(4242);
    assert_eq!(locator.port(), 4242);
    assert_eq!(locator.host(), "host");
    assert_eq!(locator.option("a").unwrap(), "b");
    let copy = locator.duplicate();
    assert_eq!(copy.port(), 4242);
    assert_eq!(copy.scheme(), Scheme::Tls);
    assert_eq!(copy.option("a").unwrap(), "b");
}
