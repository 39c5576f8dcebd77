use zenoh_net::config::Config;
use zenoh_net::error::{IdFault, ZError};
use zenoh_net::runtime::Runtime;
use zenoh_net::types::PeerId;

#[test]
fn peer_id_from_hexadecimal() {
    let pid = PeerId::from_hex("0a1B2c").unwrap();
    assert_eq!(pid.as_slice(), &[0x0a, 0x1b, 0x2c]);
    assert_eq!(pid.size(), 3);
    assert_eq!(pid.to_hex(), "0A1B2C");
    let full = PeerId::from_hex("000102030405060708090a0b0c0d0e0f").unwrap();
    assert_eq!(full.size(), 16);
    assert_eq!(full.to_vec(), (0u8..16).collect::<Vec<u8>>());
}

#[test]
fn peer_id_faults() {
    assert_eq!(PeerId::from_hex("").unwrap_err(), IdFault::Empty);
    assert_eq!(PeerId::from_hex("abc").unwrap_err(), IdFault::NotHexadecimal);
    assert_eq!(PeerId::from_hex("zz").unwrap_err(), IdFault::NotHexadecimal);
    assert_eq!(
        PeerId::from_hex("000102030405060708090a0b0c0d0e0f10").unwrap_err(),
        IdFault::TooLong { size: 17 }
    );
}

#[test]
fn peer_id_of_bytes() {
    assert!(PeerId::new(vec![]).is_none());
    assert!(PeerId::new(vec![0; 17]).is_none());
    let pid = PeerId::new(vec![7; 16]).unwrap();
    assert_eq!(pid.clone().as_slice(), &[7u8; 16]);
}

#[test]
fn random_peer_ids_are_version_four() {
    let a = PeerId::random();
    let b = PeerId::random();
    assert_eq!(a.size(), 16);
    assert_eq!(a.as_slice()[6] >> 4, 4);
    assert_eq!(a.as_slice()[8] >> 6, 2);
    assert_ne!(a.as_slice(), b.as_slice());
}

#[test]
fn runtime_with_given_id() {
    let runtime = Runtime::new(3, Config::peer(), Some("ff00")).unwrap();
    assert_eq!(runtime.get_pid_str(), "FF00");
    assert_eq!(runtime.read().version, 3);
    assert_eq!(runtime.read().pid.as_slice(), &[0xff, 0x00]);
}

#[test]
fn runtime_with_random_id() {
    let runtime = Runtime::new(0, Config::peer(), None).unwrap();
    assert_eq!(runtime.get_pid_str().len(), 32);
    assert_eq!(runtime.read().pid.size(), 16);
}

#[test]
fn any_id_of_one_to_sixteen_bytes_is_taken() {
    for text in ["00", "0000", "00000000000000000000000000000000", "ff"] {
        let plain = Runtime::new(0, Config::peer(), Some(text)).unwrap();
        assert_eq!(plain.get_pid_str(), text.to_uppercase());
        let stamped = Runtime::new(0, Config::peer().add_timestamp(), Some(text)).unwrap();
        assert_eq!(stamped.read().pid.size(), text.len() / 2);
        assert!(stamped.read().config.add_timestamp);
    }
}

#[test]
fn runtime_with_timestamps() {
    let runtime = Runtime::new(0, Config::peer().add_timestamp(), Some("01")).unwrap();
    assert!(runtime.read().config.add_timestamp);
    let random = Runtime::new(0, Config::peer().add_timestamp(), None).unwrap();
    assert_eq!(random.read().pid.as_slice()[6] >> 4, 4);
    assert_eq!(random.read().pid.as_slice()[8] >> 6, 2);
    assert!(Runtime::new(0, Config::peer().add_timestamp(), Some("000100")).is_ok());
}

#[test]
fn runtime_can_be_changed() {
    let mut runtime = Runtime::new(1, Config::peer(), Some("01")).unwrap();
    runtime.write().version = 2;
    runtime.write().pid = zenoh_net::types::PeerId::new(vec![9]).unwrap();
    assert_eq!(runtime.read().version, 2);
    assert_eq!(runtime.get_pid_str(), "09");
}

#[test]
fn runtime_faults() {
    assert_eq!(
        Runtime::new(0, Config::peer(), Some("xyz")).err().unwrap(),
        ZError::InvalidId { reason: IdFault::NotHexadecimal }
    );
    assert_eq!(
        Runtime::new(0, Config::peer(), Some("")).err().unwrap(),
        ZError::InvalidId { reason: IdFault::Empty }
    );
    assert_eq!(
        Runtime::new(0, Config::peer(), Some("000102030405060708090a0b0c0d0e0f10")).err().unwrap(),
        ZError::InvalidId { reason: IdFault::TooLong { size: 17 } }
    );
}
