//! The runtime that a session runs on: the identity of the peer, its role
//! and its clock.

use crate::config::{Config, WhatAmI};
use crate::error::{IdFault, ZError, ZResult};
use crate::key::name_bytes;
use crate::types::{PeerId, PEER_ID_MAX_SIZE};
use vstd::prelude::*;

verus! {

/// The value of a hexadecimal digit, in either case.
pub open spec fn hex_value(c: u8) -> Option<u8> {
    if 0x30 <= c <= 0x39 {
        Some((c - 0x30) as u8)
    } else if 0x61 <= c <= 0x66 {
        Some((c - 0x61 + 10) as u8)
    } else if 0x41 <= c <= 0x46 {
        Some((c - 0x41 + 10) as u8)
    } else {
        None
    }
}

/// An even number of hexadecimal digits.
pub open spec fn is_hex(text: Seq<u8>) -> bool {
    text.len() % 2 == 0 && forall|i: int| 0 <= i < text.len() ==> hex_value(#[trigger] text[i]) is Some
}

/// The bytes that pairs of hexadecimal digits write, the high digit first.
pub open spec fn hex_decoded(text: Seq<u8>) -> Seq<u8> {
    Seq::new(
        (text.len() / 2) as nat,
        |i: int| (hex_value(text[2 * i])->0 * 16 + hex_value(text[2 * i + 1])->0) as u8,
    )
}

/// The upper-case hexadecimal digit of a value below sixteen.
pub open spec fn upper_digit(n: int) -> char {
    if n < 10 {
        ((0x30 + n) as u8) as char
    } else {
        ((0x41 + n - 10) as u8) as char
    }
}

/// Two upper-case hexadecimal digits for each byte, the high digit first.
pub open spec fn hex_encoded(bytes: Seq<u8>) -> Seq<char> {
    Seq::new(
        2 * bytes.len(),
        |i: int|
            if i % 2 == 0 {
                upper_digit(bytes[i / 2] as int / 16)
            } else {
                upper_digit(bytes[i / 2] as int % 16)
            },
    )
}

/// `hex::decode` on a text: the bytes that the text writes in hexadecimal,
/// two digits of either case for each byte, or nothing where the text has
/// an odd number of bytes or one that is no hexadecimal digit.
#[verifier::external_body]
fn hex_decode(text: &str) -> (r: Option<Vec<u8>>)
    ensures
        r is Some <==> is_hex(name_bytes(text@)),
        r matches Some(bytes) ==> bytes@ == hex_decoded(name_bytes(text@)),
{
    hex::decode(text).ok()
}

/// `hex::encode_upper` on bytes: two upper-case hexadecimal digits for
/// each byte.
#[verifier::external_body]
fn hex_encode_upper(bytes: &[u8]) -> (r: String)
    ensures
        r@ == hex_encoded(bytes@),
{
    hex::encode_upper(bytes)
}

/// `uuid::Uuid::new_v4`, as bytes: sixteen bytes drawn at random, but for
/// the version, which is four, and the variant.
#[verifier::external_body]
fn random_uuid() -> (bytes: Vec<u8>)
    ensures
        bytes@.len() == 16,
        bytes@[6] / 16 == 4,
        bytes@[8] / 64 == 2,
{
    uuid::Uuid::new_v4().as_bytes().to_vec()
}

/// What a runtime holds.
pub struct RuntimeState {
    pub pid: PeerId,
    pub version: u8,
    pub config: Config,
}

/// The runtime of a peer.
pub struct Runtime {
    state: RuntimeState,
}

impl View for Runtime {
    type V = Seq<u8>;

    closed spec fn view(&self) -> Seq<u8> {
        self.state.pid@
    }
}

/// The peer id that a text writes in hexadecimal, or what is wrong with
/// the text.
pub open spec fn parse_pid(text: Seq<u8>) -> Result<Seq<u8>, IdFault> {
    if !is_hex(text) {
        Err(IdFault::NotHexadecimal)
    } else if hex_decoded(text).len() == 0 {
        Err(IdFault::Empty)
    } else if hex_decoded(text).len() > PEER_ID_MAX_SIZE {
        Err(IdFault::TooLong { size: hex_decoded(text).len() as usize })
    } else {
        Ok(hex_decoded(text))
    }
}

/// The peer id that the decoding of a text stands for.
pub fn pid_from_decoded(decoded: Option<Vec<u8>>) -> (r: Result<PeerId, IdFault>)
    ensures
        match decoded {
            None => r == Err::<PeerId, IdFault>(IdFault::NotHexadecimal),
            Some(bytes) => if bytes@.len() == 0 {
                r == Err::<PeerId, IdFault>(IdFault::Empty)
            } else if bytes@.len() > PEER_ID_MAX_SIZE {
                r == Err::<PeerId, IdFault>(IdFault::TooLong { size: bytes@.len() as usize })
            } else {
                r matches Ok(pid) && pid@ == bytes@
            },
        },
{
    match decoded {
        None => Err(IdFault::NotHexadecimal),
        Some(bytes) => {
            let size = bytes.len();
            if size == 0 {
                Err(IdFault::Empty)
            } else if size > PEER_ID_MAX_SIZE {
                Err(IdFault::TooLong { size })
            } else {
                match PeerId::new(bytes) {
                    Some(pid) => Ok(pid),
                    None => Err(IdFault::Empty),
                }
            }
        },
    }
}

impl PeerId {
    /// The peer id that a text writes in hexadecimal: between one and
    /// sixteen bytes, two digits each.
    pub fn from_hex(text: &str) -> (r: Result<PeerId, IdFault>)
        ensures
            match r {
                Ok(pid) => parse_pid(name_bytes(text@)) == Ok::<Seq<u8>, IdFault>(pid@),
                Err(fault) => parse_pid(name_bytes(text@)) == Err::<Seq<u8>, IdFault>(fault),
            },
    {
        pid_from_decoded(hex_decode(text))
    }

    /// A new peer id drawn at random: the sixteen bytes of a UUID of
    /// version four.
    pub fn random() -> (pid: PeerId)
        ensures
            pid@.len() == 16,
            pid@[6] / 16 == 4,
            pid@[8] / 64 == 2,
    {
        PeerId::new(random_uuid()).unwrap()
    }

    /// The peer id in upper-case hexadecimal.
    pub fn to_hex(&self) -> (text: String)
        ensures
            text@ == hex_encoded(self@),
    {
        hex_encode_upper(self.as_slice())
    }
}

impl Runtime {
    /// A runtime for a peer. With `id` the peer has the id that `id` writes
    /// in hexadecimal, between one and sixteen bytes, and it is an error
    /// where `id` writes none; without `id` the peer has an id drawn at
    /// random.
    pub fn new(version: u8, config: Config, id: Option<&str>) -> (r: ZResult<Runtime>)
        ensures
            match id {
                Some(text) => match parse_pid(name_bytes(text@)) {
                    Ok(pid) => r matches Ok(runtime) && runtime@ == pid,
                    Err(fault) => r matches Err(e) && e == (ZError::InvalidId { reason: fault }),
                },
                None => r matches Ok(runtime) && runtime@.len() == 16 && runtime@[6] / 16 == 4
                    && runtime@[8] / 64 == 2,
            },
            r matches Ok(runtime) ==> runtime.spec_state().version == version
                && runtime.spec_state().config@ == config@,
    {
        let pid = match id {
            Some(text) => match PeerId::from_hex(text) {
                Ok(pid) => pid,
                Err(reason) => {
                    return Err(ZError::InvalidId { reason });
                },
            },
            None => PeerId::random(),
        };
        Ok(Runtime { state: RuntimeState { pid, version, config } })
    }

    /// What the runtime holds, in specifications.
    pub closed spec fn spec_state(&self) -> RuntimeState {
        self.state
    }

    /// What the runtime holds.
    pub fn read(&self) -> (state: &RuntimeState)
        ensures
            *state == self.spec_state(),
            state.pid@ == self@,
    {
        &self.state
    }

    /// What the runtime holds, to be changed. The identity of the peer is
    /// what it is changed to.
    pub fn write(&mut self) -> (state: &mut RuntimeState)
        ensures
            *state == old(self).spec_state(),
            final(self).spec_state() == *final(state),
    {
        &mut self.state
    }

    /// The id of the peer in upper-case hexadecimal.
    pub fn get_pid_str(&self) -> (text: String)
        ensures
            text@ == hex_encoded(self@),
    {
        self.state.pid.to_hex()
    }
}

} // verus!
