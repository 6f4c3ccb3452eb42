//! Messages as datagrams: every message goes behind a prefix that tells the protocol and its
//! version.

use super::client_message::{client_bytes, parse_client, ClientContent, ClientMessage};
use super::decode::DecodeError;
use super::remaining_slice;
use super::server_message::{parse_server, server_bytes, ServerContent, ServerMessage};
use vstd::prelude::*;

verus! {

/// The first byte of the magic number.
pub const MAGIC_FIRST: u8 = 0xff;

/// The second byte of the magic number.
pub const MAGIC_SECOND: u8 = 0x53;

/// The version of the protocol.
pub const VERSION: u8 = 0x00;

/// What every datagram begins with.
pub open spec fn prefix() -> Seq<u8> {
    seq![MAGIC_FIRST, MAGIC_SECOND, VERSION]
}

/// The message in a datagram.
pub open spec fn payload_of(datagram: Seq<u8>) -> Result<Seq<u8>, DecodeError> {
    if datagram.len() < 3 || datagram[0] != MAGIC_FIRST || datagram[1] != MAGIC_SECOND {
        Err(DecodeError::MissingPrefix)
    } else if datagram[2] != VERSION {
        Err(DecodeError::UnsupportedVersion(datagram[2]))
    } else {
        Ok(datagram.skip(3))
    }
}

/// What a server says with a datagram.
pub open spec fn parse_server_datagram(datagram: Seq<u8>) -> Result<ServerContent, DecodeError> {
    match payload_of(datagram) {
        Ok(payload) => parse_server(payload),
        Err(err) => Err(err),
    }
}

/// What a client says with a datagram.
pub open spec fn parse_client_datagram(datagram: Seq<u8>) -> Result<ClientContent, DecodeError> {
    match payload_of(datagram) {
        Ok(payload) => parse_client(payload),
        Err(err) => Err(err),
    }
}

/// A buffer that holds the prefix, for a message to be appended.
pub fn start_datagram() -> (buf: Vec<u8>)
    ensures
        buf@ == prefix(),
{
    let mut buf: Vec<u8> = Vec::new();
    buf.push(MAGIC_FIRST);
    buf.push(MAGIC_SECOND);
    buf.push(VERSION);
    assert(buf@ =~= prefix());
    buf
}

/// The message in a datagram.
pub fn open_datagram(datagram: &[u8]) -> (payload: Result<&[u8], DecodeError>)
    ensures
        match payload {
            Ok(bytes) => payload_of(datagram@) == Ok::<Seq<u8>, DecodeError>(bytes@),
            Err(err) => payload_of(datagram@) == Err::<Seq<u8>, DecodeError>(err),
        },
{
    if datagram.len() < 3 || datagram[0] != MAGIC_FIRST || datagram[1] != MAGIC_SECOND {
        Err(DecodeError::MissingPrefix)
    } else if datagram[2] != VERSION {
        Err(DecodeError::UnsupportedVersion(datagram[2]))
    } else {
        Ok(remaining_slice(datagram, 3))
    }
}

impl<'data> ServerMessage<'data> {
    /// The datagram that carries the message.
    pub fn to_datagram(&self) -> (datagram: Vec<u8>)
        ensures
            datagram@ == prefix() + server_bytes(self@),
    {
        let mut datagram = start_datagram();
        self.encode(&mut datagram);
        datagram
    }

    /// The message that a datagram carries.
    pub fn from_datagram(datagram: &'data [u8]) -> (message: Result<Self, DecodeError>)
        ensures
            match message {
                Ok(m) => parse_server_datagram(datagram@) == Ok::<ServerContent, DecodeError>(m@),
                Err(err) => parse_server_datagram(datagram@) == Err::<ServerContent, DecodeError>(
                    err,
                ),
            },
    {
        match open_datagram(datagram) {
            Ok(payload) => ServerMessage::decode(payload),
            Err(err) => Err(err),
        }
    }
}

impl<'data> ClientMessage<'data> {
    /// The datagram that carries the message.
    pub fn to_datagram(&self) -> (datagram: Vec<u8>)
        ensures
            datagram@ == prefix() + client_bytes(self@),
    {
        let mut datagram = start_datagram();
        self.encode(&mut datagram);
        datagram
    }

    /// The message that a datagram carries.
    pub fn from_datagram(datagram: &'data [u8]) -> (message: Result<Self, DecodeError>)
        ensures
            match message {
                Ok(m) => parse_client_datagram(datagram@) == Ok::<ClientContent, DecodeError>(m@),
                Err(err) => parse_client_datagram(datagram@) == Err::<ClientContent, DecodeError>(
                    err,
                ),
            },
    {
        match open_datagram(datagram) {
            Ok(payload) => ClientMessage::decode(payload),
            Err(err) => Err(err),
        }
    }
}

} // verus!
