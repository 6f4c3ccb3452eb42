//! What servers send to clients.

use super::decode::{DecodeError, MessageField, MessageKind};
use super::{remaining_slice, Identifier, SessionId};
use crate::bytes::{be32, be32_value, be64, be64_value, get_u32, get_u64, put_u32, put_u64};
use crate::text::utf8_text;
use std::borrow::Cow;
use vstd::prelude::*;
use vstd::utf8::{decode_utf8, encode_utf8, valid_utf8};

verus! {

pub const ANNOUNCE_TAG: u8 = 0xf0;

pub const ACK_TAG: u8 = 0x01;

pub const NACK_TAG: u8 = 0x02;

pub const ERROR_TAG: u8 = 0x04;

pub const REPEAT_TAG: u8 = 0x05;

pub const DONE_TAG: u8 = 0x06;

/// A message from a server.
#[derive(Debug)]
pub enum ServerMessage<'data> {
    /// A server makes itself known, by its name.
    Announce(&'data str),
    /// The session is accepted; the transfer goes by this identifier from here on.
    Ack { session_id: SessionId, id: Identifier },
    /// The session is rejected, for this reason.
    Nack { session_id: SessionId, msg: &'data str },
    /// The transfer failed, for this reason.
    Error { id: Identifier, msg: &'data str },
    /// The chunks at these offsets are missing.
    Repeat { id: Identifier, offsets: Cow<'data, [u64]> },
    /// Every chunk has arrived and the file is as announced.
    Done { id: Identifier },
}

/// What a server's message says.
pub enum ServerContent {
    Announce(Seq<char>),
    Ack { session_id: SessionId, id: Identifier },
    Nack { session_id: SessionId, msg: Seq<char> },
    Error { id: Identifier, msg: Seq<char> },
    Repeat { id: Identifier, offsets: Seq<u64> },
    Done { id: Identifier },
}

impl View for ServerMessage<'_> {
    type V = ServerContent;

    open spec fn view(&self) -> ServerContent {
        match self {
            ServerMessage::Announce(name) => ServerContent::Announce(name@),
            ServerMessage::Ack { session_id, id } => ServerContent::Ack {
                session_id: *session_id,
                id: *id,
            },
            ServerMessage::Nack { session_id, msg } => ServerContent::Nack {
                session_id: *session_id,
                msg: msg@,
            },
            ServerMessage::Error { id, msg } => ServerContent::Error { id: *id, msg: msg@ },
            ServerMessage::Repeat { id, offsets } => ServerContent::Repeat {
                id: *id,
                offsets: offsets@,
            },
            ServerMessage::Done { id } => ServerContent::Done { id: *id },
        }
    }
}

/// Numbers one after the other, eight bytes each.
pub open spec fn offsets_bytes(offsets: Seq<u64>) -> Seq<u8>
    decreases offsets.len(),
{
    if offsets.len() == 0 {
        seq![]
    } else {
        offsets_bytes(offsets.drop_last()) + be64(offsets.last())
    }
}

/// A server's message, without the datagram's prefix: its tag, then its arguments in order.
pub open spec fn server_bytes(content: ServerContent) -> Seq<u8> {
    match content {
        ServerContent::Announce(name) => seq![ANNOUNCE_TAG] + encode_utf8(name),
        ServerContent::Ack { session_id, id } => seq![ACK_TAG] + be32(session_id.0) + be64(id.0),
        ServerContent::Nack { session_id, msg } => seq![NACK_TAG] + be32(session_id.0)
            + encode_utf8(msg),
        ServerContent::Error { id, msg } => seq![ERROR_TAG] + be64(id.0) + encode_utf8(msg),
        ServerContent::Repeat { id, offsets } => seq![REPEAT_TAG] + be64(id.0) + offsets_bytes(
            offsets,
        ),
        ServerContent::Done { id } => seq![DONE_TAG] + be64(id.0),
    }
}

/// The error for a message that ends too soon.
pub open spec fn incomplete(kind: MessageKind, field: MessageField) -> DecodeError {
    DecodeError::Incomplete { kind, field }
}

/// What a server's message says, read from what follows the datagram's prefix. Bytes behind the
/// last argument, if that has a fixed length, are of no account.
pub open spec fn parse_server(b: Seq<u8>) -> Result<ServerContent, DecodeError> {
    if b.len() == 0 {
        Err(DecodeError::MissingTag)
    } else if b[0] == ANNOUNCE_TAG {
        if valid_utf8(b.skip(1)) {
            Ok(ServerContent::Announce(decode_utf8(b.skip(1))))
        } else {
            Err(DecodeError::InvalidUtf8)
        }
    } else if b[0] == ACK_TAG {
        if b.len() < 5 {
            Err(incomplete(MessageKind::Ack, MessageField::Session))
        } else if b.len() < 13 {
            Err(incomplete(MessageKind::Ack, MessageField::Id))
        } else {
            Ok(
                ServerContent::Ack {
                    session_id: SessionId(be32_value(b.skip(1))),
                    id: Identifier(be64_value(b.skip(5))),
                },
            )
        }
    } else if b[0] == NACK_TAG {
        if b.len() < 5 {
            Err(incomplete(MessageKind::Nack, MessageField::Session))
        } else if valid_utf8(b.skip(5)) {
            Ok(
                ServerContent::Nack {
                    session_id: SessionId(be32_value(b.skip(1))),
                    msg: decode_utf8(b.skip(5)),
                },
            )
        } else {
            Err(DecodeError::InvalidUtf8)
        }
    } else if b[0] == ERROR_TAG {
        if b.len() < 9 {
            Err(incomplete(MessageKind::Error, MessageField::Id))
        } else if valid_utf8(b.skip(9)) {
            Ok(
                ServerContent::Error {
                    id: Identifier(be64_value(b.skip(1))),
                    msg: decode_utf8(b.skip(9)),
                },
            )
        } else {
            Err(DecodeError::InvalidUtf8)
        }
    } else if b[0] == REPEAT_TAG {
        if b.len() < 9 {
            Err(incomplete(MessageKind::Repeat, MessageField::Id))
        } else {
            Ok(
                ServerContent::Repeat {
                    id: Identifier(be64_value(b.skip(1))),
                    offsets: Seq::new(
                        ((b.len() - 9) / 8) as nat,
                        |i: int| be64_value(b.skip(9 + 8 * i)),
                    ),
                },
            )
        }
    } else if b[0] == DONE_TAG {
        if b.len() < 9 {
            Err(incomplete(MessageKind::Done, MessageField::Id))
        } else {
            Ok(ServerContent::Done { id: Identifier(be64_value(b.skip(1))) })
        }
    } else {
        Err(DecodeError::UnexpectedTag(b[0]))
    }
}

impl<'data> ServerMessage<'data> {
    /// Appends the message, without the datagram's prefix.
    pub fn encode(&self, buf: &mut Vec<u8>)
        ensures
            final(buf)@ == old(buf)@ + server_bytes(self@),
    {
        let ghost before = buf@;
        match self {
            ServerMessage::Announce(name) => {
                buf.push(ANNOUNCE_TAG);
                buf.extend_from_slice(name.as_bytes());
            },
            ServerMessage::Ack { session_id, id } => {
                buf.push(ACK_TAG);
                put_u32(buf, session_id.0);
                put_u64(buf, id.0);
            },
            ServerMessage::Nack { session_id, msg } => {
                buf.push(NACK_TAG);
                put_u32(buf, session_id.0);
                buf.extend_from_slice(msg.as_bytes());
            },
            ServerMessage::Error { id, msg } => {
                buf.push(ERROR_TAG);
                put_u64(buf, id.0);
                buf.extend_from_slice(msg.as_bytes());
            },
            ServerMessage::Repeat { id, offsets } => {
                buf.push(REPEAT_TAG);
                put_u64(buf, id.0);
                let offsets: &[u64] = match offsets {
                    Cow::Borrowed(slice) => slice,
                    Cow::Owned(vec) => vec.as_slice(),
                };
                let ghost head = buf@;
                let mut i: usize = 0;
                while i < offsets.len()
                    invariant
                        i <= offsets@.len(),
                        buf@ == head + offsets_bytes(offsets@.take(i as int)),
                    decreases offsets.len() - i,
                {
                    put_u64(buf, offsets[i]);
                    i += 1;
                    assert(offsets@.take(i as int).drop_last() =~= offsets@.take(i - 1));
                    assert(buf@ =~= head + offsets_bytes(offsets@.take(i as int)));
                }
                assert(offsets@.take(i as int) =~= offsets@);
            },
            ServerMessage::Done { id } => {
                buf.push(DONE_TAG);
                put_u64(buf, id.0);
            },
        }
        assert(buf@ =~= before + server_bytes(self@));
    }

    /// Reads a message from what follows the datagram's prefix.
    pub fn decode(buf: &'data [u8]) -> (message: Result<Self, DecodeError>)
        ensures
            match message {
                Ok(m) => parse_server(buf@) == Ok::<ServerContent, DecodeError>(m@),
                Err(err) => parse_server(buf@) == Err::<ServerContent, DecodeError>(err),
            },
    {
        if buf.len() == 0 {
            return Err(DecodeError::MissingTag);
        }
        let args = remaining_slice(buf, 1);
        match buf[0] {
            ANNOUNCE_TAG => match utf8_text(args) {
                Some(name) => Ok(ServerMessage::Announce(name)),
                None => Err(DecodeError::InvalidUtf8),
            },
            ACK_TAG => match get_u32(args) {
                Some(session_id) => match get_u64(remaining_slice(buf, 5)) {
                    Some(id) => Ok(
                        ServerMessage::Ack { session_id: SessionId(session_id), id: Identifier(id) },
                    ),
                    None => Err(
                        DecodeError::Incomplete { kind: MessageKind::Ack, field: MessageField::Id },
                    ),
                },
                None => Err(
                    DecodeError::Incomplete {
                        kind: MessageKind::Ack,
                        field: MessageField::Session,
                    },
                ),
            },
            NACK_TAG => match get_u32(args) {
                Some(session_id) => match utf8_text(remaining_slice(buf, 5)) {
                    Some(msg) => Ok(ServerMessage::Nack { session_id: SessionId(session_id), msg }),
                    None => Err(DecodeError::InvalidUtf8),
                },
                None => Err(
                    DecodeError::Incomplete {
                        kind: MessageKind::Nack,
                        field: MessageField::Session,
                    },
                ),
            },
            ERROR_TAG => match get_u64(args) {
                Some(id) => match utf8_text(remaining_slice(buf, 9)) {
                    Some(msg) => Ok(ServerMessage::Error { id: Identifier(id), msg }),
                    None => Err(DecodeError::InvalidUtf8),
                },
                None => Err(
                    DecodeError::Incomplete { kind: MessageKind::Error, field: MessageField::Id },
                ),
            },
            REPEAT_TAG => match get_u64(args) {
                Some(id) => {
                    let offsets = decode_offsets(remaining_slice(buf, 9));
                    assert forall|i: int| 0 <= i < offsets@.len() implies offsets@[i]
                        == be64_value(buf@.skip(9 + 8 * i)) by {
                        assert(buf@.skip(9).skip(8 * i) =~= buf@.skip(9 + 8 * i));
                    }
                    assert(offsets@ =~= Seq::new(
                        ((buf@.len() - 9) / 8) as nat,
                        |i: int| be64_value(buf@.skip(9 + 8 * i)),
                    ));
                    Ok(ServerMessage::Repeat { id: Identifier(id), offsets: Cow::Owned(offsets) })
                },
                None => Err(
                    DecodeError::Incomplete { kind: MessageKind::Repeat, field: MessageField::Id },
                ),
            },
            DONE_TAG => match get_u64(args) {
                Some(id) => Ok(ServerMessage::Done { id: Identifier(id) }),
                None => Err(
                    DecodeError::Incomplete { kind: MessageKind::Done, field: MessageField::Id },
                ),
            },
            other => Err(DecodeError::UnexpectedTag(other)),
        }
    }
}

/// As many whole numbers as the bytes hold.
fn decode_offsets(bytes: &[u8]) -> (offsets: Vec<u64>)
    ensures
        offsets@ == Seq::new(bytes@.len() / 8, |i: int| be64_value(bytes@.skip(8 * i))),
{
    let count: usize = bytes.len() / 8;
    let mut offsets: Vec<u64> = Vec::with_capacity(count);
    let mut i: usize = 0;
    while i < count
        invariant
            count == bytes.len() / 8,
            i <= count,
            offsets@ == Seq::new(i as nat, |j: int| be64_value(bytes@.skip(8 * j))),
        decreases count - i,
    {
        if let Some(offset) = get_u64(remaining_slice(bytes, 8 * i)) {
            offsets.push(offset);
        }
        i += 1;
        assert(offsets@ =~= Seq::new(i as nat, |j: int| be64_value(bytes@.skip(8 * j))));
    }
    offsets
}

} // verus!
