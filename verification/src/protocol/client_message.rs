//! What clients send to servers.

use super::decode::{DecodeError, MessageField, MessageKind};
use super::server_message::{incomplete, ERROR_TAG};
use super::{remaining_slice, Identifier, SessionId};
use crate::bytes::{be32, be32_value, be64, be64_value, get_u32, get_u64, put_u32, put_u64};
use crate::text::utf8_text;
use vstd::prelude::*;
use vstd::slice::slice_subrange;
use vstd::utf8::{decode_utf8, encode_utf8, valid_utf8};

verus! {

pub const DISCOVER_TAG: u8 = 0xff;

pub const START_TAG: u8 = 0x00;

pub const DATA_TAG: u8 = 0x03;

/// What a data message has in front of its content: tag, identifier and offset.
pub const DATA_HEADER_SIZE: usize = 17;

/// A message from a client.
#[derive(Debug)]
pub enum ClientMessage<'data> {
    /// Which servers are there?
    Discover,
    /// A session is asked for, to transfer a file of this size and digest under this path.
    Start { session_id: SessionId, size: u64, hash: crate::protocol::Hash<'data>, path: &'data str },
    /// A part of the file, from this offset on.
    Data { id: Identifier, offset: u64, content: &'data [u8] },
    /// The transfer failed, for this reason.
    Error { id: Identifier, msg: &'data str },
}

/// What a client's message says.
pub enum ClientContent {
    Discover,
    Start { session_id: SessionId, size: u64, hash: Seq<u8>, path: Seq<char> },
    Data { id: Identifier, offset: u64, content: Seq<u8> },
    Error { id: Identifier, msg: Seq<char> },
}

impl View for ClientMessage<'_> {
    type V = ClientContent;

    open spec fn view(&self) -> ClientContent {
        match self {
            ClientMessage::Discover => ClientContent::Discover,
            ClientMessage::Start { session_id, size, hash, path } => ClientContent::Start {
                session_id: *session_id,
                size: *size,
                hash: hash@,
                path: path@,
            },
            ClientMessage::Data { id, offset, content } => ClientContent::Data {
                id: *id,
                offset: *offset,
                content: content@,
            },
            ClientMessage::Error { id, msg } => ClientContent::Error { id: *id, msg: msg@ },
        }
    }
}

/// A client's message, without the datagram's prefix: its tag, then its arguments in order.
pub open spec fn client_bytes(content: ClientContent) -> Seq<u8> {
    match content {
        ClientContent::Discover => seq![DISCOVER_TAG],
        ClientContent::Start { session_id, size, hash, path } => seq![START_TAG] + be32(
            session_id.0,
        ) + be64(size) + hash + encode_utf8(path),
        ClientContent::Data { id, offset, content } => seq![DATA_TAG] + be64(id.0) + be64(offset)
            + content,
        ClientContent::Error { id, msg } => seq![ERROR_TAG] + be64(id.0) + encode_utf8(msg),
    }
}

/// What a client's message says, read from what follows the datagram's prefix. Bytes behind a
/// `Discover` are of no account.
pub open spec fn parse_client(b: Seq<u8>) -> Result<ClientContent, DecodeError> {
    if b.len() == 0 {
        Err(DecodeError::EmptyPayload)
    } else if b[0] == DISCOVER_TAG {
        Ok(ClientContent::Discover)
    } else if b[0] == START_TAG {
        if b.len() < 5 {
            Err(incomplete(MessageKind::Start, MessageField::Session))
        } else if b.len() < 13 {
            Err(incomplete(MessageKind::Start, MessageField::Size))
        } else if b.len() < 45 {
            Err(incomplete(MessageKind::Start, MessageField::Hash))
        } else if !valid_utf8(b.skip(45)) {
            Err(DecodeError::InvalidUtf8)
        } else if b.len() == 45 {
            Err(DecodeError::EmptyPath)
        } else {
            Ok(
                ClientContent::Start {
                    session_id: SessionId(be32_value(b.skip(1))),
                    size: be64_value(b.skip(5)),
                    hash: b.subrange(13, 45),
                    path: decode_utf8(b.skip(45)),
                },
            )
        }
    } else if b[0] == DATA_TAG {
        if b.len() < 9 {
            Err(incomplete(MessageKind::Data, MessageField::Id))
        } else if b.len() < 17 {
            Err(incomplete(MessageKind::Data, MessageField::Offset))
        } else {
            Ok(
                ClientContent::Data {
                    id: Identifier(be64_value(b.skip(1))),
                    offset: be64_value(b.skip(9)),
                    content: b.skip(17),
                },
            )
        }
    } else if b[0] == ERROR_TAG {
        if b.len() < 9 {
            Err(incomplete(MessageKind::Error, MessageField::Id))
        } else if valid_utf8(b.skip(9)) {
            Ok(
                ClientContent::Error {
                    id: Identifier(be64_value(b.skip(1))),
                    msg: decode_utf8(b.skip(9)),
                },
            )
        } else {
            Err(DecodeError::InvalidUtf8)
        }
    } else {
        Err(DecodeError::UnexpectedTag(b[0]))
    }
}

/// How much of `available` content goes into a message that begins at `len` in a buffer of
/// `limit` bytes.
pub open spec fn content_room(len: nat, limit: nat, available: nat) -> nat {
    let room = if len + DATA_HEADER_SIZE <= limit {
        (limit - len - DATA_HEADER_SIZE) as nat
    } else {
        0
    };
    if available <= room {
        available
    } else {
        room
    }
}

impl<'data> ClientMessage<'data> {
    /// Appends the message, without the datagram's prefix.
    pub fn encode(&self, buf: &mut Vec<u8>)
        ensures
            final(buf)@ == old(buf)@ + client_bytes(self@),
    {
        let ghost before = buf@;
        match self {
            ClientMessage::Discover => {
                buf.push(DISCOVER_TAG);
            },
            ClientMessage::Start { session_id, size, hash, path } => {
                buf.push(START_TAG);
                put_u32(buf, session_id.0);
                put_u64(buf, *size);
                buf.extend_from_slice(hash.as_bytes());
                buf.extend_from_slice(path.as_bytes());
            },
            ClientMessage::Data { id, offset, content } => {
                buf.push(DATA_TAG);
                put_u64(buf, id.0);
                put_u64(buf, *offset);
                buf.extend_from_slice(content);
            },
            ClientMessage::Error { id, msg } => {
                buf.push(ERROR_TAG);
                put_u64(buf, id.0);
                buf.extend_from_slice(msg.as_bytes());
            },
        }
        assert(buf@ =~= before + client_bytes(self@));
    }

    /// Appends a data message with as much of `content`, which begins at `offset` in the file, as
    /// fits into a buffer of `limit` bytes. Tells how much that is.
    pub fn encode_data_msg(
        id: Identifier,
        offset: u64,
        content: &[u8],
        limit: usize,
        buf: &mut Vec<u8>,
    ) -> (read: usize)
        ensures
            read == content_room(old(buf)@.len(), limit as nat, content@.len()),
            final(buf)@ == old(buf)@ + client_bytes(
                ClientContent::Data { id, offset, content: content@.take(read as int) },
            ),
    {
        let total: usize = Self::encode_data_msg_sync(id, offset, content, limit, buf);
        total - DATA_HEADER_SIZE
    }

    /// As `encode_data_msg`, but tells the length of the whole message, its header counted in.
    pub fn encode_data_msg_sync(
        id: Identifier,
        offset: u64,
        content: &[u8],
        limit: usize,
        buf: &mut Vec<u8>,
    ) -> (total: usize)
        ensures
            total == DATA_HEADER_SIZE + content_room(
                old(buf)@.len(),
                limit as nat,
                content@.len(),
            ),
            final(buf)@ == old(buf)@ + client_bytes(
                ClientContent::Data {
                    id,
                    offset,
                    content: content@.take(total - DATA_HEADER_SIZE),
                },
            ),
    {
        let ghost before = buf@;
        let room: usize = limit.saturating_sub(buf.len()).saturating_sub(DATA_HEADER_SIZE);
        let read: usize = if content.len() <= room {
            content.len()
        } else {
            room
        };
        buf.push(DATA_TAG);
        put_u64(buf, id.0);
        put_u64(buf, offset);
        buf.extend_from_slice(slice_subrange(content, 0, read));
        assert(buf@ =~= before + client_bytes(
            ClientContent::Data { id, offset, content: content@.take(read as int) },
        ));
        DATA_HEADER_SIZE + read
    }

    /// Reads a message from what follows the datagram's prefix.
    pub fn decode(buf: &'data [u8]) -> (message: Result<Self, DecodeError>)
        ensures
            match message {
                Ok(m) => parse_client(buf@) == Ok::<ClientContent, DecodeError>(m@),
                Err(err) => parse_client(buf@) == Err::<ClientContent, DecodeError>(err),
            },
    {
        if buf.len() == 0 {
            return Err(DecodeError::EmptyPayload);
        }
        match buf[0] {
            DISCOVER_TAG => Ok(ClientMessage::Discover),
            START_TAG => Self::decode_start(buf),
            DATA_TAG => Self::decode_data(buf),
            ERROR_TAG => match get_u64(remaining_slice(buf, 1)) {
                Some(id) => match utf8_text(remaining_slice(buf, 9)) {
                    Some(msg) => Ok(ClientMessage::Error { id: Identifier(id), msg }),
                    None => Err(DecodeError::InvalidUtf8),
                },
                None => Err(
                    DecodeError::Incomplete { kind: MessageKind::Error, field: MessageField::Id },
                ),
            },
            other => Err(DecodeError::UnexpectedTag(other)),
        }
    }

    fn decode_start(buf: &'data [u8]) -> (message: Result<Self, DecodeError>)
        requires
            buf@.len() > 0,
            buf@[0] == START_TAG,
        ensures
            match message {
                Ok(m) => parse_client(buf@) == Ok::<ClientContent, DecodeError>(m@),
                Err(err) => parse_client(buf@) == Err::<ClientContent, DecodeError>(err),
            },
    {
        let kind = MessageKind::Start;
        let session_id: u32 = match get_u32(remaining_slice(buf, 1)) {
            Some(session_id) => session_id,
            None => return Err(DecodeError::Incomplete { kind, field: MessageField::Session }),
        };
        let size: u64 = match get_u64(remaining_slice(buf, 5)) {
            Some(size) => size,
            None => return Err(DecodeError::Incomplete { kind, field: MessageField::Size }),
        };
        if buf.len() < 45 {
            return Err(DecodeError::Incomplete { kind, field: MessageField::Hash });
        }
        let hash = match crate::protocol::Hash::try_from(slice_subrange(buf, 13, 45)) {
            Ok(hash) => hash,
            Err(_) => return Err(DecodeError::Incomplete { kind, field: MessageField::Hash }),
        };
        let path = match utf8_text(remaining_slice(buf, 45)) {
            Some(path) => path,
            None => return Err(DecodeError::InvalidUtf8),
        };
        if buf.len() == 45 {
            return Err(DecodeError::EmptyPath);
        }
        Ok(ClientMessage::Start { session_id: SessionId(session_id), size, hash, path })
    }

    fn decode_data(buf: &'data [u8]) -> (message: Result<Self, DecodeError>)
        requires
            buf@.len() > 0,
            buf@[0] == DATA_TAG,
        ensures
            match message {
                Ok(m) => parse_client(buf@) == Ok::<ClientContent, DecodeError>(m@),
                Err(err) => parse_client(buf@) == Err::<ClientContent, DecodeError>(err),
            },
    {
        let kind = MessageKind::Data;
        let id: u64 = match get_u64(remaining_slice(buf, 1)) {
            Some(id) => id,
            None => return Err(DecodeError::Incomplete { kind, field: MessageField::Id }),
        };
        let offset: u64 = match get_u64(remaining_slice(buf, 9)) {
            Some(offset) => offset,
            None => return Err(DecodeError::Incomplete { kind, field: MessageField::Offset }),
        };
        let content = remaining_slice(buf, 17);
        Ok(ClientMessage::Data { id: Identifier(id), offset, content })
    }
}

} // verus!
