//! What can be wrong with a received message.

use crate::text::{hexadecimal, push_hexadecimal};
use vstd::prelude::*;

verus! {

/// The kinds of message that can be cut short.
#[derive(Debug, Clone, Copy, PartialEq, Eq, Structural)]
pub enum MessageKind {
    Ack,
    Nack,
    Error,
    Repeat,
    Done,
    Start,
    Data,
}

/// The parts of a message that can be missing.
#[derive(Debug, Clone, Copy, PartialEq, Eq, Structural)]
pub enum MessageField {
    Session,
    Id,
    Size,
    Hash,
    Offset,
}

/// Why a received message is refused.
#[derive(Debug, Clone, Copy, PartialEq, Eq, Structural)]
pub enum DecodeError {
    /// The datagram does not begin with the magic number and a version.
    MissingPrefix,
    /// The datagram is of another version of the protocol.
    UnsupportedVersion(u8),
    /// There is not even a tag in what a server sent.
    MissingTag,
    /// There is not even a tag in what a client sent.
    EmptyPayload,
    /// The message ends before this part of it.
    Incomplete { kind: MessageKind, field: MessageField },
    /// A text is no valid UTF-8.
    InvalidUtf8,
    /// A session is asked for without saying for which file.
    EmptyPath,
    /// No message has this tag.
    UnexpectedTag(u8),
}

/// The name of a kind of message.
pub open spec fn kind_text(kind: MessageKind) -> Seq<char> {
    match kind {
        MessageKind::Ack => "ack"@,
        MessageKind::Nack => "nack"@,
        MessageKind::Error => "error"@,
        MessageKind::Repeat => "repeat"@,
        MessageKind::Done => "done"@,
        MessageKind::Start => "start"@,
        MessageKind::Data => "data"@,
    }
}

/// The name of a part of a message.
pub open spec fn field_text(field: MessageField) -> Seq<char> {
    match field {
        MessageField::Session => "session"@,
        MessageField::Id => "id"@,
        MessageField::Size => "size"@,
        MessageField::Hash => "hash"@,
        MessageField::Offset => "offset"@,
    }
}

/// What is shown of an error.
pub open spec fn error_text(err: DecodeError) -> Seq<char> {
    match err {
        DecodeError::MissingPrefix => "missing prefix"@,
        DecodeError::UnsupportedVersion(version) => "unsupported version: 0x"@ + hexadecimal(
            version as nat,
        ),
        DecodeError::MissingTag => "missing tag"@,
        DecodeError::EmptyPayload => "empty payload"@,
        DecodeError::Incomplete { kind, field } => "incomplete "@ + kind_text(kind)
            + " message, could not read "@ + field_text(field),
        DecodeError::InvalidUtf8 => "invalid utf-8"@,
        DecodeError::EmptyPath => "path must not be empty"@,
        DecodeError::UnexpectedTag(tag) => "unexpected tag: 0x"@ + hexadecimal(tag as nat),
    }
}

impl MessageKind {
    fn text(self) -> (text: &'static str)
        ensures
            text@ == kind_text(self),
    {
        match self {
            MessageKind::Ack => "ack",
            MessageKind::Nack => "nack",
            MessageKind::Error => "error",
            MessageKind::Repeat => "repeat",
            MessageKind::Done => "done",
            MessageKind::Start => "start",
            MessageKind::Data => "data",
        }
    }
}

impl MessageField {
    fn text(self) -> (text: &'static str)
        ensures
            text@ == field_text(self),
    {
        match self {
            MessageField::Session => "session",
            MessageField::Id => "id",
            MessageField::Size => "size",
            MessageField::Hash => "hash",
            MessageField::Offset => "offset",
        }
    }
}

impl DecodeError {
    /// The error in words.
    pub fn to_text(self) -> (text: String)
        ensures
            text@ == error_text(self),
    {
        let mut text = String::new();
        match self {
            DecodeError::MissingPrefix => text.append("missing prefix"),
            DecodeError::UnsupportedVersion(version) => {
                text.append("unsupported version: 0x");
                push_hexadecimal(&mut text, version as u128);
            },
            DecodeError::MissingTag => text.append("missing tag"),
            DecodeError::EmptyPayload => text.append("empty payload"),
            DecodeError::Incomplete { kind, field } => {
                text.append("incomplete ");
                text.append(kind.text());
                text.append(" message, could not read ");
                text.append(field.text());
            },
            DecodeError::InvalidUtf8 => text.append("invalid utf-8"),
            DecodeError::EmptyPath => text.append("path must not be empty"),
            DecodeError::UnexpectedTag(tag) => {
                text.append("unexpected tag: 0x");
                push_hexadecimal(&mut text, tag as u128);
            },
        }
        assert(text@ =~= error_text(self));
        text
    }
}

/// An error in words names what is wrong: the tag or version that was read, in hexadecimal, or the
/// kind of message and the part of it that is missing.
pub proof fn errors_name_what_is_wrong(byte: u8, kind: MessageKind, field: MessageField)
    ensures
        error_text(DecodeError::UnexpectedTag(byte)) == "unexpected tag: 0x"@ + hexadecimal(
            byte as nat,
        ),
        error_text(DecodeError::UnsupportedVersion(byte)) == "unsupported version: 0x"@
            + hexadecimal(byte as nat),
        error_text(DecodeError::Incomplete { kind, field }) == "incomplete "@ + kind_text(kind)
            + " message, could not read "@ + field_text(field),
        error_text(DecodeError::MissingPrefix) == "missing prefix"@,
        error_text(DecodeError::MissingTag) == "missing tag"@,
        error_text(DecodeError::EmptyPayload) == "empty payload"@,
        error_text(DecodeError::InvalidUtf8) == "invalid utf-8"@,
        error_text(DecodeError::EmptyPath) == "path must not be empty"@,
{
}

} // verus!
