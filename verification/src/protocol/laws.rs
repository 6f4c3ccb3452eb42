//! What holds of the wire format as a whole.

use super::client_message::{
    client_bytes, content_room, parse_client, ClientContent, DATA_HEADER_SIZE,
};
use super::datagram::{parse_client_datagram, parse_server_datagram, payload_of, prefix};
use super::decode::{DecodeError, MessageKind};
use super::server_message::{offsets_bytes, parse_server, server_bytes, ServerContent};
use super::{CHUNK_SIZE, DATAGRAM_SIZE_LIMIT};
use crate::bytes::{
    be32, be64, be64_value, lemma_be32_bytes, lemma_be32_value, lemma_be64_bytes,
    lemma_be64_prefix, lemma_be64_value,
};
use vstd::prelude::*;
use vstd::utf8::{
    decode_utf8, decode_utf8_encode_utf8, encode_utf8, encode_utf8_decode_utf8,
    encode_utf8_valid_utf8, valid_utf8,
};

verus! {

/// Whether a sequence begins with another.
pub open spec fn begins_with(b: Seq<u8>, head: Seq<u8>) -> bool {
    head.len() <= b.len() && b.take(head.len() as int) == head
}

/// Numbers in a row take eight bytes each, and each stands at its place.
pub(crate) proof fn lemma_offsets_bytes(offsets: Seq<u64>)
    ensures
        offsets_bytes(offsets).len() == 8 * offsets.len(),
        forall|i: int|
            0 <= i < offsets.len() ==> be64_value(
                #[trigger] offsets_bytes(offsets).skip(8 * i),
            ) == offsets[i],
    decreases offsets.len(),
{
    if offsets.len() > 0 {
        let init = offsets.drop_last();
        lemma_offsets_bytes(init);
        let b = offsets_bytes(offsets);
        assert forall|i: int| 0 <= i < offsets.len() implies be64_value(#[trigger] b.skip(8 * i))
            == offsets[i] by {
            if i < init.len() {
                let tail = offsets_bytes(init).skip(8 * i);
                assert(b.skip(8 * i) =~= tail + be64(offsets.last()));
                lemma_be64_prefix(tail, be64(offsets.last()));
                assert(be64_value(tail) == init[i]);
            } else {
                assert(b.skip(8 * i) =~= be64(offsets.last()) + Seq::<u8>::empty());
                lemma_be64_value(offsets.last(), Seq::<u8>::empty());
            }
        }
    }
}

/// A client reads from a server's message what the server put into it, whatever that is.
pub proof fn server_message_round_trip(content: ServerContent)
    ensures
        parse_server(server_bytes(content)) == Ok::<ServerContent, DecodeError>(content),
{
    let b = server_bytes(content);
    match content {
        ServerContent::Announce(name) => {
            assert(b.skip(1) =~= encode_utf8(name));
            encode_utf8_valid_utf8(name);
            encode_utf8_decode_utf8(name);
        },
        ServerContent::Ack { session_id, id } => {
            assert(b.skip(1) =~= be32(session_id.0) + be64(id.0));
            assert(b.skip(5) =~= be64(id.0) + Seq::<u8>::empty());
            lemma_be32_value(session_id.0, be64(id.0));
            lemma_be64_value(id.0, Seq::<u8>::empty());
        },
        ServerContent::Nack { session_id, msg } => {
            assert(b.skip(1) =~= be32(session_id.0) + encode_utf8(msg));
            assert(b.skip(5) =~= encode_utf8(msg));
            lemma_be32_value(session_id.0, encode_utf8(msg));
            encode_utf8_valid_utf8(msg);
            encode_utf8_decode_utf8(msg);
        },
        ServerContent::Error { id, msg } => {
            assert(b.skip(1) =~= be64(id.0) + encode_utf8(msg));
            assert(b.skip(9) =~= encode_utf8(msg));
            lemma_be64_value(id.0, encode_utf8(msg));
            encode_utf8_valid_utf8(msg);
            encode_utf8_decode_utf8(msg);
        },
        ServerContent::Repeat { id, offsets } => {
            let tail = offsets_bytes(offsets);
            assert(b.skip(1) =~= be64(id.0) + tail);
            lemma_be64_value(id.0, tail);
            lemma_offsets_bytes(offsets);
            let read = parse_server(b)->Ok_0->Repeat_offsets;
            assert forall|i: int| 0 <= i < offsets.len() implies read[i] == offsets[i] by {
                assert(b.skip(9 + 8 * i) =~= tail.skip(8 * i));
            }
            assert(read =~= offsets);
        },
        ServerContent::Done { id } => {
            assert(b.skip(1) =~= be64(id.0) + Seq::<u8>::empty());
            lemma_be64_value(id.0, Seq::<u8>::empty());
        },
    }
}

/// A server reads from a client's message what the client put into it. A session cannot be asked
/// for without a path, and a digest has 32 bytes.
pub proof fn client_message_round_trip(content: ClientContent)
    requires
        content matches ClientContent::Start { hash, path, .. } ==> hash.len() == 32 && path.len()
            > 0,
    ensures
        parse_client(client_bytes(content)) == Ok::<ClientContent, DecodeError>(content),
{
    let b = client_bytes(content);
    match content {
        ClientContent::Discover => {},
        ClientContent::Start { session_id, size, hash, path } => {
            let text = encode_utf8(path);
            assert(b.skip(1) =~= be32(session_id.0) + (be64(size) + hash + text));
            assert(b.skip(5) =~= be64(size) + (hash + text));
            assert(b.subrange(13, 45) =~= hash);
            assert(b.skip(45) =~= text);
            lemma_be32_value(session_id.0, be64(size) + hash + text);
            lemma_be64_value(size, hash + text);
            encode_utf8_valid_utf8(path);
            encode_utf8_decode_utf8(path);
            assert(text.len() > 0) by {
                if text.len() == 0 {
                    assert(decode_utf8(text) =~= seq![]);
                }
            }
        },
        ClientContent::Data { id, offset, content: part } => {
            assert(b.skip(1) =~= be64(id.0) + (be64(offset) + part));
            assert(b.skip(9) =~= be64(offset) + part);
            assert(b.skip(17) =~= part);
            lemma_be64_value(id.0, be64(offset) + part);
            lemma_be64_value(offset, part);
        },
        ClientContent::Error { id, msg } => {
            assert(b.skip(1) =~= be64(id.0) + encode_utf8(msg));
            assert(b.skip(9) =~= encode_utf8(msg));
            lemma_be64_value(id.0, encode_utf8(msg));
            encode_utf8_valid_utf8(msg);
            encode_utf8_decode_utf8(msg);
        },
    }
}

/// What a client accepts as a server's message begins with the very bytes that a server sends for
/// what was read.
pub proof fn accepted_server_message_is_an_encoding(b: Seq<u8>, content: ServerContent)
    requires
        parse_server(b) == Ok::<ServerContent, DecodeError>(content),
    ensures
        begins_with(b, server_bytes(content)),
{
    let e = server_bytes(content);
    match content {
        ServerContent::Announce(name) => {
            decode_utf8_encode_utf8(b.skip(1));
            assert(b =~= e);
            assert(b.take(e.len() as int) =~= e);
        },
        ServerContent::Ack { session_id, id } => {
            lemma_be32_bytes(b.skip(1));
            lemma_be64_bytes(b.skip(5));
            assert(b.take(13) =~= seq![b[0]] + b.skip(1).take(4) + b.skip(5).take(8));
            assert(b.take(e.len() as int) =~= e);
        },
        ServerContent::Nack { session_id, msg } => {
            lemma_be32_bytes(b.skip(1));
            decode_utf8_encode_utf8(b.skip(5));
            assert(b =~= seq![b[0]] + b.skip(1).take(4) + b.skip(5));
            assert(b.take(e.len() as int) =~= e);
        },
        ServerContent::Error { id, msg } => {
            lemma_be64_bytes(b.skip(1));
            decode_utf8_encode_utf8(b.skip(9));
            assert(b =~= seq![b[0]] + b.skip(1).take(8) + b.skip(9));
            assert(b.take(e.len() as int) =~= e);
        },
        ServerContent::Repeat { id, offsets } => {
            lemma_be64_bytes(b.skip(1));
            assert forall|i: int| 0 <= i < offsets.len() implies offsets[i] == be64_value(
                #[trigger] b.skip(9).skip(8 * i),
            ) by {
                assert(b.skip(9).skip(8 * i) =~= b.skip(9 + 8 * i));
            }
            lemma_offsets_prefix(b.skip(9), offsets);
            let n = offsets.len() as int;
            assert(b.take(9 + 8 * n) =~= seq![b[0]] + b.skip(1).take(8) + b.skip(9).take(8 * n));
            assert(b.take(e.len() as int) =~= e);
        },
        ServerContent::Done { id } => {
            lemma_be64_bytes(b.skip(1));
            assert(b.take(9) =~= seq![b[0]] + b.skip(1).take(8));
            assert(b.take(e.len() as int) =~= e);
        },
    }
}

/// What a server accepts as a client's message begins with the very bytes that a client sends for
/// what was read.
pub proof fn accepted_client_message_is_an_encoding(b: Seq<u8>, content: ClientContent)
    requires
        parse_client(b) == Ok::<ClientContent, DecodeError>(content),
    ensures
        begins_with(b, client_bytes(content)),
{
    let e = client_bytes(content);
    match content {
        ClientContent::Discover => {
            assert(b.take(1) =~= seq![b[0]]);
            assert(b.take(e.len() as int) =~= e);
        },
        ClientContent::Start { session_id, size, hash, path } => {
            lemma_be32_bytes(b.skip(1));
            lemma_be64_bytes(b.skip(5));
            decode_utf8_encode_utf8(b.skip(45));
            assert(b =~= seq![b[0]] + b.skip(1).take(4) + b.skip(5).take(8) + b.subrange(13, 45)
                + b.skip(45));
            assert(b.take(e.len() as int) =~= e);
        },
        ClientContent::Data { id, offset, content: part } => {
            lemma_be64_bytes(b.skip(1));
            lemma_be64_bytes(b.skip(9));
            assert(b =~= seq![b[0]] + b.skip(1).take(8) + b.skip(9).take(8) + b.skip(17));
            assert(b.take(e.len() as int) =~= e);
        },
        ClientContent::Error { id, msg } => {
            lemma_be64_bytes(b.skip(1));
            decode_utf8_encode_utf8(b.skip(9));
            assert(b =~= seq![b[0]] + b.skip(1).take(8) + b.skip(9));
            assert(b.take(e.len() as int) =~= e);
        },
    }
}

proof fn lemma_offsets_prefix(b: Seq<u8>, offsets: Seq<u64>)
    requires
        b.len() >= 8 * offsets.len(),
        forall|i: int|
            0 <= i < offsets.len() ==> offsets[i] == be64_value(#[trigger] b.skip(8 * i)),
    ensures
        b.take(8 * offsets.len() as int) == offsets_bytes(offsets),
    decreases offsets.len(),
{
    if offsets.len() == 0 {
        assert(b.take(0) =~= offsets_bytes(offsets));
    } else {
        let init = offsets.drop_last();
        let n = init.len() as int;
        lemma_offsets_prefix(b, init);
        assert(offsets[n] == be64_value(b.skip(8 * n)));
        lemma_be64_bytes(b.skip(8 * n));
        assert(b.take(8 * n + 8) =~= b.take(8 * n) + b.skip(8 * n).take(8));
    }
}

/// Datagrams carry messages unchanged, from servers to clients.
pub proof fn server_datagram_round_trip(content: ServerContent)
    ensures
        parse_server_datagram(prefix() + server_bytes(content)) == Ok::<ServerContent, DecodeError>(
            content,
        ),
{
    server_message_round_trip(content);
    assert((prefix() + server_bytes(content)).skip(3) =~= server_bytes(content));
}

/// Datagrams carry messages unchanged, from clients to servers.
pub proof fn client_datagram_round_trip(content: ClientContent)
    requires
        content matches ClientContent::Start { hash, path, .. } ==> hash.len() == 32 && path.len()
            > 0,
    ensures
        parse_client_datagram(prefix() + client_bytes(content)) == Ok::<ClientContent, DecodeError>(
            content,
        ),
{
    client_message_round_trip(content);
    assert((prefix() + client_bytes(content)).skip(3) =~= client_bytes(content));
}

/// No datagram without the prefix is taken for a message.
pub proof fn datagram_needs_prefix(datagram: Seq<u8>)
    ensures
        payload_of(datagram) is Ok <==> begins_with(datagram, prefix()),
{
    if payload_of(datagram) is Ok {
        assert(datagram.take(3) =~= prefix());
    } else if begins_with(datagram, prefix()) {
        assert(datagram.take(3)[0] == datagram[0]);
        assert(datagram.take(3)[1] == datagram[1]);
        assert(datagram.take(3)[2] == datagram[2]);
    }
}

/// A data message with a whole chunk is as long as a message may be, one with less is shorter.
pub proof fn chunk_fills_message(content: ClientContent)
    requires
        content is Data,
    ensures
        client_bytes(content).len() == DATA_HEADER_SIZE + content->content.len(),
        content->content.len() <= CHUNK_SIZE <==> client_bytes(content).len()
            <= DATAGRAM_SIZE_LIMIT,
{
}

/// The number that `count` bytes from `from` on stand for, the most significant first.
pub open spec fn number(b: Seq<u8>, from: int, count: nat) -> int
    decreases count,
{
    if count == 0 {
        0
    } else {
        number(b, from, (count - 1) as nat) * 256 + b[from + count - 1]
    }
}

proof fn lemma_number32(b: Seq<u8>, from: int, n: u32)
    requires
        0 <= from,
        from + 4 <= b.len(),
        b.subrange(from, from + 4) == be32(n),
    ensures
        number(b, from, 4) == n,
{
    reveal_with_fuel(number, 5);
    let s = b.subrange(from, from + 4);
    assert(s[0] == n / 0x100_0000);
    assert(s[1] == n / 0x1_0000 % 0x100);
    assert(s[2] == n / 0x100 % 0x100);
    assert(s[3] == n % 0x100);
    assert(b[from] == s[0] && b[from + 1] == s[1] && b[from + 2] == s[2] && b[from + 3] == s[3]);
}

proof fn lemma_number64(b: Seq<u8>, from: int, n: u64)
    requires
        0 <= from,
        from + 8 <= b.len(),
        b.subrange(from, from + 8) == be64(n),
    ensures
        number(b, from, 8) == n,
{
    let s = b.subrange(from, from + 8);
    let hi = (n / 0x1_0000_0000) as u32;
    let lo = (n % 0x1_0000_0000) as u32;
    assert(b.subrange(from, from + 4) =~= be32(hi)) by {
        assert(s.subrange(0, 4) =~= be32(hi));
        assert(b.subrange(from, from + 4) =~= s.subrange(0, 4));
    }
    assert(b.subrange(from + 4, from + 8) =~= be32(lo)) by {
        assert(s.subrange(4, 8) =~= be32(lo));
        assert(b.subrange(from + 4, from + 8) =~= s.subrange(4, 8));
    }
    lemma_number32(b, from, hi);
    lemma_number32(b, from + 4, lo);
    assert(number(b, from, 8) == number(b, from, 4) * 0x1_0000_0000 + number(b, from + 4, 4)) by {
        reveal_with_fuel(number, 5);
        assert(number(b, from, 5) == number(b, from, 4) * 256 + b[from + 4]);
        assert(number(b, from, 6) == number(b, from, 5) * 256 + b[from + 5]);
        assert(number(b, from, 7) == number(b, from, 6) * 256 + b[from + 6]);
        assert(number(b, from, 8) == number(b, from, 7) * 256 + b[from + 7]);
    }
}

/// Where everything stands in a server's message: the tag first, then the arguments, numbers with
/// the most significant byte first and texts in UTF-8.
pub proof fn server_messages_are_laid_out(content: ServerContent)
    ensures
        ({
            let b = server_bytes(content);
            match content {
                ServerContent::Announce(name) => b == seq![0xf0u8] + encode_utf8(name),
                ServerContent::Ack { session_id, id } => {
                    &&& b.len() == 13
                    &&& b[0] == 0x01
                    &&& number(b, 1, 4) == session_id.0
                    &&& number(b, 5, 8) == id.0
                },
                ServerContent::Nack { session_id, msg } => {
                    &&& b.len() >= 5
                    &&& b[0] == 0x02
                    &&& number(b, 1, 4) == session_id.0
                    &&& b.skip(5) == encode_utf8(msg)
                },
                ServerContent::Error { id, msg } => {
                    &&& b.len() >= 9
                    &&& b[0] == 0x04
                    &&& number(b, 1, 8) == id.0
                    &&& b.skip(9) == encode_utf8(msg)
                },
                ServerContent::Repeat { id, offsets } => {
                    &&& b.len() == 9 + 8 * offsets.len()
                    &&& b[0] == 0x05
                    &&& number(b, 1, 8) == id.0
                    &&& forall|i: int|
                        0 <= i < offsets.len() ==> number(b, 9 + 8 * i, 8) == #[trigger] offsets[i]
                },
                ServerContent::Done { id } => {
                    &&& b.len() == 9
                    &&& b[0] == 0x06
                    &&& number(b, 1, 8) == id.0
                },
            }
        }),
{
    let b = server_bytes(content);
    match content {
        ServerContent::Announce(name) => {},
        ServerContent::Ack { session_id, id } => {
            assert(b.subrange(1, 5) =~= be32(session_id.0));
            assert(b.subrange(5, 13) =~= be64(id.0));
            lemma_number32(b, 1, session_id.0);
            lemma_number64(b, 5, id.0);
        },
        ServerContent::Nack { session_id, msg } => {
            assert(b.subrange(1, 5) =~= be32(session_id.0));
            assert(b.skip(5) =~= encode_utf8(msg));
            lemma_number32(b, 1, session_id.0);
        },
        ServerContent::Error { id, msg } => {
            assert(b.subrange(1, 9) =~= be64(id.0));
            assert(b.skip(9) =~= encode_utf8(msg));
            lemma_number64(b, 1, id.0);
        },
        ServerContent::Repeat { id, offsets } => {
            let tail = offsets_bytes(offsets);
            lemma_offsets_bytes(offsets);
            assert(b.subrange(1, 9) =~= be64(id.0));
            lemma_number64(b, 1, id.0);
            assert forall|i: int| 0 <= i < offsets.len() implies number(b, 9 + 8 * i, 8)
                == #[trigger] offsets[i] by {
                let rest = tail.skip(8 * i);
                assert(be64_value(rest) == offsets[i]);
                lemma_be64_bytes(rest);
                assert(b.subrange(9 + 8 * i, 9 + 8 * i + 8) =~= rest.take(8));
                lemma_number64(b, 9 + 8 * i, offsets[i]);
            }
        },
        ServerContent::Done { id } => {
            assert(b.subrange(1, 9) =~= be64(id.0));
            lemma_number64(b, 1, id.0);
        },
    }
}

/// Where everything stands in a client's message, in the same way.
pub proof fn client_messages_are_laid_out(content: ClientContent)
    requires
        content matches ClientContent::Start { hash, .. } ==> hash.len() == 32,
    ensures
        ({
            let b = client_bytes(content);
            match content {
                ClientContent::Discover => b == seq![0xffu8],
                ClientContent::Start { session_id, size, hash, path } => {
                    &&& b.len() >= 45
                    &&& b[0] == 0x00
                    &&& number(b, 1, 4) == session_id.0
                    &&& number(b, 5, 8) == size
                    &&& b.subrange(13, 45) == hash
                    &&& b.skip(45) == encode_utf8(path)
                },
                ClientContent::Data { id, offset, content: part } => {
                    &&& b.len() >= 17
                    &&& b[0] == 0x03
                    &&& number(b, 1, 8) == id.0
                    &&& number(b, 9, 8) == offset
                    &&& b.skip(17) == part
                },
                ClientContent::Error { id, msg } => {
                    &&& b.len() >= 9
                    &&& b[0] == 0x04
                    &&& number(b, 1, 8) == id.0
                    &&& b.skip(9) == encode_utf8(msg)
                },
            }
        }),
{
    let b = client_bytes(content);
    match content {
        ClientContent::Discover => {},
        ClientContent::Start { session_id, size, hash, path } => {
            assert(b.subrange(1, 5) =~= be32(session_id.0));
            assert(b.subrange(5, 13) =~= be64(size));
            assert(b.subrange(13, 45) =~= hash);
            assert(b.skip(45) =~= encode_utf8(path));
            lemma_number32(b, 1, session_id.0);
            lemma_number64(b, 5, size);
        },
        ClientContent::Data { id, offset, content: part } => {
            assert(b.subrange(1, 9) =~= be64(id.0));
            assert(b.subrange(9, 17) =~= be64(offset));
            assert(b.skip(17) =~= part);
            lemma_number64(b, 1, id.0);
            lemma_number64(b, 9, offset);
        },
        ClientContent::Error { id, msg } => {
            assert(b.subrange(1, 9) =~= be64(id.0));
            assert(b.skip(9) =~= encode_utf8(msg));
            lemma_number64(b, 1, id.0);
        },
    }
}

/// Every datagram begins with the magic number and the version, and goes on with its message;
/// what does not begin so is refused, and why is told.
pub proof fn datagrams_are_laid_out(datagram: Seq<u8>)
    ensures
        prefix() == seq![0xffu8, 0x53u8, 0x00u8],
        match payload_of(datagram) {
            Ok(payload) => datagram == seq![0xffu8, 0x53u8, 0x00u8] + payload,
            Err(DecodeError::UnsupportedVersion(version)) => {
                &&& datagram.len() >= 3
                &&& datagram[0] == 0xff
                &&& datagram[1] == 0x53
                &&& datagram[2] == version
                &&& version != 0
            },
            Err(err) => {
                &&& err is MissingPrefix
                &&& datagram.len() < 3 || datagram[0] != 0xff || datagram[1] != 0x53
            },
        },
        datagram.len() >= 3 && datagram[0] == 0xff && datagram[1] == 0x53 && datagram[2] == 0
            ==> payload_of(datagram) is Ok,
{
    if payload_of(datagram) is Ok {
        assert(datagram =~= seq![0xffu8, 0x53u8, 0x00u8] + datagram.skip(3));
    }
}

/// Bytes behind a message whose last argument has a fixed length are of no account; nor are fewer
/// than eight bytes behind a list of offsets.
pub proof fn bytes_behind_a_message_are_ignored(
    content: ServerContent,
    discover: ClientContent,
    rest: Seq<u8>,
)
    requires
        content is Ack || content is Done || (content is Repeat && rest.len() < 8),
        discover is Discover,
    ensures
        parse_server(server_bytes(content) + rest) == Ok::<ServerContent, DecodeError>(content),
        parse_client(client_bytes(discover) + rest) == Ok::<ClientContent, DecodeError>(discover),
{
    let b = server_bytes(content) + rest;
    match content {
        ServerContent::Ack { session_id, id } => {
            assert(b.skip(1) =~= be32(session_id.0) + (be64(id.0) + rest));
            assert(b.skip(5) =~= be64(id.0) + rest);
            lemma_be32_value(session_id.0, be64(id.0) + rest);
            lemma_be64_value(id.0, rest);
        },
        ServerContent::Repeat { id, offsets } => {
            let tail = offsets_bytes(offsets);
            assert(b.skip(1) =~= be64(id.0) + (tail + rest));
            lemma_be64_value(id.0, tail + rest);
            lemma_offsets_bytes(offsets);
            let read = parse_server(b)->Ok_0->Repeat_offsets;
            assert(read.len() == offsets.len());
            assert forall|i: int| 0 <= i < offsets.len() implies read[i] == offsets[i] by {
                let part = tail.skip(8 * i);
                assert(b.skip(9 + 8 * i) =~= part + rest);
                assert(be64_value(part) == offsets[i]);
                lemma_be64_prefix(part, rest);
            }
            assert(read =~= offsets);
        },
        ServerContent::Done { id } => {
            assert(b.skip(1) =~= be64(id.0) + rest);
            lemma_be64_value(id.0, rest);
        },
        _ => {},
    }
}

/// What a server sent is refused for what is wrong with it: it is empty, begins with a tag that no
/// server's message has, ends before an argument that its tag asks for, or holds a text that is no
/// UTF-8.
pub proof fn refused_server_messages_are_wrong(b: Seq<u8>)
    ensures
        match parse_server(b) {
            Ok(_) => true,
            Err(DecodeError::MissingTag) => b.len() == 0,
            Err(DecodeError::UnexpectedTag(tag)) => {
                &&& b.len() > 0
                &&& tag == b[0]
                &&& tag != 0xf0 && tag != 1 && tag != 2 && tag != 4 && tag != 5 && tag != 6
            },
            Err(DecodeError::Incomplete { kind, field }) => {
                &&& b.len() > 0
                &&& match kind {
                    MessageKind::Ack => {
                        &&& b[0] == 1
                        &&& field is Session ==> b.len() < 5
                        &&& field is Id ==> 5 <= b.len() < 13
                        &&& field is Session || field is Id
                    },
                    MessageKind::Nack => b[0] == 2 && field is Session && b.len() < 5,
                    MessageKind::Error => b[0] == 4 && field is Id && b.len() < 9,
                    MessageKind::Repeat => b[0] == 5 && field is Id && b.len() < 9,
                    MessageKind::Done => b[0] == 6 && field is Id && b.len() < 9,
                    _ => false,
                }
            },
            Err(DecodeError::InvalidUtf8) => {
                &&& b.len() > 0
                &&& b[0] == 0xf0 ==> !valid_utf8(b.skip(1))
                &&& b[0] == 2 ==> b.len() >= 5 && !valid_utf8(b.skip(5))
                &&& b[0] == 4 ==> b.len() >= 9 && !valid_utf8(b.skip(9))
                &&& b[0] == 0xf0 || b[0] == 2 || b[0] == 4
            },
            Err(_) => false,
        },
{
}

/// What a client sent is refused for what is wrong with it, in the same way; and a session cannot
/// be asked for without a path.
pub proof fn refused_client_messages_are_wrong(b: Seq<u8>)
    ensures
        match parse_client(b) {
            Ok(_) => true,
            Err(DecodeError::EmptyPayload) => b.len() == 0,
            Err(DecodeError::UnexpectedTag(tag)) => {
                &&& b.len() > 0
                &&& tag == b[0]
                &&& tag != 0xff && tag != 0 && tag != 3 && tag != 4
            },
            Err(DecodeError::Incomplete { kind, field }) => {
                &&& b.len() > 0
                &&& match kind {
                    MessageKind::Start => {
                        &&& b[0] == 0
                        &&& field is Session ==> b.len() < 5
                        &&& field is Size ==> 5 <= b.len() < 13
                        &&& field is Hash ==> 13 <= b.len() < 45
                        &&& field is Session || field is Size || field is Hash
                    },
                    MessageKind::Data => {
                        &&& b[0] == 3
                        &&& field is Id ==> b.len() < 9
                        &&& field is Offset ==> 9 <= b.len() < 17
                        &&& field is Id || field is Offset
                    },
                    MessageKind::Error => b[0] == 4 && field is Id && b.len() < 9,
                    _ => false,
                }
            },
            Err(DecodeError::InvalidUtf8) => {
                &&& b.len() > 0
                &&& b[0] == 0 ==> b.len() >= 45 && !valid_utf8(b.skip(45))
                &&& b[0] == 4 ==> b.len() >= 9 && !valid_utf8(b.skip(9))
                &&& b[0] == 0 || b[0] == 4
            },
            Err(DecodeError::EmptyPath) => b.len() == 45 && b[0] == 0,
            Err(_) => false,
        },
{
}

/// A data message holds as much of what is there as fits behind its header: all of it, or so much
/// that the buffer is full; and no more than fits.
pub proof fn data_messages_are_filled(len: nat, limit: nat, available: nat)
    ensures
        content_room(len, limit, available) <= available,
        content_room(len, limit, available) > 0 ==> len + 17 + content_room(len, limit, available)
            <= limit,
        content_room(len, limit, available) < available ==> len + 17 + content_room(
            len,
            limit,
            available,
        ) >= limit,
{
}

} // verus!
