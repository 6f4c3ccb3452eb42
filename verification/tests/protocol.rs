use ffs::digest::FileHasher;
use ffs::protocol::decode::{DecodeError, MessageField, MessageKind};
use ffs::protocol::{
    remaining_slice, ClientMessage, Identifier, ServerMessage, SessionId, CHUNK_SIZE,
    DATAGRAM_SIZE_LIMIT,
};
use std::borrow::Cow;

fn server_bytes(msg: &ServerMessage<'_>) -> Vec<u8> {
    let mut buf = Vec::new();
    msg.encode(&mut buf);
    buf
}

fn client_bytes(msg: &ClientMessage<'_>) -> Vec<u8> {
    let mut buf = Vec::new();
    msg.encode(&mut buf);
    buf
}

fn digest() -> [u8; 32] {
    let mut bytes = [0u8; 32];
    for i in 0..32 {
        bytes[i] = i as u8;
    }
    bytes
}

fn server_error(bytes: &[u8]) -> DecodeError {
    match ServerMessage::decode(bytes) {
        Ok(_) => panic!("must not decode"),
        Err(err) => err,
    }
}

fn client_error(bytes: &[u8]) -> DecodeError {
    match ClientMessage::decode(bytes) {
        Ok(_) => panic!("must not decode"),
        Err(err) => err,
    }
}

#[test]
fn sizes() {
    assert_eq!(DATAGRAM_SIZE_LIMIT, 1452);
    assert_eq!(CHUNK_SIZE, 1435);
}

#[test]
fn server_messages_on_the_wire() {
    let session_id = SessionId(0x0102_0304);
    let id = Identifier(0x1112_1314_1516_1718);
    let id_bytes = [0x11, 0x12, 0x13, 0x14, 0x15, 0x16, 0x17, 0x18];

    assert_eq!(server_bytes(&ServerMessage::Announce("pi")), vec![0xf0, b'p', b'i']);

    let mut expected = vec![0x01, 1, 2, 3, 4];
    expected.extend_from_slice(&id_bytes);
    assert_eq!(server_bytes(&ServerMessage::Ack { session_id, id }), expected);

    assert_eq!(
        server_bytes(&ServerMessage::Nack { session_id, msg: "no" }),
        vec![0x02, 1, 2, 3, 4, b'n', b'o']
    );

    let mut expected = vec![0x04];
    expected.extend_from_slice(&id_bytes);
    expected.extend_from_slice("caf\u{e9}".as_bytes());
    assert_eq!(server_bytes(&ServerMessage::Error { id, msg: "caf\u{e9}" }), expected);

    let mut expected = vec![0x05];
    expected.extend_from_slice(&id_bytes);
    expected.extend_from_slice(&[0, 0, 0, 0, 0, 0, 0, 0, 0, 0, 0, 0, 0, 0, 5, 0x9b]);
    assert_eq!(
        server_bytes(&ServerMessage::Repeat { id, offsets: Cow::Owned(vec![0, 1435]) }),
        expected
    );

    let mut expected = vec![0x06];
    expected.extend_from_slice(&id_bytes);
    assert_eq!(server_bytes(&ServerMessage::Done { id }), expected);
}

#[test]
fn client_messages_on_the_wire() {
    assert_eq!(client_bytes(&ClientMessage::Discover), vec![0xff]);

    let start = ClientMessage::Start {
        session_id: SessionId(7),
        size: 258,
        hash: ffs::protocol::Hash::from(digest()),
        path: "a/b",
    };
    let mut expected = vec![0x00, 0, 0, 0, 7, 0, 0, 0, 0, 0, 0, 1, 2];
    expected.extend_from_slice(&digest());
    expected.extend_from_slice(b"a/b");
    assert_eq!(client_bytes(&start), expected);

    let data = ClientMessage::Data { id: Identifier(9), offset: 3, content: &[4, 5] };
    assert_eq!(
        client_bytes(&data),
        vec![0x03, 0, 0, 0, 0, 0, 0, 0, 9, 0, 0, 0, 0, 0, 0, 0, 3, 4, 5]
    );

    let error = ClientMessage::Error { id: Identifier(9), msg: "no" };
    assert_eq!(client_bytes(&error), vec![0x04, 0, 0, 0, 0, 0, 0, 0, 9, b'n', b'o']);
}

#[test]
fn server_messages_round_trip() {
    let id = Identifier(u64::MAX - 1);
    let session_id = SessionId(u32::MAX);
    let bytes = server_bytes(&ServerMessage::Announce("r\u{f6}hre"));
    assert!(matches!(ServerMessage::decode(&bytes), Ok(ServerMessage::Announce("r\u{f6}hre"))));
    let bytes = server_bytes(&ServerMessage::Ack { session_id, id });
    match ServerMessage::decode(&bytes) {
        Ok(ServerMessage::Ack { session_id: s, id: i }) => {
            assert_eq!(s, session_id);
            assert_eq!(i, id);
        }
        other => panic!("{:?}", other),
    }
    let bytes = server_bytes(&ServerMessage::Nack { session_id, msg: "" });
    match ServerMessage::decode(&bytes) {
        Ok(ServerMessage::Nack { session_id: s, msg }) => {
            assert_eq!(s, session_id);
            assert_eq!(msg, "");
        }
        other => panic!("{:?}", other),
    }
    let bytes = server_bytes(&ServerMessage::Error { id, msg: "Insufficient space." });
    match ServerMessage::decode(&bytes) {
        Ok(ServerMessage::Error { id: i, msg }) => {
            assert_eq!(i, id);
            assert_eq!(msg, "Insufficient space.");
        }
        other => panic!("{:?}", other),
    }
    let offsets = [0u64, 65507, 262028, u64::MAX];
    let bytes = server_bytes(&ServerMessage::Repeat { id, offsets: Cow::Borrowed(&offsets) });
    match ServerMessage::decode(&bytes) {
        Ok(ServerMessage::Repeat { id: i, offsets: read }) => {
            assert_eq!(i, id);
            assert_eq!(read.as_ref(), &offsets);
        }
        other => panic!("{:?}", other),
    }
    let bytes = server_bytes(&ServerMessage::Done { id });
    match ServerMessage::decode(&bytes) {
        Ok(ServerMessage::Done { id: i }) => assert_eq!(i, id),
        other => panic!("{:?}", other),
    }
}

#[test]
fn client_messages_round_trip() {
    let bytes = client_bytes(&ClientMessage::Discover);
    assert!(matches!(ClientMessage::decode(&bytes), Ok(ClientMessage::Discover)));
    let bytes = client_bytes(&ClientMessage::Start {
        session_id: SessionId(0xdead_beef),
        size: u64::MAX,
        hash: ffs::protocol::Hash::from(digest()),
        path: "caf\u{e9}",
    });
    match ClientMessage::decode(&bytes) {
        Ok(ClientMessage::Start { session_id, size, hash, path }) => {
            assert_eq!(session_id, SessionId(0xdead_beef));
            assert_eq!(size, u64::MAX);
            assert!(hash == ffs::protocol::Hash::from(digest()));
            assert_eq!(hash.into_owned().as_bytes(), &digest());
            assert_eq!(path, "caf\u{e9}");
        }
        other => panic!("{:?}", other),
    }
    let bytes = client_bytes(&ClientMessage::Data { id: Identifier(1), offset: 2, content: &[] });
    match ClientMessage::decode(&bytes) {
        Ok(ClientMessage::Data { id, offset, content }) => {
            assert_eq!(id, Identifier(1));
            assert_eq!(offset, 2);
            assert!(content.is_empty());
        }
        other => panic!("{:?}", other),
    }
    let bytes = client_bytes(&ClientMessage::Error { id: Identifier(1), msg: "d\u{e9}j\u{e0}" });
    match ClientMessage::decode(&bytes) {
        Ok(ClientMessage::Error { id, msg }) => {
            assert_eq!((id, msg), (Identifier(1), "d\u{e9}j\u{e0}"));
        }
        other => panic!("{:?}", other),
    }
}

#[test]
fn bytes_behind_a_message_are_ignored() {
    let mut bytes = server_bytes(&ServerMessage::Done { id: Identifier(3) });
    bytes.push(9);
    assert!(matches!(ServerMessage::decode(&bytes), Ok(ServerMessage::Done { id: Identifier(3) })));
    let mut bytes =
        server_bytes(&ServerMessage::Repeat { id: Identifier(3), offsets: Cow::Owned(vec![4]) });
    bytes.extend_from_slice(&[1, 2, 3]);
    match ServerMessage::decode(&bytes) {
        Ok(ServerMessage::Repeat { offsets, .. }) => assert_eq!(offsets.as_ref(), &[4u64]),
        other => panic!("{:?}", other),
    }
}

#[test]
fn server_messages_refused() {
    let cut = |kind, field| DecodeError::Incomplete { kind, field };
    assert_eq!(server_error(&[]), DecodeError::MissingTag);
    assert_eq!(server_error(&[0x07]), DecodeError::UnexpectedTag(7));
    assert_eq!(server_error(&[0xf0, 0xff]), DecodeError::InvalidUtf8);
    assert_eq!(server_error(&[0x01, 0, 0, 0]), cut(MessageKind::Ack, MessageField::Session));
    assert_eq!(server_error(&[0x01, 0, 0, 0, 0, 1]), cut(MessageKind::Ack, MessageField::Id));
    assert_eq!(server_error(&[0x02]), cut(MessageKind::Nack, MessageField::Session));
    assert_eq!(server_error(&[0x02, 0, 0, 0, 0, 0xc0]), DecodeError::InvalidUtf8);
    assert_eq!(server_error(&[0x04, 1]), cut(MessageKind::Error, MessageField::Id));
    assert_eq!(server_error(&[0x05, 0, 0, 0, 0]), cut(MessageKind::Repeat, MessageField::Id));
    assert_eq!(
        server_error(&[0x06, 0, 0, 0, 0, 0, 0, 0]),
        cut(MessageKind::Done, MessageField::Id)
    );
}

#[test]
fn client_messages_refused() {
    let cut = |kind, field| DecodeError::Incomplete { kind, field };
    assert_eq!(client_error(&[]), DecodeError::EmptyPayload);
    assert_eq!(client_error(&[0x42]), DecodeError::UnexpectedTag(0x42));
    assert_eq!(client_error(&[0; 4]), cut(MessageKind::Start, MessageField::Session));
    assert_eq!(client_error(&[0; 12]), cut(MessageKind::Start, MessageField::Size));
    assert_eq!(client_error(&[0; 44]), cut(MessageKind::Start, MessageField::Hash));
    assert_eq!(client_error(&[0; 45]), DecodeError::EmptyPath);
    let mut bytes = vec![0; 45];
    bytes.push(0x80);
    assert_eq!(client_error(&bytes), DecodeError::InvalidUtf8);
    assert_eq!(client_error(&[3; 8]), cut(MessageKind::Data, MessageField::Id));
    assert_eq!(client_error(&[3; 16]), cut(MessageKind::Data, MessageField::Offset));
    assert_eq!(client_error(&[4; 8]), cut(MessageKind::Error, MessageField::Id));
    assert_eq!(client_error(&[4, 0, 0, 0, 0, 0, 0, 0, 0, 0xff]), DecodeError::InvalidUtf8);
}

#[test]
fn errors_in_words() {
    assert_eq!(DecodeError::MissingPrefix.to_text(), "missing prefix");
    assert_eq!(DecodeError::UnsupportedVersion(0x1f).to_text(), "unsupported version: 0x1f");
    assert_eq!(DecodeError::MissingTag.to_text(), "missing tag");
    assert_eq!(DecodeError::EmptyPayload.to_text(), "empty payload");
    assert_eq!(DecodeError::InvalidUtf8.to_text(), "invalid utf-8");
    assert_eq!(DecodeError::EmptyPath.to_text(), "path must not be empty");
    assert_eq!(DecodeError::UnexpectedTag(7).to_text(), "unexpected tag: 0x7");
    assert_eq!(DecodeError::UnexpectedTag(0xab).to_text(), "unexpected tag: 0xab");
    let kinds = [
        (MessageKind::Ack, "ack"),
        (MessageKind::Nack, "nack"),
        (MessageKind::Error, "error"),
        (MessageKind::Repeat, "repeat"),
        (MessageKind::Done, "done"),
        (MessageKind::Start, "start"),
        (MessageKind::Data, "data"),
    ];
    let fields = [
        (MessageField::Session, "session"),
        (MessageField::Id, "id"),
        (MessageField::Size, "size"),
        (MessageField::Hash, "hash"),
        (MessageField::Offset, "offset"),
    ];
    for (kind, kind_name) in kinds {
        for (field, field_name) in fields {
            assert_eq!(
                DecodeError::Incomplete { kind, field }.to_text(),
                format!("incomplete {} message, could not read {}", kind_name, field_name)
            );
        }
    }
}

#[test]
fn datagrams_begin_with_the_prefix() {
    let datagram = ClientMessage::Discover.to_datagram();
    assert_eq!(datagram, vec![0xff, 0x53, 0x00, 0xff]);
    assert!(matches!(ClientMessage::from_datagram(&datagram), Ok(ClientMessage::Discover)));
    let datagram = ServerMessage::Announce("x").to_datagram();
    assert_eq!(datagram, vec![0xff, 0x53, 0x00, 0xf0, b'x']);
    assert!(matches!(ServerMessage::from_datagram(&datagram), Ok(ServerMessage::Announce("x"))));

    assert!(matches!(
        ClientMessage::from_datagram(&[0xff, 0x53]),
        Err(DecodeError::MissingPrefix)
    ));
    assert!(matches!(
        ClientMessage::from_datagram(&[0xff, 0x54, 0, 0xff]),
        Err(DecodeError::MissingPrefix)
    ));
    assert!(matches!(
        ServerMessage::from_datagram(&[0xff, 0x53, 1, 0xf0]),
        Err(DecodeError::UnsupportedVersion(1))
    ));
    assert!(matches!(
        ServerMessage::from_datagram(&[0xff, 0x53, 0]),
        Err(DecodeError::MissingTag)
    ));
}

#[test]
fn data_messages_fill_the_buffer() {
    let content = vec![7u8; 2000];
    let mut buf = Vec::new();
    let read =
        ClientMessage::encode_data_msg(Identifier(1), 2, &content, DATAGRAM_SIZE_LIMIT, &mut buf);
    assert_eq!(read as u64, CHUNK_SIZE);
    assert_eq!(buf.len(), DATAGRAM_SIZE_LIMIT);
    match ClientMessage::decode(&buf) {
        Ok(ClientMessage::Data { id, offset, content: sent }) => {
            assert_eq!((id, offset), (Identifier(1), 2));
            assert_eq!(sent, &content[..read]);
        }
        other => panic!("{:?}", other),
    }

    let mut buf = Vec::new();
    let total = ClientMessage::encode_data_msg_sync(
        Identifier(1),
        2,
        &content[..10],
        DATAGRAM_SIZE_LIMIT,
        &mut buf,
    );
    assert_eq!(total, 27);
    assert_eq!(buf.len(), 27);

    let mut buf = vec![0u8; 20];
    assert_eq!(ClientMessage::encode_data_msg(Identifier(1), 2, &content, 30, &mut buf), 0);
    assert_eq!(buf.len(), 37);
}

#[test]
fn numbers_in_words() {
    assert_eq!(SessionId(0).to_text(), "0000");
    assert_eq!(SessionId(0xf).to_text(), "000f");
    assert_eq!(SessionId(0xab).to_text(), "00ab");
    assert_eq!(SessionId(0xabc).to_text(), "0abc");
    assert_eq!(SessionId(0xdead_beef).to_text(), "deadbeef");
    assert_eq!(Identifier(0x1_0000_0000).to_text(), "100000000");
    assert_eq!(SessionId::from(5u32), SessionId(5));
    assert_eq!(Identifier::from(5u64), Identifier(5));
}

#[test]
fn random_numbers_differ() {
    let sessions: Vec<SessionId> = (0..16).map(|_| SessionId::random()).collect();
    assert!(sessions.iter().any(|s| *s != sessions[0]));
    let ids: Vec<Identifier> = (0..16).map(|_| Identifier::random()).collect();
    assert!(ids.iter().any(|s| *s != ids[0]));
}

#[test]
fn hashes() {
    let hash = ffs::protocol::Hash::from(digest());
    assert_eq!(
        hash.to_text(),
        "000102030405060708090a0b0c0d0e0f101112131415161718191a1b1c1d1e1f"
    );
    let owned = ffs::protocol::Hash::try_from(digest().to_vec()).unwrap();
    assert!(owned == hash);
    let mut other = digest();
    other[31] ^= 1;
    assert!(ffs::protocol::Hash::try_from(&other[..]).unwrap() != hash);
    assert_eq!(ffs::protocol::Hash::try_from(vec![1, 2, 3]), Err(vec![1, 2, 3]));
    assert!(ffs::protocol::Hash::try_from(&[0u8; 33][..]).is_err());
}

#[test]
fn digest_of_a_file() {
    let mut hasher = FileHasher::new(3);
    assert!(hasher.wants_more());
    hasher.update(b"a");
    assert!(hasher.wants_more());
    hasher.update(b"bc");
    assert!(!hasher.wants_more());
    assert_eq!(
        hasher.finish().to_text(),
        "ba7816bf8f01cfea414140de5dae2223b00361a396177a9cb410ff61f20015ad"
    );
    let empty = FileHasher::new(0);
    assert!(!empty.wants_more());
    assert_eq!(
        empty.finish().to_text(),
        "e3b0c44298fc1c149afbf4c8996fb92427ae41e4649b934ca495991b7852b855"
    );
}

#[test]
fn what_remains() {
    assert_eq!(remaining_slice(&[1, 2, 3], 1), &[2, 3]);
    assert!(remaining_slice(&[1, 2, 3], 3).is_empty());
}
