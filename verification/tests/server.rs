use ffs::digest::FileHasher;
use ffs::network::server::{
    file_hashed, open_mode, ChunkOutcome, OpenMode, PendingChunk, PendingSession, PrepareStep,
    ReceivedFile, Reply, ServerAction, ServerContext, StartDecision, WriteStep,
};
use ffs::network::transfer::chunk_packet;
use ffs::network::PeerAddr;
use ffs::protocol::{ClientMessage, Identifier, ServerMessage, SessionId, CHUNK_SIZE};

const CHUNK: usize = CHUNK_SIZE as usize;
const ID: Identifier = Identifier(77);

fn peer(n: u32) -> PeerAddr {
    PeerAddr::V4 { ip: n, port: 9 }
}

fn hash(n: u8) -> ffs::protocol::Hash<'static> {
    ffs::protocol::Hash::from([n; 32])
}

fn pending(size: u64) -> PendingSession {
    PendingSession {
        src: peer(1),
        session_id: SessionId(5),
        size,
        hash: hash(1),
        path: String::from("a"),
    }
}

fn server(size: u64) -> ServerContext {
    let mut server = ServerContext::new(String::from("srv"));
    assert!(server.open_session(pending(size), ID, 1000).is_none());
    server
}

fn data(server: &mut ServerContext, offset: u64, len: usize) -> ServerAction {
    let content = vec![1u8; len];
    server.handle_message(peer(1), ClientMessage::Data { id: ID, offset, content: &content })
}

fn write(server: &mut ServerContext, offset: u64, len: usize, now: u64) -> ChunkOutcome {
    match data(server, offset, len) {
        ServerAction::WriteChunk(chunk) => {
            assert_eq!((chunk.id, chunk.offset, chunk.len), (ID, offset, len));
            server.chunk_written(chunk, None, now)
        }
        other => panic!("{:?}", other),
    }
}

fn expect_error(reply: &Reply, text: &str) {
    match ServerMessage::from_datagram(&reply.datagram) {
        Ok(ServerMessage::Error { id, msg }) => {
            assert_eq!(id, ID);
            assert_eq!(msg, text);
        }
        other => panic!("{:?}", other),
    }
}

fn requested(server: &ServerContext, now: u64) -> Vec<u64> {
    let requests = server.request_repetitions(now);
    assert_eq!(requests.len(), 1);
    assert_eq!(requests[0].id, ID);
    assert_eq!(requests[0].reply.dst, peer(1));
    match ServerMessage::from_datagram(&requests[0].reply.datagram) {
        Ok(ServerMessage::Repeat { id, offsets }) => {
            assert_eq!(id, ID);
            offsets.into_owned()
        }
        other => panic!("{:?}", other),
    }
}

#[test]
fn files_are_opened() {
    assert_eq!(
        open_mode(true),
        OpenMode { create: true, truncate: true, create_new: false }
    );
    assert_eq!(
        open_mode(false),
        OpenMode { create: false, truncate: false, create_new: true }
    );
}

#[test]
fn discovery_is_answered() {
    let mut server = ServerContext::new(String::from("srv"));
    match server.handle_message(peer(3), ClientMessage::Discover) {
        ServerAction::Reply(reply) => {
            assert_eq!(reply.dst, peer(3));
            assert!(matches!(
                ServerMessage::from_datagram(&reply.datagram),
                Ok(ServerMessage::Announce("srv"))
            ));
        }
        other => panic!("{:?}", other),
    }
}

#[test]
fn sessions_are_accepted() {
    let mut server = ServerContext::new(String::from("srv"));
    assert!(server.is_idle());
    let msg = ClientMessage::Start { session_id: SessionId(5), size: 9, hash: hash(2), path: "x/y" };
    let pending = match server.handle_message(peer(1), msg) {
        ServerAction::PrepareFile(pending) => pending,
        other => panic!("{:?}", other),
    };
    assert_eq!(pending.path, "x/y");
    assert_eq!((pending.src, pending.session_id, pending.size), (peer(1), SessionId(5), 9));
    assert!(pending.hash == hash(2));
    match server.file_prepared(&pending, None, ID) {
        StartDecision::Accept(reply) => {
            assert_eq!(reply.dst, peer(1));
            match ServerMessage::from_datagram(&reply.datagram) {
                Ok(ServerMessage::Ack { session_id, id }) => {
                    assert_eq!((session_id, id), (SessionId(5), ID));
                }
                other => panic!("{:?}", other),
            }
        }
        other => panic!("{:?}", other),
    }
    assert!(server.is_idle());
    assert!(server.open_session(pending, ID, 0).is_none());
    assert!(!server.is_idle());
    assert!(server.has_session(ID));
}

#[test]
fn paths_out_of_the_root_are_rejected() {
    for path in ["/etc/passwd", "../x", "a/../../x", ".."] {
        let mut server = ServerContext::new(String::from("srv"));
        let msg = ClientMessage::Start { session_id: SessionId(5), size: 9, hash: hash(2), path };
        match server.handle_message(peer(1), msg) {
            ServerAction::Reply(reply) => match ServerMessage::from_datagram(&reply.datagram) {
                Ok(ServerMessage::Nack { session_id, msg }) => {
                    assert_eq!(reply.dst, peer(1));
                    assert_eq!(session_id, SessionId(5));
                    assert_eq!(msg, "path must stay inside the root folder");
                }
                other => panic!("{:?}", other),
            },
            other => panic!("{:?}", other),
        }
        assert!(server.is_idle());
    }
}

#[test]
fn paths_may_go_up_inside_of_the_root() {
    let mut server = ServerContext::new(String::from("srv"));
    let path = "a/../b";
    let msg = ClientMessage::Start { session_id: SessionId(5), size: 9, hash: hash(2), path };
    match server.handle_message(peer(1), msg) {
        ServerAction::PrepareFile(pending) => assert_eq!(pending.path, "a/../b"),
        other => panic!("{:?}", other),
    }
}

#[test]
fn chunks_behind_the_end_do_not_hide_what_is_missing() {
    let mut server = server(3 * CHUNK_SIZE);
    write(&mut server, 5 * CHUNK_SIZE, 7, 1000);
    assert_eq!(requested(&server, 1200)[0], 0);
}

#[test]
fn chunks_out_of_range_end_the_session() {
    let mut server = server(3 * CHUNK_SIZE);
    match data(&mut server, u64::MAX - 10, CHUNK) {
        ServerAction::Reply(reply) => {
            expect_error(&reply, &format!("chunk {} is out of range", u64::MAX - 10))
        }
        other => panic!("{:?}", other),
    }
    assert!(!server.has_session(ID));
}

#[test]
fn chunks_of_the_largest_file() {
    let last = u64::MAX / CHUNK_SIZE * CHUNK_SIZE;
    let len = (u64::MAX - last) as usize;
    let mut server = server(u64::MAX);
    assert!(matches!(write(&mut server, last, len, 1), ChunkOutcome::Nothing));
}

#[test]
fn identifiers_are_unique() {
    let server = server(10);
    assert!(matches!(
        server.file_prepared(&pending(10), None, ID),
        StartDecision::IdentifierTaken
    ));
    assert!(matches!(
        server.file_prepared(&pending(10), None, Identifier(78)),
        StartDecision::Accept(_)
    ));
}

#[test]
fn sessions_are_rejected() {
    let server = ServerContext::new(String::from("srv"));
    let cases = [
        (PrepareStep::CreateParents, "failed to create parent directories: boom"),
        (PrepareStep::Open, "failed to open file: boom"),
        (PrepareStep::Allocate, "failed to pre-allocate file: boom"),
    ];
    for (step, text) in cases {
        match server.file_prepared(&pending(10), Some((step, String::from("boom"))), ID) {
            StartDecision::Reject(reply) => match ServerMessage::from_datagram(&reply.datagram) {
                Ok(ServerMessage::Nack { session_id, msg }) => {
                    assert_eq!(session_id, SessionId(5));
                    assert_eq!(msg, text);
                }
                other => panic!("{:?}", other),
            },
            other => panic!("{:?}", other),
        }
    }
}

#[test]
fn unknown_sessions_are_ignored() {
    let mut server = ServerContext::new(String::from("srv"));
    assert!(matches!(data(&mut server, 0, 5), ServerAction::Nothing));
    assert!(matches!(data(&mut server, u64::MAX, 5), ServerAction::Nothing));
    let chunk = PendingChunk { src: peer(1), id: ID, offset: 0, len: 5 };
    assert!(matches!(server.chunk_written(chunk, None, 0), ChunkOutcome::Nothing));
}

#[test]
fn chunks_of_a_wrong_length_end_the_session() {
    let size = 3 * CHUNK_SIZE;
    for (offset, len) in [(0, 0), (0, CHUNK - 1), (0, CHUNK + 1), (2 * CHUNK_SIZE, CHUNK + 1)] {
        let mut server = server(size);
        match data(&mut server, offset, len) {
            ServerAction::Reply(reply) => expect_error(
                &reply,
                &format!("chunk {} has unexpected length {}", offset, len),
            ),
            other => panic!("{:?}", other),
        }
        assert!(!server.has_session(ID));
    }
}

#[test]
fn file_arrives_in_any_order() {
    let size = 2 * CHUNK_SIZE + 10;
    let mut server = server(size);
    assert!(matches!(write(&mut server, 2 * CHUNK_SIZE, 10, 1), ChunkOutcome::Nothing));
    assert!(matches!(write(&mut server, 0, CHUNK, 2), ChunkOutcome::Nothing));
    assert!(matches!(data(&mut server, 0, CHUNK), ServerAction::Nothing));
    assert!(server.has_session(ID));
    match write(&mut server, CHUNK_SIZE, CHUNK, 3) {
        ChunkOutcome::Verify(file) => {
            assert_eq!((file.id, file.size, file.src), (ID, size, peer(1)));
            assert!(file.hash == hash(1));
        }
        other => panic!("{:?}", other),
    }
    assert!(server.is_idle());
}

#[test]
fn complete_file_is_done() {
    let file: Vec<u8> = (0..3000u32).map(|n| (n * 7) as u8).collect();
    let mut hasher = FileHasher::new(3000);
    hasher.update(&file);
    let mut announced = pending(3000);
    announced.hash = hasher.finish();
    let mut server = ServerContext::new(String::from("srv"));
    assert!(server.open_session(announced, ID, 0).is_none());

    let mut copy = vec![0u8; 3000];
    let mut replies = Vec::new();
    for k in [1usize, 2, 1, 0] {
        let start = k * CHUNK;
        let end = if start + CHUNK < 3000 { start + CHUNK } else { 3000 };
        let (packet, _) = chunk_packet(ID, start as u64, &file[start..end]);
        let msg = ClientMessage::from_datagram(&packet).unwrap();
        if let ServerAction::WriteChunk(chunk) = server.handle_message(peer(1), msg) {
            copy[start..end].copy_from_slice(&file[start..end]);
            if let ChunkOutcome::Verify(received) = server.chunk_written(chunk, None, 1) {
                let mut hasher = FileHasher::new(received.size);
                hasher.update(&copy);
                replies.push(file_hashed(received, Ok(hasher.finish())));
            }
        }
    }
    assert_eq!(copy, file);
    assert_eq!(replies.len(), 1);
    match ServerMessage::from_datagram(&replies[0].datagram) {
        Ok(ServerMessage::Done { id }) => assert_eq!(id, ID),
        other => panic!("{:?}", other),
    }
}

#[test]
fn failed_writes_end_the_session() {
    let cases = [
        (WriteStep::Seek, "at chunk 1435, error seeking: full"),
        (WriteStep::Write, "at chunk 1435, error writing: full"),
    ];
    for (step, text) in cases {
        let mut server = server(4000);
        let chunk = match data(&mut server, CHUNK_SIZE, CHUNK) {
            ServerAction::WriteChunk(chunk) => chunk,
            other => panic!("{:?}", other),
        };
        match server.chunk_written(chunk, Some((step, String::from("full"))), 1) {
            ChunkOutcome::Reply(reply) => expect_error(&reply, text),
            other => panic!("{:?}", other),
        }
        assert!(server.is_idle());
    }
}

#[test]
fn too_much_data_ends_the_session() {
    let mut server = server(10);
    match write(&mut server, 0, 11, 1) {
        ChunkOutcome::Reply(reply) => {
            expect_error(&reply, "payload overflow: received 11 bytes, expected 10")
        }
        other => panic!("{:?}", other),
    }
    assert!(server.is_idle());
}

#[test]
fn files_are_checked() {
    let file = || ReceivedFile { src: peer(1), id: ID, size: 1, hash: hash(0xab) };
    match ServerMessage::from_datagram(&file_hashed(file(), Ok(hash(0xab))).datagram) {
        Ok(ServerMessage::Done { id }) => assert_eq!(id, ID),
        other => panic!("{:?}", other),
    }
    expect_error(
        &file_hashed(file(), Ok(hash(0xcd))),
        &format!("mismatched hash! got {}, expected {}", "cd".repeat(32), "ab".repeat(32)),
    );
    expect_error(
        &file_hashed(file(), Err(String::from("gone"))),
        "error calculating hash: gone",
    );
}

#[test]
fn missing_chunks_are_asked_for() {
    let mut server = server(5 * CHUNK_SIZE + 7);
    assert_eq!(
        requested(&server, 1200),
        vec![0, 1435, 2870, 4305, 5740, 7175]
    );
    write(&mut server, CHUNK_SIZE, CHUNK, 2000);
    write(&mut server, 3 * CHUNK_SIZE, CHUNK, 2000);
    assert!(server.request_repetitions(2199).is_empty());
    assert_eq!(requested(&server, 2200), vec![0, 2870, 5740, 7175]);
    write(&mut server, 0, CHUNK, 3000);
    write(&mut server, 5 * CHUNK_SIZE, 7, 3000);
    assert_eq!(requested(&server, 3200), vec![2870, 5740]);
}

#[test]
fn last_chunk_of_one_byte_is_asked_for() {
    let mut server = server(CHUNK_SIZE + 1);
    assert_eq!(requested(&server, 5000), vec![0, 1435]);
    write(&mut server, 0, CHUNK, 6000);
    assert_eq!(requested(&server, 7000), vec![1435]);
}

#[test]
fn every_missing_chunk_is_named() {
    let mut server = server(2 * CHUNK_SIZE + 1);
    write(&mut server, 0, CHUNK, 6000);
    assert_eq!(requested(&server, 7000), vec![1435, 2870]);
}

#[test]
fn requests_fit_into_a_message() {
    let server = server(1000 * CHUNK_SIZE);
    let offsets = requested(&server, 5000);
    assert_eq!(offsets.len(), 180);
    for i in 0..180u64 {
        assert_eq!(offsets[i as usize], i * CHUNK_SIZE);
    }
}

#[test]
fn empty_file_is_checked_at_once() {
    let mut server = ServerContext::new(String::from("srv"));
    let file = server.open_session(pending(0), ID, 1000).unwrap();
    assert_eq!((file.src, file.id, file.size), (peer(1), ID, 0));
    assert!(file.hash == hash(1));
    assert!(server.is_idle());
    assert!(server.request_repetitions(5000).is_empty());
}

#[test]
fn client_errors_end_the_session() {
    let mut server = server(4000);
    let other = ClientMessage::Error { id: Identifier(1), msg: "gone" };
    assert!(matches!(server.handle_message(peer(1), other), ServerAction::Nothing));
    assert!(server.has_session(ID));
    let error = ClientMessage::Error { id: ID, msg: "gone" };
    assert!(matches!(server.handle_message(peer(1), error), ServerAction::Nothing));
    assert!(!server.has_session(ID));
    assert!(matches!(data(&mut server, 0, CHUNK), ServerAction::Nothing));
}
