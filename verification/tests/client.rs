use ffs::network::client::{
    start_request, ClientCommand, ClientContext, CommandOutcome, Delivery, FileHandlerCmd,
    ReadStep, SessionCommand, SessionContext, SessionInstruction,
};
use ffs::network::transfer::{chunk_packet, Transmission};
use ffs::network::PeerAddr;
use ffs::protocol::{ClientMessage, Identifier, ServerMessage, SessionId, CHUNK_SIZE};
use ffs::tui::{handle_event, Action, InputEvent};
use std::borrow::Cow;

const ONE: SessionId = SessionId(1);
const TWO: SessionId = SessionId(2);
const ID: Identifier = Identifier(77);

fn peer(n: u32) -> PeerAddr {
    PeerAddr::V4 { ip: n, port: 9 }
}

fn session(client: &mut ClientContext, id: SessionId) -> SessionContext<String> {
    let path = String::from("dir/file");
    match client.handle_cmd(ClientCommand::CreateSession { path }, id) {
        CommandOutcome::Session(session_id, session) => {
            assert_eq!(session_id, id);
            session
        }
        other => panic!("{:?}", other),
    }
}

fn only(mut deliveries: Vec<Delivery>) -> (SessionId, SessionCommand) {
    assert_eq!(deliveries.len(), 1);
    let delivery = deliveries.remove(0);
    (delivery.session_id, delivery.cmd)
}

fn discovering() -> ClientContext {
    let mut client = ClientContext::new();
    match client.handle_cmd(ClientCommand::<String>::StartDiscovery, ONE) {
        CommandOutcome::Discover(datagram) => assert!(matches!(
            ClientMessage::from_datagram(&datagram),
            Ok(ClientMessage::Discover)
        )),
        other => panic!("{:?}", other),
    }
    client
}

#[test]
fn servers_are_discovered() {
    let mut client = discovering();
    let mut first = session(&mut client, ONE);
    session(&mut client, TWO);
    let deliveries = client.handle_server_msg(&ServerMessage::Announce("a"), peer(1));
    let mut ids: Vec<u32> = deliveries.iter().map(|d| d.session_id.0).collect();
    ids.sort();
    assert_eq!(ids, vec![1, 2]);
    for delivery in deliveries {
        match delivery.cmd {
            SessionCommand::AddNeighbor(addr) => assert_eq!(addr, peer(1)),
            other => panic!("{:?}", other),
        }
    }
    let (next, cmd) = first.handle_session_cmd(SessionCommand::AddNeighbor(peer(1)));
    assert_eq!(next, SessionInstruction::Continue);
    assert!(cmd.is_none());
    assert!(matches!(
        client.handle_cmd(ClientCommand::<String>::StopDiscovery, ONE),
        CommandOutcome::Nothing
    ));
    assert!(client.handle_server_msg(&ServerMessage::Announce("b"), peer(2)).is_empty());
}

#[test]
fn sessions_begin_with_known_servers() {
    let mut client = discovering();
    assert!(client.handle_server_msg(&ServerMessage::Announce("a"), peer(1)).is_empty());
    assert!(client.handle_server_msg(&ServerMessage::Announce("b"), peer(2)).is_empty());
    let mut one = session(&mut client, ONE);
    let done = |session: &mut SessionContext<String>, n| {
        session.handle_session_cmd(SessionCommand::RemoveNeighbor(peer(n))).0
    };
    assert_eq!(done(&mut one, 1), SessionInstruction::Continue);
    assert_eq!(done(&mut one, 1), SessionInstruction::Continue);
    assert_eq!(done(&mut one, 2), SessionInstruction::Stop);
}

#[test]
fn session_numbers_do_not_clash() {
    let mut client = ClientContext::new();
    session(&mut client, ONE);
    assert!(matches!(
        client.handle_cmd(ClientCommand::CreateSession { path: "x" }, ONE),
        CommandOutcome::SessionIdTaken("x")
    ));
    client.session_ended(ONE);
    session(&mut client, ONE);
}

#[test]
fn accepted_session_runs_to_its_end() {
    let mut client = ClientContext::new();
    let mut running = session(&mut client, ONE);
    match running.begin().into_owned() {
        FileHandlerCmd::Start { path, session_id } => {
            assert_eq!((path.as_str(), session_id), ("dir/file", ONE));
        }
        other => panic!("{:?}", other),
    }
    let ack = ServerMessage::Ack { session_id: ONE, id: ID };

    let (to, cmd) = only(client.handle_server_msg(&ack, peer(1)));
    assert_eq!(to, ONE);
    match running.handle_session_cmd(cmd) {
        (SessionInstruction::Continue, Some(FileHandlerCmd::Transmit { path, id, addr })) => {
            assert_eq!((path.as_str(), id, addr), ("dir/file", ID, peer(1)));
        }
        other => panic!("{:?}", other),
    }
    assert!(client.handle_server_msg(&ack, peer(1)).is_empty());
    assert!(!client.is_idle());

    let repeat = ServerMessage::Repeat { id: ID, offsets: Cow::Owned(vec![0, 1435]) };
    assert!(client.handle_server_msg(&repeat, peer(2)).is_empty());
    let (to, cmd) = only(client.handle_server_msg(&repeat, peer(1)));
    assert_eq!(to, ONE);
    match running.handle_session_cmd(cmd) {
        (
            SessionInstruction::Continue,
            Some(FileHandlerCmd::TransmitChunks { path, id, addr, chunks }),
        ) => {
            assert_eq!(path, "dir/file");
            assert_eq!((id, addr), (ID, peer(1)));
            assert_eq!(chunks, vec![0, 1435]);
        }
        other => panic!("{:?}", other),
    }

    let (to, cmd) = only(client.handle_server_msg(&ServerMessage::Done { id: ID }, peer(1)));
    assert_eq!(to, ONE);
    assert!(matches!(cmd, SessionCommand::RemoveNeighbor(addr) if addr == peer(1)));
    assert_eq!(running.handle_session_cmd(cmd).0, SessionInstruction::Stop);
    assert!(client.is_idle());
    assert!(client.handle_server_msg(&ServerMessage::Done { id: ID }, peer(1)).is_empty());
}

#[test]
fn rejections_and_errors_remove_the_server() {
    let mut client = ClientContext::new();
    session(&mut client, ONE);
    let nack = ServerMessage::Nack { session_id: ONE, msg: "no" };
    let (to, cmd) = only(client.handle_server_msg(&nack, peer(4)));
    assert_eq!(to, ONE);
    assert!(matches!(cmd, SessionCommand::RemoveNeighbor(addr) if addr == peer(4)));

    only(client.handle_server_msg(&ServerMessage::Ack { session_id: ONE, id: ID }, peer(5)));
    let error = ServerMessage::Error { id: ID, msg: "Insufficient space." };
    assert!(client.handle_server_msg(&error, peer(4)).is_empty());
    let (to, cmd) = only(client.handle_server_msg(&error, peer(5)));
    assert_eq!(to, ONE);
    assert!(matches!(cmd, SessionCommand::RemoveNeighbor(addr) if addr == peer(5)));
    assert!(client.handle_server_msg(&error, peer(5)).is_empty());
}

#[test]
fn failed_transfers_are_reported() {
    let cases = [
        (ReadStep::Open, "failed to open file: boom"),
        (ReadStep::Inspect, "failed to fetch file stats: boom"),
        (ReadStep::Read, "failed to read file: boom"),
    ];
    for (step, text) in cases {
        let mut client = ClientContext::new();
        session(&mut client, ONE);
        only(client.handle_server_msg(&ServerMessage::Ack { session_id: ONE, id: ID }, peer(1)));
        let failure = client.transfer_failed(peer(1), ID, step, "boom");
        match ClientMessage::from_datagram(&failure.report) {
            Ok(ClientMessage::Error { id, msg }) => assert_eq!((id, msg), (ID, text)),
            other => panic!("{:?}", other),
        }
        let (to, cmd) = only(failure.deliveries);
        assert_eq!(to, ONE);
        assert!(matches!(cmd, SessionCommand::RemoveNeighbor(addr) if addr == peer(1)));

        let repeat = ServerMessage::Repeat { id: ID, offsets: Cow::Owned(vec![0]) };
        assert!(client.handle_server_msg(&repeat, peer(1)).is_empty());
        assert!(client.transfer_failed(peer(1), ID, step, "boom").deliveries.is_empty());
    }
}

#[test]
fn unknown_sessions_are_left_alone() {
    let mut client = ClientContext::new();
    let messages = [
        ServerMessage::Ack { session_id: ONE, id: ID },
        ServerMessage::Nack { session_id: ONE, msg: "" },
        ServerMessage::Error { id: ID, msg: "" },
        ServerMessage::Repeat { id: ID, offsets: Cow::Owned(vec![1]) },
        ServerMessage::Done { id: ID },
    ];
    for msg in &messages {
        assert!(client.handle_server_msg(msg, peer(1)).is_empty());
    }
}

#[test]
fn ended_sessions_are_forgotten() {
    let mut client = ClientContext::new();
    session(&mut client, ONE);
    session(&mut client, TWO);
    only(client.handle_server_msg(&ServerMessage::Ack { session_id: ONE, id: ID }, peer(1)));
    let other = Identifier(78);
    only(client.handle_server_msg(&ServerMessage::Ack { session_id: TWO, id: other }, peer(1)));
    client.session_ended(ONE);
    assert!(client.handle_server_msg(&ServerMessage::Done { id: ID }, peer(1)).is_empty());
    let (to, _) = only(client.handle_server_msg(&ServerMessage::Done { id: other }, peer(1)));
    assert_eq!(to, TWO);
}

#[test]
fn servers_may_choose_one_identifier() {
    let mut client = ClientContext::new();
    session(&mut client, ONE);
    session(&mut client, TWO);
    only(client.handle_server_msg(&ServerMessage::Ack { session_id: ONE, id: ID }, peer(1)));
    only(client.handle_server_msg(&ServerMessage::Ack { session_id: TWO, id: ID }, peer(2)));
    let done = ServerMessage::Done { id: ID };
    assert_eq!(only(client.handle_server_msg(&done, peer(2))).0, TWO);
    assert_eq!(only(client.handle_server_msg(&done, peer(1))).0, ONE);
}

#[test]
fn sessions_are_asked_for() {
    let hash = || ffs::protocol::Hash::from([3u8; 32]);
    let datagram = start_request(ONE, 12, hash(), "dir/file").unwrap();
    match ClientMessage::from_datagram(&datagram) {
        Ok(ClientMessage::Start { session_id, size, hash: read, path }) => {
            assert_eq!((session_id, size, path), (ONE, 12, "dir/file"));
            assert!(read == hash());
        }
        other => panic!("{:?}", other),
    }
    assert!(start_request(ONE, 12, hash(), "").is_none());
    assert!(start_request(ONE, 12, hash(), "/etc/passwd").is_none());
    assert!(start_request(ONE, 12, hash(), "../../x").is_none());
}

#[test]
fn file_is_sent_in_chunks() {
    let file: Vec<u8> = (0..4000u32).map(|n| n as u8).collect();
    let mut transmission = Transmission::new(ID, file.len() as u64);
    let mut copy = vec![0u8; file.len()];
    let mut offsets = Vec::new();
    while let Some(offset) = transmission.next_offset() {
        let packet = transmission.next_packet(&file[offset as usize..]);
        match ClientMessage::from_datagram(&packet) {
            Ok(ClientMessage::Data { id, offset, content }) => {
                assert_eq!(id, ID);
                offsets.push(offset);
                copy[offset as usize..offset as usize + content.len()].copy_from_slice(content);
            }
            other => panic!("{:?}", other),
        }
    }
    assert_eq!(offsets, vec![0, CHUNK_SIZE, 2 * CHUNK_SIZE]);
    assert_eq!(copy, file);
}

#[test]
fn shrunken_file_ends() {
    let mut transmission = Transmission::new(ID, 10);
    transmission.next_packet(&[]);
    assert_eq!(transmission.next_offset(), None);
    assert_eq!(Transmission::new(ID, 0).next_offset(), None);
}

#[test]
fn chunks_are_cut() {
    let (packet, used) = chunk_packet(ID, 5, &vec![1u8; 3000]);
    assert_eq!(used as u64, CHUNK_SIZE);
    assert_eq!(packet.len(), 3 + 1452);
    let (packet, used) = chunk_packet(ID, 5, &[1, 2]);
    assert_eq!(used, 2);
    assert_eq!(packet.len(), 3 + 19);
}

#[test]
fn key_q_exits() {
    assert_eq!(handle_event(InputEvent::Key(Some('q'))), Action::Exit);
    for event in [
        InputEvent::Key(Some('Q')),
        InputEvent::Key(None),
        InputEvent::FocusGained,
        InputEvent::FocusLost,
        InputEvent::Mouse,
        InputEvent::Paste,
        InputEvent::Resize,
    ] {
        assert_eq!(handle_event(event), Action::Nothing);
    }
}
