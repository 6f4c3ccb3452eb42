//! What calls come to: every law here speaks of what a function of the library returns, and of
//! what it leaves behind, whenever it is called. The laws on the wire format, on paths, on files
//! and on exchanges of messages go on from here.

use crate::digest::FileHasher;
use crate::file_generator::{FileGenerator, WalkStep};
use crate::network::client::{
    cmd_handled, failure_handled, no_transfers, request_for, server_msg_handled, session_begun,
    session_cmd_handled, session_forgotten, start_request, ClientCommand, ClientContext,
    CommandOutcome, Delivery, FileHandlerCmd, ReadStep, SessionCommand, SessionContext,
    SessionInstruction, TransferFailure,
};
use crate::network::exchange::heard;
use crate::network::laws::checked_files_are_answered;
use crate::network::paths::{inside_root, is_inside_root, remote_name, remote_path, PathPart};
use crate::network::peers::PeerSet;
use crate::network::repetition::{repeat_offsets, requested_offsets};
use crate::network::server::{
    chunk_recorded, file_hashed, hash_failure_text, message_handled, mismatch_text, open_mode,
    repetitions_requested, session_opened, start_decided, ChunkOutcome, OpenMode, PendingChunk,
    PendingSession, PrepareStep, ReceivedFile, RepeatRequest, Reply, ServerAction, ServerContext,
    StartDecision, WriteStep,
};
use crate::network::transfer::{
    chunk_packet, chunks_carry_what_was_read, packet_made, Transmission,
};
use crate::network::{
    choose_ip_version, domain_of, group_binding, group_of, is_ipv4_multicast, is_ipv6_multicast,
    multicast_addr, multicast_bind_addr, version_of, IpVersion, PeerAddr,
};
use crate::protocol::client_message::{client_bytes, parse_client, ClientContent};
use crate::protocol::datagram::{
    open_datagram, parse_client_datagram, parse_server_datagram, payload_of,
};
use crate::protocol::decode::error_text;
use crate::protocol::laws::{
    client_datagram_round_trip, data_messages_are_filled, server_datagram_round_trip,
};
use crate::protocol::server_message::{parse_server, server_bytes, ServerContent};
use crate::protocol::{
    remaining_slice, shown_numbers_read_back, ClientMessage, DecodeError, Identifier,
    ServerMessage, SessionId,
};
use crate::ranges::{spans, ReceivedRanges};
use crate::text::{
    decimal, decimals_read_back, hex_text, hexadecimal, hexadecimals_read_back, push_decimal,
    push_hexadecimal, reads,
};
use crate::tui::{handle_event, Action, InputEvent};
use vstd::prelude::*;

verus! {

/// What a server does about a client's message.
pub proof fn message_is_handled(
    server: &mut ServerContext,
    src: PeerAddr,
    msg: ClientMessage<'_>,
    action: ServerAction,
)
    requires
        call_ensures(ServerContext::handle_message, (server, src, msg), action),
    ensures
        final(server).wf(),
        final(server).name() == old(server).name(),
        message_handled(
            old(server).name(),
            old(server).sessions(),
            src,
            msg@,
            final(server).sessions(),
            action,
        ),
{
}

/// How a server answers a client whose file was made ready, or could not be.
pub proof fn start_is_decided(
    server: ServerContext,
    pending: PendingSession,
    failure: Option<(PrepareStep, String)>,
    id: Identifier,
    decision: StartDecision,
)
    requires
        call_ensures(ServerContext::file_prepared, (&server, &pending, failure, id), decision),
    ensures
        start_decided(server.sessions(), pending, failure, id, decision),
{
}

/// How a session of a server begins.
pub proof fn session_is_opened(
    server: &mut ServerContext,
    pending: PendingSession,
    id: Identifier,
    now: u64,
    received: Option<ReceivedFile>,
)
    requires
        call_ensures(ServerContext::open_session, (server, pending, id, now), received),
    ensures
        final(server).wf(),
        final(server).name() == old(server).name(),
        session_opened(
            old(server).sessions(),
            pending,
            id,
            now,
            final(server).sessions(),
            received,
        ),
{
}

/// What a server makes of a part of a file that was written, or could not be.
pub proof fn chunk_is_recorded(
    server: &mut ServerContext,
    chunk: PendingChunk,
    failure: Option<(WriteStep, String)>,
    now: u64,
    outcome: ChunkOutcome,
)
    requires
        call_ensures(ServerContext::chunk_written, (server, chunk, failure, now), outcome),
    ensures
        final(server).wf(),
        final(server).name() == old(server).name(),
        chunk_recorded(
            old(server).sessions(),
            chunk,
            failure,
            now,
            final(server).sessions(),
            outcome,
        ),
{
}

/// What a server asks for again.
pub proof fn repetitions_are_requested(
    server: ServerContext,
    now: u64,
    requests: Vec<RepeatRequest>,
    received: ReceivedRanges,
    size: u64,
    offsets: Vec<u64>,
)
    requires
        call_ensures(ServerContext::request_repetitions, (&server, now), requests),
        call_ensures(repeat_offsets, (&received, size), offsets),
    ensures
        repetitions_requested(server.sessions(), now, requests@),
        offsets@ == requested_offsets(spans(received), size),
{
}

/// A server knows its sessions, and is idle without any; a new one has the name that it was given
/// and no sessions.
pub proof fn sessions_are_known(
    server: ServerContext,
    id: Identifier,
    known: bool,
    idle: bool,
    name: String,
    new: ServerContext,
)
    requires
        call_ensures(ServerContext::has_session, (&server, id), known),
        call_ensures(ServerContext::is_idle, (&server,), idle),
        call_ensures(ServerContext::new, (name,), new),
    ensures
        known == server.sessions().contains_key(id.0),
        idle <==> forall|i: u64| !#[trigger] server.sessions().contains_key(i),
        new.wf(),
        new.name() == name@,
        forall|i: u64| !#[trigger] new.sessions().contains_key(i),
{
    crate::network::exchange::idle_servers_know_no_session(server.sessions());
    crate::network::exchange::idle_servers_know_no_session(new.sessions());
}

/// A file that was checked is answered for: done if and only if its digest is the announced one,
/// and else why not.
pub proof fn file_is_answered_for(
    file: ReceivedFile,
    computed: Result<crate::protocol::Hash<'static>, String>,
    reply: Reply,
)
    requires
        call_ensures(file_hashed, (file, computed), reply),
    ensures
        reply.dst == file.src,
        heard(reply) == match computed {
            Ok(hash) => if hash@ == file.hash@ {
                ServerContent::Done { id: file.id }
            } else {
                ServerContent::Error { id: file.id, msg: mismatch_text(hash@, file.hash@) }
            },
            Err(err) => ServerContent::Error { id: file.id, msg: hash_failure_text(err@) },
        },
{
    let result: Result<Seq<u8>, Seq<char>> = match computed {
        Ok(hash) => Ok(hash@),
        Err(err) => Err(err@),
    };
    checked_files_are_answered(reply, file, result);
}

/// A server that may overwrite files creates and empties them; one that may not creates them anew.
pub proof fn files_are_opened(overwrite: bool, mode: OpenMode)
    requires
        call_ensures(open_mode, (overwrite,), mode),
    ensures
        mode.create == overwrite,
        mode.truncate == overwrite,
        mode.create_new == !overwrite,
{
}

/// What a client does about a server's message.
pub proof fn server_message_is_handled(
    client: &mut ClientContext,
    msg: &ServerMessage<'_>,
    src: PeerAddr,
    deliveries: Vec<Delivery>,
)
    requires
        call_ensures(ClientContext::handle_server_msg, (client, msg, src), deliveries),
    ensures
        final(client)@.wf(),
        server_msg_handled(old(client)@, msg@, src, final(client)@, deliveries@),
{
}

/// How a client carries out a command.
pub proof fn command_is_handled<P>(
    client: &mut ClientContext,
    cmd: ClientCommand<P>,
    candidate: SessionId,
    outcome: CommandOutcome<P>,
)
    requires
        call_ensures(ClientContext::handle_cmd::<P>, (client, cmd, candidate), outcome),
    ensures
        final(client)@.wf(),
        cmd_handled(old(client)@, cmd, candidate, final(client)@, outcome),
{
}

/// What a client does about a file that it cannot read.
pub proof fn failure_is_handled(
    client: &mut ClientContext,
    addr: PeerAddr,
    id: Identifier,
    step: ReadStep,
    err: &str,
    failure: TransferFailure,
)
    requires
        call_ensures(ClientContext::transfer_failed, (client, addr, id, step, err), failure),
    ensures
        final(client)@.wf(),
        failure_handled(old(client)@, addr, id, step, err@, final(client)@, failure),
{
}

/// What a client knows after a session.
pub proof fn session_is_forgotten(client: &mut ClientContext, session_id: SessionId)
    requires
        call_ensures(ClientContext::session_ended, (client, session_id), ()),
    ensures
        final(client)@.wf(),
        session_forgotten(old(client)@, session_id, final(client)@),
{
}

/// What a new client knows, and when a client is idle.
pub proof fn clients_begin_idle(new: ClientContext, client: ClientContext, idle: bool)
    requires
        call_ensures(ClientContext::new, (), new),
        call_ensures(ClientContext::is_idle, (&client,), idle),
    ensures
        new@.wf(),
        !new@.discovery_active,
        forall|s: u32| !#[trigger] new@.sessions.contains(s),
        forall|a: PeerAddr| !#[trigger] new@.neighbors.contains(a),
        no_transfers(new@),
        idle == no_transfers(client@),
{
}

/// How a session begins, and carries out a command.
pub proof fn session_command_is_handled<P>(
    fresh: SessionContext<P>,
    first: FileHandlerCmd<&P>,
    session: &mut SessionContext<P>,
    cmd: SessionCommand,
    outcome: (SessionInstruction, Option<FileHandlerCmd<&P>>),
)
    requires
        call_ensures(SessionContext::<P>::begin, (&fresh,), first),
        call_ensures(SessionContext::<P>::handle_session_cmd, (session, cmd), outcome),
    ensures
        session_begun(fresh@, first),
        session_cmd_handled(old(session)@, cmd@, final(session)@, outcome.0, outcome.1),
{
}

/// A command with a path of its own is the same command, for the same path.
pub proof fn owned_commands_are_the_same<P: Clone>(
    cmd: FileHandlerCmd<&P>,
    owned: FileHandlerCmd<P>,
)
    requires
        call_ensures(FileHandlerCmd::<&P>::into_owned, (cmd,), owned),
    ensures
        match (cmd, owned) {
            (
                FileHandlerCmd::Start { path, session_id },
                FileHandlerCmd::Start { path: p, session_id: s },
            ) => cloned::<P>(*path, p) && s == session_id,
            (
                FileHandlerCmd::Transmit { path, id, addr },
                FileHandlerCmd::Transmit { path: p, id: i, addr: a },
            ) => cloned::<P>(*path, p) && i == id && a == addr,
            (
                FileHandlerCmd::TransmitChunks { path, id, addr, chunks },
                FileHandlerCmd::TransmitChunks { path: p, id: i, addr: a, chunks: c },
            ) => cloned::<P>(*path, p) && i == id && a == addr && c == chunks,
            _ => false,
        },
{
}

/// A request for a session says to the server what the client asks for; there is one for every path
/// that stays inside of the server's root folder.
pub proof fn request_is_made(
    session_id: SessionId,
    size: u64,
    hash: crate::protocol::Hash<'_>,
    path: &str,
    datagram: Option<Vec<u8>>,
    inside: bool,
)
    requires
        call_ensures(start_request, (session_id, size, hash, path), datagram),
        call_ensures(is_inside_root, (path,), inside),
        hash@.len() == 32,
    ensures
        inside == inside_root(path@),
        datagram is Some <==> inside,
        datagram matches Some(bytes) ==> request_for(session_id, size, hash@, path@) == Some(bytes@)
            && parse_client_datagram(bytes@) == Ok::<ClientContent, DecodeError>(
            ClientContent::Start { session_id, size, hash: hash@, path: path@ },
        ),
{
    if inside_root(path@) {
        client_datagram_round_trip(
            ClientContent::Start { session_id, size, hash: hash@, path: path@ },
        );
    }
}

/// The path by which a server is to know a file.
pub proof fn remote_path_is_found(parts: Vec<PathPart>, path: Option<String>)
    requires
        call_ensures(remote_path, (&parts,), path),
    ensures
        path is Some <==> remote_name(parts@) is Some,
        path matches Some(text) ==> remote_name(parts@) == Some(text@),
{
}

/// A chunk carries what was read of the file, as far as 1435 bytes of it, and so much of it is
/// told.
pub proof fn chunk_is_packed(id: Identifier, offset: u64, content: &[u8], packet: (Vec<u8>, usize))
    requires
        call_ensures(chunk_packet, (id, offset, content), packet),
    ensures
        packet.1 <= content@.len(),
        packet.1 == 1435 || packet.1 == content@.len(),
        packet.1 <= 1435,
        parse_client_datagram(packet.0@) == Ok::<ClientContent, DecodeError>(
            ClientContent::Data { id, offset, content: content@.take(packet.1 as int) },
        ),
{
    chunks_carry_what_was_read(id, offset, content@);
}

/// How a file goes on its way.
pub proof fn transmission_goes_on(
    id: Identifier,
    size: u64,
    new: Transmission,
    here: Transmission,
    offset: Option<u64>,
    transmission: &mut Transmission,
    content: &[u8],
    packet: Vec<u8>,
)
    requires
        call_ensures(Transmission::new, (id, size), new),
        call_ensures(Transmission::next_offset, (&here,), offset),
        call_ensures(Transmission::next_packet, (transmission, content), packet),
    ensures
        new@.id == id,
        new@.size == size,
        new@.offset == 0,
        offset == here@.next_offset(),
        packet_made(old(transmission)@, content@, final(transmission)@, packet@),
{
}

/// A digest is that of all that was handed over, and more is wanted until there is enough.
pub proof fn digest_is_computed(
    size: u64,
    new: FileHasher,
    here: FileHasher,
    more: bool,
    hasher: &mut FileHasher,
    part: &[u8],
    hash: crate::protocol::Hash<'static>,
)
    requires
        call_ensures(FileHasher::new, (size,), new),
        call_ensures(FileHasher::wants_more, (&here,), more),
        call_ensures(FileHasher::update, (hasher, part), ()),
        call_ensures(FileHasher::finish, (here,), hash),
    ensures
        new@.content == Seq::<u8>::empty(),
        new@.missing == size,
        more <==> here@.missing > 0,
        final(hasher)@.content == old(hasher)@.content + part@,
        final(hasher)@.missing == if part@.len() <= old(hasher)@.missing {
            old(hasher)@.missing - part@.len()
        } else {
            0
        },
        hash@ == crate::digest::sha256(here@.content),
{
}

/// What a walk over directories does next, and what it makes of what was seen.
pub proof fn walk_goes_on<P>(
    path: P,
    new: FileGenerator<P>,
    asked: &mut FileGenerator<P>,
    step: WalkStep<P>,
    told: &mut FileGenerator<P>,
    entry: Option<(P, bool)>,
    found: Option<P>,
    shown: &mut FileGenerator<P>,
    seen: P,
    is_dir: bool,
    file: Option<P>,
)
    requires
        call_ensures(FileGenerator::<P>::new, (path,), new),
        call_ensures(FileGenerator::<P>::next_step, (asked,), step),
        call_ensures(FileGenerator::<P>::entry_read, (told, entry), found),
        call_ensures(FileGenerator::<P>::inspected, (shown, seen, is_dir), file),
    ensures
        new@.paths == seq![path],
        !new@.reading,
        (final(asked)@, step) == old(asked)@.ask(),
        (final(told)@, found) == old(told)@.take_entry(entry),
        (final(shown)@, file) == old(shown)@.take_path(seen, is_dir),
{
}

/// What is sent for a message of a server, and what is read from what was sent.
pub proof fn server_message_is_sent(
    msg: &ServerMessage<'_>,
    buf: &mut Vec<u8>,
    datagram: Vec<u8>,
    bytes: &[u8],
    decoded: Result<ServerMessage<'_>, DecodeError>,
    opened: Result<ServerMessage<'_>, DecodeError>,
)
    requires
        call_ensures(ServerMessage::encode, (msg, buf), ()),
        call_ensures(ServerMessage::to_datagram, (msg,), datagram),
        call_ensures(ServerMessage::decode, (bytes,), decoded),
        call_ensures(ServerMessage::from_datagram, (bytes,), opened),
    ensures
        final(buf)@ == old(buf)@ + server_bytes(msg@),
        parse_server_datagram(datagram@) == Ok::<ServerContent, DecodeError>(msg@),
        match decoded {
            Ok(m) => parse_server(bytes@) == Ok::<ServerContent, DecodeError>(m@),
            Err(err) => parse_server(bytes@) == Err::<ServerContent, DecodeError>(err),
        },
        match opened {
            Ok(m) => parse_server_datagram(bytes@) == Ok::<ServerContent, DecodeError>(m@),
            Err(err) => parse_server_datagram(bytes@) == Err::<ServerContent, DecodeError>(err),
        },
{
    server_datagram_round_trip(msg@);
}

/// What is sent for a message of a client, and what is read from what was sent.
pub proof fn client_message_is_sent(
    msg: &ClientMessage<'_>,
    buf: &mut Vec<u8>,
    datagram: Vec<u8>,
    bytes: &[u8],
    decoded: Result<ClientMessage<'_>, DecodeError>,
    opened: Result<ClientMessage<'_>, DecodeError>,
)
    requires
        call_ensures(ClientMessage::encode, (msg, buf), ()),
        call_ensures(ClientMessage::to_datagram, (msg,), datagram),
        call_ensures(ClientMessage::decode, (bytes,), decoded),
        call_ensures(ClientMessage::from_datagram, (bytes,), opened),
        msg@ matches ClientContent::Start { hash, path, .. } ==> hash.len() == 32 && path.len() > 0,
    ensures
        final(buf)@ == old(buf)@ + client_bytes(msg@),
        parse_client_datagram(datagram@) == Ok::<ClientContent, DecodeError>(msg@),
        match decoded {
            Ok(m) => parse_client(bytes@) == Ok::<ClientContent, DecodeError>(m@),
            Err(err) => parse_client(bytes@) == Err::<ClientContent, DecodeError>(err),
        },
        match opened {
            Ok(m) => parse_client_datagram(bytes@) == Ok::<ClientContent, DecodeError>(m@),
            Err(err) => parse_client_datagram(bytes@) == Err::<ClientContent, DecodeError>(err),
        },
{
    client_datagram_round_trip(msg@);
}

/// A data message that is put into a buffer holds the front of what is there, as much as fits; how
/// much that is, or how long the message is, is told.
pub proof fn data_message_is_filled(
    id: Identifier,
    offset: u64,
    content: &[u8],
    limit: usize,
    one: &mut Vec<u8>,
    read: usize,
    other: &mut Vec<u8>,
    total: usize,
)
    requires
        call_ensures(ClientMessage::encode_data_msg, (id, offset, content, limit, one), read),
        call_ensures(
            ClientMessage::encode_data_msg_sync,
            (id, offset, content, limit, other),
            total,
        ),
    ensures
        read <= content@.len(),
        read > 0 ==> old(one)@.len() + 17 + read <= limit,
        read < content@.len() ==> old(one)@.len() + 17 + read >= limit,
        final(one)@ == old(one)@ + client_bytes(
            ClientContent::Data { id, offset, content: content@.take(read as int) },
        ),
        total >= 17,
        total - 17 <= content@.len(),
        total > 17 ==> old(other)@.len() + total <= limit,
        total - 17 < content@.len() ==> old(other)@.len() + total >= limit,
        final(other)@ == old(other)@ + client_bytes(
            ClientContent::Data { id, offset, content: content@.take(total - 17) },
        ),
{
    data_messages_are_filled(old(one)@.len(), limit as nat, content@.len());
    data_messages_are_filled(old(other)@.len(), limit as nat, content@.len());
}

/// A datagram is opened, and a slice is cut, where the message begins.
pub proof fn slices_are_cut(
    datagram: &[u8],
    payload: Result<&[u8], DecodeError>,
    buf: &[u8],
    pos: usize,
    rest: &[u8],
)
    requires
        call_ensures(open_datagram, (datagram,), payload),
        call_ensures(remaining_slice, (buf, pos), rest),
    ensures
        match payload {
            Ok(bytes) => payload_of(datagram@) == Ok::<Seq<u8>, DecodeError>(bytes@),
            Err(err) => payload_of(datagram@) == Err::<Seq<u8>, DecodeError>(err),
        },
        rest@ == buf@.skip(pos as int),
{
}

/// Numbers, digests and errors are shown as what they are.
pub proof fn values_are_shown(
    session_id: SessionId,
    session_text: String,
    id: Identifier,
    id_text: String,
    hash: crate::protocol::Hash<'_>,
    hash_text: String,
    err: DecodeError,
    err_text: String,
    text: &mut String,
    n: u128,
    hex: &mut String,
    m: u128,
)
    requires
        call_ensures(SessionId::to_text, (&session_id,), session_text),
        call_ensures(Identifier::to_text, (&id,), id_text),
        call_ensures(crate::protocol::Hash::to_text, (&hash,), hash_text),
        call_ensures(DecodeError::to_text, (err,), err_text),
        call_ensures(push_decimal, (text, n), ()),
        call_ensures(push_hexadecimal, (hex, m), ()),
    ensures
        reads(session_text@, 16) == session_id.0,
        session_text@.len() >= 4,
        reads(id_text@, 16) == id.0,
        id_text@.len() >= 4,
        hash_text@ == hex_text(hash@),
        err_text@ == error_text(err),
        final(text)@ == old(text)@ + decimal(n as nat),
        reads(decimal(n as nat), 10) == n,
        final(hex)@ == old(hex)@ + hexadecimal(m as nat),
        reads(hexadecimal(m as nat), 16) == m,
{
    shown_numbers_read_back(session_id.0 as nat);
    shown_numbers_read_back(id.0 as nat);
    decimals_read_back(n as nat);
    hexadecimals_read_back(m as nat);
}

/// A digest keeps its bytes.
pub proof fn digests_are_kept<'a>(
    hash: crate::protocol::Hash<'a>,
    owned: crate::protocol::Hash<'static>,
    bytes: &[u8],
)
    requires
        call_ensures(crate::protocol::Hash::<'a>::into_owned, (hash,), owned),
        call_ensures(crate::protocol::Hash::<'a>::as_bytes, (&hash,), bytes),
    ensures
        owned@ == hash@,
        bytes@ == hash@,
        bytes@.len() == 32,
{
}

/// Sets of addresses are sets.
pub proof fn peer_sets_are_sets(
    new: PeerSet,
    set: PeerSet,
    addr: PeerAddr,
    contained: bool,
    empty: bool,
    copy: PeerSet,
    more: &mut PeerSet,
    less: &mut PeerSet,
)
    requires
        call_ensures(PeerSet::new, (), new),
        call_ensures(PeerSet::contains, (&set, addr), contained),
        call_ensures(PeerSet::is_empty, (&set,), empty),
        call_ensures(PeerSet::copy, (&set,), copy),
        call_ensures(PeerSet::insert, (more, addr), ()),
        call_ensures(PeerSet::remove, (less, addr), ()),
    ensures
        forall|a: PeerAddr| !#[trigger] new@.contains(a),
        contained == set@.contains(addr),
        empty <==> set@ == Set::<PeerAddr>::empty(),
        copy@ == set@,
        forall|a: PeerAddr|
            #![trigger final(more)@.contains(a)]
            final(more)@.contains(a) <==> old(more)@.contains(a) || a == addr,
        forall|a: PeerAddr|
            #![trigger final(less)@.contains(a)]
            final(less)@.contains(a) <==> old(less)@.contains(a) && a != addr,
{
}

/// Where clients and servers find each other, for every address.
pub proof fn addresses_are_found(
    addr: PeerAddr,
    version: IpVersion,
    group: PeerAddr,
    binding: PeerAddr,
    v4: u32,
    v4_multicast: bool,
    v6: u128,
    v6_multicast: bool,
    use_ipv4: bool,
    use_ipv6: bool,
    chosen: IpVersion,
)
    requires
        call_ensures(domain_of, (addr,), version),
        call_ensures(multicast_addr, (addr,), group),
        call_ensures(multicast_bind_addr, (addr,), binding),
        call_ensures(is_ipv4_multicast, (v4,), v4_multicast),
        call_ensures(is_ipv6_multicast, (v6,), v6_multicast),
        call_ensures(choose_ip_version, (use_ipv4, use_ipv6), chosen),
    ensures
        version is V4 <==> addr is V4,
        group == group_of(version_of(addr)),
        binding == group_binding(addr),
        v4_multicast <==> v4 / 0x1000_0000 == 14,
        v6_multicast <==> v6 / 0x100_0000_0000_0000_0000_0000_0000_0000 == 255,
        chosen is V4 <==> use_ipv4,
{
}

/// The program ends if and only if its user presses the key `q`.
pub proof fn event_is_handled(event: InputEvent, action: Action)
    requires
        call_ensures(handle_event, (event,), action),
    ensures
        action is Exit <==> event == InputEvent::Key(Some('q')),
{
}

} // verus!
