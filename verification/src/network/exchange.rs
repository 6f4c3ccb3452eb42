//! What comes of the messages that a client and a server exchange: every law here follows what
//! one side sends through what the other side makes of it.

use super::client::{
    cmd_handled, failure_handled, no_transfers, request_for, server_msg_handled, session_begun, session_cmd_handled, session_forgotten,
    ClientCommand, ClientView, CommandOutcome, Delivery, FileHandlerCmd, ReadStep,
    SessionCommandView, SessionInstruction, SessionView, Transfer, TransferFailure,
};
use super::laws::{begins, Receiving};
use super::paths::inside_root;
use super::repetition::{first_missing_byte_is_requested, is_missing, requests_skip_nothing};
use super::server::{
    chunk_positions, chunk_recorded, data_verdict, message_handled, no_sessions,
    repetitions_requested, says, server_begun, session_opened, sessions_wf, start_decided, ChunkOutcome,
    EntryView, PendingChunk, PrepareStep, ReceivedFile, RepeatRequest, Reply,
    ServerAction, StartDecision, WriteStep,
};
use super::transfer::{chunks_carry_what_was_read, data_datagram};
use super::PeerAddr;
use crate::digest::sha256;
use crate::protocol::client_message::{client_bytes, ClientContent};
use crate::protocol::datagram::{parse_client_datagram, parse_server_datagram, prefix};
use crate::protocol::laws::{client_datagram_round_trip, server_datagram_round_trip};
use crate::protocol::server_message::ServerContent;
use crate::protocol::{DecodeError, Identifier, SessionId};
use crate::ranges::covered;
use vstd::prelude::*;

verus! {

/// What a client reads from a reply, if it is a message.
pub open spec fn heard(reply: Reply) -> ServerContent {
    parse_server_datagram(reply.datagram@)->Ok_0
}

/// What a server reads from the datagram that asks for a session.
pub open spec fn start_heard(
    session_id: SessionId,
    size: u64,
    hash: Seq<u8>,
    path: Seq<char>,
) -> ClientContent {
    parse_client_datagram(request_for(session_id, size, hash, path)->Some_0)->Ok_0
}

proof fn lemma_heard(reply: Reply, dst: PeerAddr, content: ServerContent)
    requires
        says(reply, dst, content),
    ensures
        reply.dst == dst,
        heard(reply) == content,
{
    server_datagram_round_trip(content);
}

proof fn lemma_start_accepted(
    name: Seq<char>,
    before: Map<u64, EntryView>,
    src: PeerAddr,
    session_id: SessionId,
    size: u64,
    hash: Seq<u8>,
    path: Seq<char>,
    handled: Map<u64, EntryView>,
    action: ServerAction,
    id: Identifier,
    decision: StartDecision,
    now: u64,
    after: Map<u64, EntryView>,
    received: Option<ReceivedFile>,
)
    requires
        hash.len() == 32,
        inside_root(path),
        size > 0,
        !before.contains_key(id.0),
        message_handled(name, before, src, start_heard(session_id, size, hash, path), handled, action),
        action matches ServerAction::PrepareFile(pending) ==> start_decided(
            handled,
            pending,
            None,
            id,
            decision,
        ) && session_opened(handled, pending, id, now, after, received),
    ensures
        action matches ServerAction::PrepareFile(pending) && pending.path@ == path && pending.size
            == size,
        decision matches StartDecision::Accept(reply) && says(
            reply,
            src,
            ServerContent::Ack { session_id, id },
        ),
        received is None,
        after.contains_key(id.0),
        after[id.0].src == src,
        after[id.0].expected_size == size,
        after[id.0].hash == hash,
        after[id.0].curr_size == 0,
        after[id.0].last_received_at == now,
        forall|x: u64| !after[id.0].received().contains(x),
        forall|other: u64|
            other != id.0 ==> (#[trigger] after.contains_key(other) <==> before.contains_key(other))
                && (before.contains_key(other) ==> after[other] == before[other]),
        forall|offset: u64, len: int| !(#[trigger] data_verdict(after, id, offset, len) is Unknown),
{
    requests_say_what_is_asked_for(session_id, size, hash, path);
    assert(after[id.0].spans == Seq::<(u64, u64)>::empty());
}

/// A session that a server accepted is sent to that server, under the identifier that the server
/// chose: exactly one command is delivered, to that session, and the session has the file at its
/// own path read and sent so.
pub proof fn acknowledged_session_is_sent<P>(
    reply: Reply,
    dst: PeerAddr,
    client: ClientView,
    server: PeerAddr,
    session_id: SessionId,
    id: Identifier,
    known: ClientView,
    deliveries: Seq<Delivery>,
    session: SessionView<P>,
    session_after: SessionView<P>,
    instruction: SessionInstruction,
    file_cmd: Option<FileHandlerCmd<&P>>,
)
    requires
        says(reply, dst, ServerContent::Ack { session_id, id }),
        client.wf(),
        known.wf(),
        client.sessions.contains(session_id.0),
        !client.transfers.contains(Transfer { addr: server, id, session_id }),
        server_msg_handled(client, heard(reply), server, known, deliveries),
        deliveries.len() > 0 ==> session_cmd_handled(
            session,
            deliveries[0].cmd@,
            session_after,
            instruction,
            file_cmd,
        ),
    ensures
        reply.dst == dst,
        deliveries.len() == 1,
        deliveries[0].session_id == session_id,
        deliveries[0].cmd@ == (SessionCommandView::Transmit { id, addr: server }),
        known.session_of(server, id) == Some(session_id),
        known.sessions == client.sessions,
        known.neighbors == client.neighbors,
        known.discovery_active == client.discovery_active,
        forall|t: Transfer|
            #![trigger known.transfers.contains(t)]
            !(t.addr == server && t.id == id) ==> (known.transfers.contains(t)
                <==> client.transfers.contains(t)),
        instruction is Continue,
        session_after == session,
        file_cmd matches Some(FileHandlerCmd::Transmit { path: p, id: i, addr: a }) && *p
            == session.path && i == id && a == server,
{
    lemma_heard(reply, dst, ServerContent::Ack { session_id, id });
    let transfer = Transfer { addr: server, id, session_id };
    assert(known.transfers.contains(transfer));
    assert(known.accepted(server, id, session_id));
    let s = known.session_of(server, id)->0;
    assert(known.accepted(server, id, s));
    assert(known.transfers.contains(Transfer { addr: server, id, session_id: s }));
}

/// A client that asks for a session, for a file whose path the server accepts and that the server
/// makes ready, is answered: the server has a session then, under an identifier that it chose, for
/// a file of the size and digest that the client announced; its other sessions are as they were.
/// The client is told that identifier, and has the very session that it asked for send the file at
/// that session's path to that server under that identifier. The server knows the session for every
/// chunk that is sent so.
pub proof fn accepted_start_leads_to_data<P>(
    name: Seq<char>,
    before: Map<u64, EntryView>,
    src: PeerAddr,
    session_id: SessionId,
    size: u64,
    hash: Seq<u8>,
    path: Seq<char>,
    handled: Map<u64, EntryView>,
    action: ServerAction,
    id: Identifier,
    decision: StartDecision,
    now: u64,
    after: Map<u64, EntryView>,
    received: Option<ReceivedFile>,
    client: ClientView,
    server: PeerAddr,
    known: ClientView,
    deliveries: Seq<Delivery>,
    session: SessionView<P>,
    session_after: SessionView<P>,
    instruction: SessionInstruction,
    file_cmd: Option<FileHandlerCmd<&P>>,
)
    requires
        hash.len() == 32,
        inside_root(path),
        size > 0,
        !before.contains_key(id.0),
        client.wf(),
        known.wf(),
        client.sessions.contains(session_id.0),
        !client.transfers.contains(Transfer { addr: server, id, session_id }),
        message_handled(name, before, src, start_heard(session_id, size, hash, path), handled, action),
        action matches ServerAction::PrepareFile(pending) ==> start_decided(
            handled,
            pending,
            None,
            id,
            decision,
        ) && session_opened(handled, pending, id, now, after, received),
        decision matches StartDecision::Accept(reply) ==> server_msg_handled(
            client,
            heard(reply),
            server,
            known,
            deliveries,
        ),
        deliveries.len() > 0 ==> session_cmd_handled(
            session,
            deliveries[0].cmd@,
            session_after,
            instruction,
            file_cmd,
        ),
    ensures
        action matches ServerAction::PrepareFile(pending) && pending.path@ == path && pending.size
            == size,
        decision matches StartDecision::Accept(reply) && reply.dst == src,
        received is None,
        after.contains_key(id.0),
        after[id.0].src == src,
        after[id.0].expected_size == size,
        after[id.0].hash == hash,
        after[id.0].curr_size == 0,
        after[id.0].last_received_at == now,
        forall|x: u64| !after[id.0].received().contains(x),
        forall|other: u64|
            other != id.0 ==> (#[trigger] after.contains_key(other) <==> before.contains_key(other))
                && (before.contains_key(other) ==> after[other] == before[other]),
        deliveries.len() == 1,
        deliveries[0].session_id == session_id,
        known.session_of(server, id) == Some(session_id),
        instruction is Continue,
        session_after == session,
        file_cmd matches Some(FileHandlerCmd::Transmit { path: p, id: i, addr: a }) && *p
            == session.path && i == id && a == server,
        forall|offset: u64, content: Seq<u8>|
            content.len() <= 1435 ==> parse_client_datagram(
                #[trigger] data_datagram(id, offset, content),
            ) == Ok::<ClientContent, DecodeError>(ClientContent::Data { id, offset, content }),
        forall|offset: u64, len: int| !(#[trigger] data_verdict(after, id, offset, len) is Unknown),
{
    lemma_start_accepted(
        name,
        before,
        src,
        session_id,
        size,
        hash,
        path,
        handled,
        action,
        id,
        decision,
        now,
        after,
        received,
    );
    acknowledged_session_is_sent(
        decision->Accept_0,
        src,
        client,
        server,
        session_id,
        id,
        known,
        deliveries,
        session,
        session_after,
        instruction,
        file_cmd,
    );
    assert forall|offset: u64, content: Seq<u8>|
        content.len() <= 1435 implies parse_client_datagram(
        #[trigger] data_datagram(id, offset, content),
    ) == Ok::<ClientContent, DecodeError>(ClientContent::Data { id, offset, content }) by {
        assert(content.take(content.len() as int) =~= content);
        chunks_carry_what_was_read(id, offset, content);
    }
}

/// A session that just began has got nothing of its file yet.
pub proof fn opened_session_begins(
    before: Map<u64, EntryView>,
    src: PeerAddr,
    session_id: SessionId,
    file: Seq<u8>,
    path: Seq<char>,
    name: Seq<char>,
    handled: Map<u64, EntryView>,
    action: ServerAction,
    id: Identifier,
    now: u64,
    after: Map<u64, EntryView>,
    received: Option<ReceivedFile>,
    copy: Seq<u8>,
)
    requires
        0 < file.len() <= u64::MAX,
        sha256(file).len() == 32,
        inside_root(path),
        copy.len() == file.len(),
        message_handled(
            name,
            before,
            src,
            start_heard(session_id, file.len() as u64, sha256(file), path),
            handled,
            action,
        ),
        action matches ServerAction::PrepareFile(pending) ==> session_opened(
            handled,
            pending,
            id,
            now,
            after,
            received,
        ),
    ensures
        begins(Receiving { sessions: after, file: copy }, id, file),
{
    client_datagram_round_trip(
        ClientContent::Start { session_id, size: file.len() as u64, hash: sha256(file), path },
    );
}

/// An empty file is checked as soon as its session is accepted, against the digest that the client
/// announced; no session stays behind, and the client learns of the very transfer that it was told
/// of whether the file is right.
pub proof fn empty_file_is_checked_at_once(
    name: Seq<char>,
    before: Map<u64, EntryView>,
    src: PeerAddr,
    session_id: SessionId,
    hash: Seq<u8>,
    path: Seq<char>,
    handled: Map<u64, EntryView>,
    action: ServerAction,
    id: Identifier,
    now: u64,
    after: Map<u64, EntryView>,
    received: Option<ReceivedFile>,
)
    requires
        hash.len() == 32,
        inside_root(path),
        message_handled(name, before, src, start_heard(session_id, 0, hash, path), handled, action),
        action matches ServerAction::PrepareFile(pending) ==> session_opened(
            handled,
            pending,
            id,
            now,
            after,
            received,
        ),
    ensures
        after == before,
        received matches Some(file) && file.src == src && file.id == id && file.size == 0
            && file.hash@ == hash,
{
    client_datagram_round_trip(ClientContent::Start { session_id, size: 0, hash, path });
}

/// A session that a server rejected does without that server, and no other session does.
proof fn lemma_rejected(
    reply: Reply,
    src: PeerAddr,
    session_id: SessionId,
    msg: Seq<char>,
    client: ClientView,
    server: PeerAddr,
    known: ClientView,
    deliveries: Seq<Delivery>,
)
    requires
        says(reply, src, ServerContent::Nack { session_id, msg }),
        client.sessions.contains(session_id.0),
        server_msg_handled(client, heard(reply), server, known, deliveries),
    ensures
        reply.dst == src,
        heard(reply) == (ServerContent::Nack { session_id, msg }),
        known == client,
        deliveries.len() == 1,
        deliveries[0].session_id == session_id,
        deliveries[0].cmd@ == SessionCommandView::RemoveNeighbor(server),
{
    lemma_heard(reply, src, ServerContent::Nack { session_id, msg });
}

/// A client whose file could not be made ready is told so, and why, of the very session that it
/// asked for: the server has no session then, and the client has that session do without the
/// server.
pub proof fn unprepared_file_removes_the_server(
    name: Seq<char>,
    before: Map<u64, EntryView>,
    src: PeerAddr,
    session_id: SessionId,
    size: u64,
    hash: Seq<u8>,
    path: Seq<char>,
    handled: Map<u64, EntryView>,
    action: ServerAction,
    step: PrepareStep,
    err: String,
    id: Identifier,
    decision: StartDecision,
    client: ClientView,
    server: PeerAddr,
    known: ClientView,
    deliveries: Seq<Delivery>,
)
    requires
        hash.len() == 32,
        inside_root(path),
        client.sessions.contains(session_id.0),
        message_handled(name, before, src, start_heard(session_id, size, hash, path), handled, action),
        action matches ServerAction::PrepareFile(pending) ==> start_decided(
            handled,
            pending,
            Some((step, err)),
            id,
            decision,
        ),
        decision matches StartDecision::Reject(reply) ==> server_msg_handled(
            client,
            heard(reply),
            server,
            known,
            deliveries,
        ),
    ensures
        action is PrepareFile,
        handled == before,
        decision matches StartDecision::Reject(reply) && reply.dst == src && heard(reply) == (
        ServerContent::Nack { session_id, msg: super::server::prepare_text(step, err@) }),
        known == client,
        deliveries.len() == 1,
        deliveries[0].session_id == session_id,
        deliveries[0].cmd@ == SessionCommandView::RemoveNeighbor(server),
{
    client_datagram_round_trip(ClientContent::Start { session_id, size, hash, path });
    let text = super::server::prepare_text(step, err@);
    lemma_rejected(
        decision->Reject_0,
        src,
        session_id,
        text,
        client,
        server,
        known,
        deliveries,
    );
}

/// A client whose path leads out of the server's root folder is told so, of the very session that
/// it asked for, and nothing is done about the file; but it would not ask.
pub proof fn outside_path_removes_the_server(
    name: Seq<char>,
    before: Map<u64, EntryView>,
    src: PeerAddr,
    session_id: SessionId,
    size: u64,
    hash: Seq<u8>,
    path: Seq<char>,
    handled: Map<u64, EntryView>,
    action: ServerAction,
    client: ClientView,
    server: PeerAddr,
    known: ClientView,
    deliveries: Seq<Delivery>,
)
    requires
        hash.len() == 32,
        path.len() > 0,
        client.sessions.contains(session_id.0),
        message_handled(
            name,
            before,
            src,
            parse_client_datagram(
                prefix() + client_bytes(ClientContent::Start { session_id, size, hash, path }),
            )->Ok_0,
            handled,
            action,
        ),
        !inside_root(path),
        action matches ServerAction::Reply(reply) ==> server_msg_handled(
            client,
            heard(reply),
            server,
            known,
            deliveries,
        ),
    ensures
        request_for(session_id, size, hash, path) is None,
        handled == before,
        action matches ServerAction::Reply(reply) && reply.dst == src && (heard(
            reply,
        ) matches ServerContent::Nack { session_id: s, .. } && s == session_id),
        known == client,
        deliveries.len() == 1,
        deliveries[0].session_id == session_id,
        deliveries[0].cmd@ == SessionCommandView::RemoveNeighbor(server),
{
    client_datagram_round_trip(ClientContent::Start { session_id, size, hash, path });
    lemma_rejected(
        action->Reply_0,
        src,
        session_id,
        super::server::outside_root_text(),
        client,
        server,
        known,
        deliveries,
    );
}

/// An identifier that another session has is not given to a second one.
pub proof fn identifiers_are_given_once(
    sessions: Map<u64, EntryView>,
    pending: super::server::PendingSession,
    id: Identifier,
    decision: StartDecision,
)
    requires
        start_decided(sessions, pending, None, id, decision),
    ensures
        sessions.contains_key(id.0) <==> decision is IdentifierTaken,
        !sessions.contains_key(id.0) <==> decision is Accept,
{
}

/// Every server that a client's question reaches answers that client with its name; and a client
/// that looks for servers takes note of whoever answers, and tells each of its sessions, once.
pub proof fn servers_are_discovered<P>(
    client: ClientView,
    candidate: SessionId,
    asking: ClientView,
    outcome: CommandOutcome<P>,
    name: Seq<char>,
    sessions: Map<u64, EntryView>,
    src: PeerAddr,
    handled: Map<u64, EntryView>,
    action: ServerAction,
    server: PeerAddr,
    known: ClientView,
    deliveries: Seq<Delivery>,
)
    requires
        cmd_handled(client, ClientCommand::<P>::StartDiscovery, candidate, asking, outcome),
        outcome matches CommandOutcome::Discover(datagram) ==> message_handled(
            name,
            sessions,
            src,
            parse_client_datagram(datagram@)->Ok_0,
            handled,
            action,
        ),
        action matches ServerAction::Reply(reply) ==> server_msg_handled(
            asking,
            heard(reply),
            server,
            known,
            deliveries,
        ),
    ensures
        handled == sessions,
        action matches ServerAction::Reply(reply) && reply.dst == src && heard(reply)
            == ServerContent::Announce(name),
        known.discovery_active,
        known.sessions == client.sessions,
        known.transfers == client.transfers,
        forall|a: PeerAddr|
            #![trigger known.neighbors.contains(a)]
            known.neighbors.contains(a) <==> client.neighbors.contains(a) || a == server,
        forall|i: int|
            0 <= i < deliveries.len() ==> (#[trigger] deliveries[i]).cmd@
                == SessionCommandView::AddNeighbor(server) && client.sessions.contains(
                deliveries[i].session_id.0,
            ),
        forall|i: int, j: int|
            0 <= i < j < deliveries.len() ==> (#[trigger] deliveries[i]).session_id
                != (#[trigger] deliveries[j]).session_id,
        forall|s: u32| #[trigger]
            client.sessions.contains(s) ==> exists|i: int|
                0 <= i < deliveries.len() && (#[trigger] deliveries[i]).session_id.0 == s,
{
    client_datagram_round_trip(ClientContent::Discover);
    let reply = action->Reply_0;
    lemma_heard(reply, src, ServerContent::Announce(name));
    assert forall|s: u32| #[trigger] client.sessions.contains(s) implies exists|i: int|
        0 <= i < deliveries.len() && (#[trigger] deliveries[i]).session_id.0 == s by {
        assert(super::client::is_addressed(deliveries, s));
    }
}

/// A client that does not look for servers takes no note of them.
pub proof fn unasked_servers_are_ignored<P>(
    client: ClientView,
    candidate: SessionId,
    quiet: ClientView,
    outcome: CommandOutcome<P>,
    name: Seq<char>,
    server: PeerAddr,
    known: ClientView,
    deliveries: Seq<Delivery>,
)
    requires
        cmd_handled(client, ClientCommand::<P>::StopDiscovery, candidate, quiet, outcome),
        server_msg_handled(quiet, ServerContent::Announce(name), server, known, deliveries),
    ensures
        outcome is Nothing,
        known == quiet,
        deliveries.len() == 0,
        quiet.sessions == client.sessions,
        quiet.neighbors == client.neighbors,
        quiet.transfers == client.transfers,
{
}

/// A new session has a number that no other session has, the path that it was made for, and the
/// servers that are known; no other session is touched, and there is one more.
pub proof fn new_session_is_one_more<P>(
    client: ClientView,
    path: P,
    candidate: SessionId,
    after: ClientView,
    outcome: CommandOutcome<P>,
)
    requires
        client.wf(),
        cmd_handled(client, ClientCommand::CreateSession { path }, candidate, after, outcome),
    ensures
        match outcome {
            CommandOutcome::Session(session_id, session) => {
                &&& !client.sessions.contains(candidate.0)
                &&& session_id == candidate
                &&& session.session_id() == candidate
                &&& session.path() == path
                &&& session.neighbors() == client.neighbors
                &&& forall|s: u32|
                    #![trigger after.sessions.contains(s)]
                    after.sessions.contains(s) <==> client.sessions.contains(s) || s
                        == candidate.0
                &&& after.sessions.len() == client.sessions.len() + 1
                &&& after.transfers == client.transfers
                &&& after.neighbors == client.neighbors
                &&& after.discovery_active == client.discovery_active
            },
            CommandOutcome::SessionIdTaken(same) => {
                &&& client.sessions.contains(candidate.0)
                &&& same == path
                &&& after == client
            },
            _ => false,
        },
{
}

/// A server that says that a transfer is done, or failed, or rejected, leaves the session that the
/// transfer was of: the session does without that server, and is over if and only if it was the
/// last. Other servers' transfers and other transfers of that server go on.
pub proof fn finished_servers_leave<P>(
    client: ClientView,
    server: PeerAddr,
    id: Identifier,
    session_id: SessionId,
    reply: Reply,
    dst: PeerAddr,
    content: ServerContent,
    known: ClientView,
    deliveries: Seq<Delivery>,
    session: SessionView<P>,
    session_after: SessionView<P>,
    instruction: SessionInstruction,
    file_cmd: Option<FileHandlerCmd<&P>>,
)
    requires
        client.wf(),
        client.transfers.contains(Transfer { addr: server, id, session_id }),
        content == (ServerContent::Done { id }) || (content matches ServerContent::Error {
            id: i,
            ..
        } && i == id),
        says(reply, dst, content),
        server_msg_handled(client, heard(reply), server, known, deliveries),
        deliveries.len() > 0 ==> session_cmd_handled(
            session,
            deliveries[0].cmd@,
            session_after,
            instruction,
            file_cmd,
        ),
    ensures
        deliveries.len() == 1,
        deliveries[0].session_id == session_id,
        file_cmd is None,
        forall|a: PeerAddr|
            #![trigger session_after.neighbors.contains(a)]
            session_after.neighbors.contains(a) <==> session.neighbors.contains(a) && a != server,
        instruction is Stop <==> forall|a: PeerAddr| session.neighbors.contains(a) ==> a == server,
        known.sessions == client.sessions,
        known.neighbors == client.neighbors,
        known.discovery_active == client.discovery_active,
        forall|t: Transfer|
            #![trigger known.transfers.contains(t)]
            known.transfers.contains(t) <==> client.transfers.contains(t) && !(t.addr == server
                && t.id == id),
{
    lemma_heard(reply, dst, content);
    assert(client.accepted(server, id, session_id));
    let s = client.session_of(server, id)->0;
    assert(client.accepted(server, id, s));
    assert(client.transfers.contains(Transfer { addr: server, id, session_id: s }));
    if forall|a: PeerAddr| session.neighbors.contains(a) ==> a == server {
        assert(session_after.neighbors =~= Set::empty());
    } else {
        let a = choose|a: PeerAddr| session.neighbors.contains(a) && a != server;
        assert(session_after.neighbors.contains(a));
        assert(!Set::<PeerAddr>::empty().contains(a));
    }
}

/// A server that is found joins a session, which goes on.
pub proof fn found_servers_join<P>(
    session: SessionView<P>,
    server: PeerAddr,
    after: SessionView<P>,
    instruction: SessionInstruction,
    file_cmd: Option<FileHandlerCmd<&P>>,
)
    requires
        session_cmd_handled(
            session,
            SessionCommandView::AddNeighbor(server),
            after,
            instruction,
            file_cmd,
        ),
    ensures
        instruction is Continue,
        file_cmd is None,
        after.path == session.path,
        after.session_id == session.session_id,
        forall|a: PeerAddr|
            #![trigger after.neighbors.contains(a)]
            after.neighbors.contains(a) <==> session.neighbors.contains(a) || a == server,
{
}

/// Whether a byte is among the 1435 from one of some offsets on.
pub open spec fn asked_for(offsets: Seq<u64>, x: u64) -> bool {
    exists|i: int| 0 <= i < offsets.len() && #[trigger] offsets[i] <= x < offsets[i] + 1435
}

/// A session of which at least 200 milliseconds nothing arrived, and of whose file a byte is
/// missing, is asked about, whoever its client is: one request goes to the client of that session,
/// under its identifier, for bytes that begin with the first one that is missing, and none that is
/// missing is left out up to the 180th chunk. A session for which something arrived less than 200
/// milliseconds ago is not asked about.
pub proof fn missing_bytes_are_asked_for_again(
    sessions: Map<u64, EntryView>,
    now: u64,
    requests: Seq<RepeatRequest>,
    id: u64,
    x: u64,
)
    requires
        sessions_wf(sessions),
        repetitions_requested(sessions, now, requests),
        sessions.contains_key(id),
        x < sessions[id].expected_size,
        !sessions[id].received().contains(x),
    ensures
        now >= sessions[id].last_received_at + 200 ==> exists|i: int|
            {
                &&& 0 <= i < requests.len()
                &&& (#[trigger] requests[i]).id == Identifier(id)
                &&& requests[i].reply.dst == sessions[id].src
                &&& heard(requests[i].reply) matches ServerContent::Repeat { id: to, offsets }
                &&& to == Identifier(id)
                &&& 0 < offsets.len() <= 180
                &&& offsets[0] <= x
                &&& !sessions[id].received().contains(offsets[0])
                &&& forall|y: u64| y < offsets[0] ==> sessions[id].received().contains(y)
                &&& asked_for(offsets, x) || (offsets.len() == 180 && offsets[179] < x)
            },
        now < sessions[id].last_received_at + 200 ==> forall|i: int|
            0 <= i < requests.len() ==> (#[trigger] requests[i]).id != Identifier(id),
        forall|i: int, j: int|
            0 <= i < requests.len() && 0 <= j < requests.len() && (#[trigger] requests[i]).id
                == Identifier(id) && (#[trigger] requests[j]).id == Identifier(id) ==> i == j,
{
    let entry = sessions[id];
    let spans = entry.spans;
    let size = entry.expected_size;
    assert(is_missing(spans, size, x));
    first_missing_byte_is_requested(spans, size, x);
    requests_skip_nothing(spans, size, x);
    let offsets = super::repetition::requested_offsets(spans, size);
    assert forall|y: u64| y < offsets[0] implies covered(spans).contains(y) by {
        if !covered(spans).contains(y) {
            assert(is_missing(spans, size, y));
            first_missing_byte_is_requested(spans, size, y);
        }
    }
    if now >= entry.last_received_at + 200 {
        assert(super::server::is_due(entry, now));
        assert(super::server::asks_for(requests, id));
        let i = choose|i: int| 0 <= i < requests.len() && (#[trigger] requests[i]).id.0 == id;
        lemma_heard(
            requests[i].reply,
            entry.src,
            super::server::repeat_request(id, entry),
        );
        assert(requests[i].id == Identifier(id));
    }
}

/// What a server asks for again, the client that the server accepted sends again: the session that
/// the transfer is of reads those chunks of its own file, for that server and identifier.
pub proof fn asked_for_chunks_are_sent_again<P>(
    reply: Reply,
    dst: PeerAddr,
    id: Identifier,
    offsets: Seq<u64>,
    client: ClientView,
    server: PeerAddr,
    session_id: SessionId,
    known: ClientView,
    deliveries: Seq<Delivery>,
    session: SessionView<P>,
    session_after: SessionView<P>,
    instruction: SessionInstruction,
    file_cmd: Option<FileHandlerCmd<&P>>,
)
    requires
        says(reply, dst, ServerContent::Repeat { id, offsets }),
        client.wf(),
        client.transfers.contains(Transfer { addr: server, id, session_id }),
        server_msg_handled(client, heard(reply), server, known, deliveries),
        deliveries.len() > 0 ==> session_cmd_handled(
            session,
            deliveries[0].cmd@,
            session_after,
            instruction,
            file_cmd,
        ),
    ensures
        reply.dst == dst,
        known == client,
        deliveries.len() == 1,
        deliveries[0].session_id == session_id,
        session_after == session,
        instruction is Continue,
        file_cmd matches Some(FileHandlerCmd::TransmitChunks { path, id: i, addr, chunks })
            && *path == session.path && i == id && addr == server && chunks@ == offsets,
{
    lemma_heard(reply, dst, ServerContent::Repeat { id, offsets });
    assert(client.accepted(server, id, session_id));
    let s = client.session_of(server, id)->0;
    assert(client.accepted(server, id, s));
    assert(client.transfers.contains(Transfer { addr: server, id, session_id: s }));
}

/// What a server says of a transfer that the client knows nothing of, or of another server's
/// transfer, changes nothing.
pub proof fn foreign_messages_change_nothing(
    client: ClientView,
    content: ServerContent,
    server: PeerAddr,
    id: Identifier,
    known: ClientView,
    deliveries: Seq<Delivery>,
)
    requires
        forall|t: Transfer| #[trigger]
            client.transfers.contains(t) ==> !(t.addr == server && t.id == id),
        match content {
            ServerContent::Error { id: i, .. } => i == id,
            ServerContent::Repeat { id: i, .. } => i == id,
            ServerContent::Done { id: i } => i == id,
            ServerContent::Ack { session_id, .. } => !client.sessions.contains(session_id.0),
            ServerContent::Nack { session_id, .. } => !client.sessions.contains(session_id.0),
            ServerContent::Announce(_) => !client.discovery_active,
        },
        server_msg_handled(client, content, server, known, deliveries),
    ensures
        known == client,
        deliveries.len() == 0,
{
    if client.session_of(server, id) is Some {
        let s = choose|s: SessionId| client.accepted(server, id, s);
        assert(client.transfers.contains(Transfer { addr: server, id, session_id: s }));
    }
}

/// A session that is over is forgotten, with its transfers, and nothing else is.
pub proof fn ended_session_is_forgotten(
    client: ClientView,
    session_id: SessionId,
    after: ClientView,
)
    requires
        session_forgotten(client, session_id, after),
    ensures
        forall|s: u32|
            #![trigger after.sessions.contains(s)]
            after.sessions.contains(s) <==> client.sessions.contains(s) && s != session_id.0,
        forall|t: Transfer|
            #![trigger after.transfers.contains(t)]
            after.transfers.contains(t) <==> client.transfers.contains(t) && t.session_id
                != session_id,
        after.neighbors == client.neighbors,
        after.discovery_active == client.discovery_active,
{
}

/// A client that cannot read a file any more tells the server so, under the identifier that the
/// server chose, and with the reason; the server ends that session and no other, without an answer;
/// and the client has the session do without the server.
pub proof fn failed_transfer_ends_on_both_sides(
    client: ClientView,
    server: PeerAddr,
    id: Identifier,
    session_id: SessionId,
    step: ReadStep,
    err: Seq<char>,
    known: ClientView,
    failure: TransferFailure,
    name: Seq<char>,
    before: Map<u64, EntryView>,
    src: PeerAddr,
    after: Map<u64, EntryView>,
    action: ServerAction,
)
    requires
        client.wf(),
        client.transfers.contains(Transfer { addr: server, id, session_id }),
        failure_handled(client, server, id, step, err, known, failure),
        message_handled(
            name,
            before,
            src,
            parse_client_datagram(failure.report@)->Ok_0,
            after,
            action,
        ),
    ensures
        parse_client_datagram(failure.report@) == Ok::<ClientContent, DecodeError>(
            ClientContent::Error { id, msg: super::client::read_text(step, err) },
        ),
        action is Nothing,
        forall|other: u64|
            #![trigger after.contains_key(other)]
            (after.contains_key(other) <==> before.contains_key(other) && other != id.0) && (
            after.contains_key(other) ==> after[other] == before[other]),
        failure.deliveries@.len() == 1,
        failure.deliveries@[0].session_id == session_id,
        failure.deliveries@[0].cmd@ == SessionCommandView::RemoveNeighbor(server),
        forall|t: Transfer|
            #![trigger known.transfers.contains(t)]
            known.transfers.contains(t) <==> client.transfers.contains(t) && !(t.addr == server
                && t.id == id),
{
    let text = super::client::read_text(step, err);
    client_datagram_round_trip(ClientContent::Error { id, msg: text });
    assert(client.accepted(server, id, session_id));
    let s = client.session_of(server, id)->0;
    assert(client.accepted(server, id, s));
    assert(client.transfers.contains(Transfer { addr: server, id, session_id: s }));
}

/// What a server makes of a part of a file. One that is empty, longer than 1435 bytes, or shorter
/// though it does not reach the end of the file, or that has no end, is an error, and ends the
/// session; one of which every byte arrived before is ignored; any other one is to be written just
/// where the client put it. No other session is touched, and one that is not there is ignored.
pub proof fn parts_of_files_are_judged(
    name: Seq<char>,
    before: Map<u64, EntryView>,
    src: PeerAddr,
    id: Identifier,
    offset: u64,
    content: Seq<u8>,
    after: Map<u64, EntryView>,
    action: ServerAction,
)
    requires
        content.len() <= usize::MAX,
        message_handled(
            name,
            before,
            src,
            parse_client_datagram(
                prefix() + client_bytes(ClientContent::Data { id, offset, content }),
            )->Ok_0,
            after,
            action,
        ),
    ensures
        forall|other: u64|
            #![trigger after.contains_key(other)]
            other != id.0 ==> (after.contains_key(other) <==> before.contains_key(other)) && (
            before.contains_key(other) ==> after[other] == before[other]),
        !before.contains_key(id.0) ==> after == before && action is Nothing,
        before.contains_key(id.0) ==> {
            let entry = before[id.0];
            let len = content.len() as int;
            let wrong_length = len == 0 || len > 1435 || (len < 1435 && offset + 1435
                < entry.expected_size);
            let wrong = wrong_length || offset + len > 0x1_0000_0000_0000_0000;
            let known = forall|x: u64| offset <= x < offset + len ==> entry.received().contains(x);
            if wrong {
                &&& !after.contains_key(id.0)
                &&& action matches ServerAction::Reply(reply)
                &&& reply.dst == src
                &&& heard(reply) == (ServerContent::Error {
                    id,
                    msg: if wrong_length {
                        super::server::bad_length_text(offset, len)
                    } else {
                        super::server::bad_offset_text(offset)
                    },
                })
            } else if known {
                after == before && action is Nothing
            } else {
                &&& after == before
                &&& action matches ServerAction::WriteChunk(chunk)
                &&& chunk.src == src
                &&& chunk.id == id
                &&& chunk.offset == offset
                &&& chunk.len == len
            }
        },
{
    client_datagram_round_trip(ClientContent::Data { id, offset, content });
    if before.contains_key(id.0) {
        let entry = before[id.0];
        let len = content.len() as int;
        let part = chunk_positions(offset, len);
        let known = forall|x: u64| offset <= x < offset + len ==> entry.received().contains(x);
        if part.subset_of(entry.received()) {
            assert forall|x: u64| offset <= x < offset + len implies entry.received().contains(
                x,
            ) by {
                assert(part.contains(x));
            }
        } else if known {
            assert(part.subset_of(entry.received()));
        }
        if action is Reply {
            let reply = action->Reply_0;
            server_datagram_round_trip(
                ServerContent::Error { id, msg: super::server::bad_length_text(offset, len) },
            );
            server_datagram_round_trip(
                ServerContent::Error { id, msg: super::server::bad_offset_text(offset) },
            );
        }
    }
}

/// What a server makes of a part of a file that was written: it counts the part's bytes, remembers
/// the part's positions with those that it has, and when they arrived. As soon as as many bytes were
/// counted as the client announced, the session is over and all of the file is to be checked,
/// against the digest that the client announced; with more, the session is over with an error. No
/// other session is touched.
pub proof fn written_parts_are_counted(
    before: Map<u64, EntryView>,
    chunk: PendingChunk,
    now: u64,
    after: Map<u64, EntryView>,
    outcome: ChunkOutcome,
)
    requires
        before.contains_key(chunk.id.0),
        chunk_recorded(before, chunk, None, now, after, outcome),
    ensures
        forall|other: u64|
            #![trigger after.contains_key(other)]
            other != chunk.id.0 ==> (after.contains_key(other) <==> before.contains_key(other)) && (
            before.contains_key(other) ==> after[other] == before[other]),
        ({
            let entry = before[chunk.id.0];
            let size = entry.curr_size + chunk.len;
            if size < entry.expected_size {
                let next = after[chunk.id.0];
                &&& outcome is Nothing
                &&& after.contains_key(chunk.id.0)
                &&& next.src == entry.src
                &&& next.hash == entry.hash
                &&& next.expected_size == entry.expected_size
                &&& next.curr_size == size
                &&& next.last_received_at == now
                &&& forall|x: u64|
                    #![trigger next.received().contains(x)]
                    next.received().contains(x) <==> entry.received().contains(x)
                        || chunk.offset <= x < chunk.offset + chunk.len
            } else if size == entry.expected_size {
                &&& !after.contains_key(chunk.id.0)
                &&& outcome matches ChunkOutcome::Verify(file)
                &&& file.src == chunk.src
                &&& file.id == chunk.id
                &&& file.size == entry.expected_size
                &&& file.hash@ == entry.hash
            } else {
                &&& !after.contains_key(chunk.id.0)
                &&& outcome matches ChunkOutcome::Reply(reply)
                &&& reply.dst == chunk.src
                &&& heard(reply) == (ServerContent::Error {
                    id: chunk.id,
                    msg: super::server::overflow_text(size as nat, entry.expected_size as nat),
                })
            }
        }),
{
    let entry = before[chunk.id.0];
    let size = entry.curr_size + chunk.len;
    if size < entry.expected_size {
        assert forall|other: u64|
            #![trigger after.contains_key(other)]
            other != chunk.id.0 implies (after.contains_key(other) <==> before.contains_key(other))
            && (before.contains_key(other) ==> after[other] == before[other]) by {
            assert(after.remove(chunk.id.0).contains_key(other) == before.remove(
                chunk.id.0,
            ).contains_key(other));
            assert(after.remove(chunk.id.0)[other] == before.remove(chunk.id.0)[other]);
        }
    } else if size > entry.expected_size {
        server_datagram_round_trip(
            ServerContent::Error {
                id: chunk.id,
                msg: super::server::overflow_text(size as nat, entry.expected_size as nat),
            },
        );
    }
}

/// A part of a file that could not be written ends its session and no other; the client is told
/// why.
pub proof fn failed_writes_end_the_session(
    before: Map<u64, EntryView>,
    chunk: PendingChunk,
    step: WriteStep,
    err: String,
    now: u64,
    after: Map<u64, EntryView>,
    outcome: ChunkOutcome,
)
    requires
        before.contains_key(chunk.id.0),
        chunk_recorded(before, chunk, Some((step, err)), now, after, outcome),
    ensures
        forall|other: u64|
            #![trigger after.contains_key(other)]
            (after.contains_key(other) <==> before.contains_key(other) && other != chunk.id.0) && (
            after.contains_key(other) ==> after[other] == before[other]),
        outcome matches ChunkOutcome::Reply(reply) && reply.dst == chunk.src && heard(reply) == (
        ServerContent::Error {
            id: chunk.id,
            msg: super::server::write_text(step, chunk.offset, err@),
        }),
{
    let text = super::server::write_text(step, chunk.offset, err@);
    server_datagram_round_trip(ServerContent::Error { id: chunk.id, msg: text });
}

/// A server is idle if and only if it knows no session under any identifier.
pub proof fn idle_servers_know_no_session(sessions: Map<u64, EntryView>)
    ensures
        no_sessions(sessions) <==> forall|id: u64| !#[trigger] sessions.contains_key(id),
{
    if forall|id: u64| !#[trigger] sessions.contains_key(id) {
        assert(sessions =~= Map::<u64, EntryView>::empty());
    }
}

/// A client is idle if and only if no server accepted any of its sessions and is not done with it.
pub proof fn idle_clients_have_no_transfer(client: ClientView)
    ensures
        no_transfers(client) <==> forall|t: Transfer| !#[trigger] client.transfers.contains(t),
{
    if forall|t: Transfer| !#[trigger] client.transfers.contains(t) {
        assert(client.transfers =~= Set::empty());
    }
}

/// A server makes itself known by the name that it was given, whatever that is, and begins without
/// sessions.
pub proof fn servers_go_by_their_names(
    given: Seq<char>,
    name: Seq<char>,
    sessions: Map<u64, EntryView>,
    src: PeerAddr,
    after: Map<u64, EntryView>,
    action: ServerAction,
)
    requires
        server_begun(given, name, sessions),
        message_handled(name, sessions, src, ClientContent::Discover, after, action),
    ensures
        forall|id: u64| !#[trigger] sessions.contains_key(id),
        action matches ServerAction::Reply(reply) && reply.dst == src && heard(reply)
            == ServerContent::Announce(given),
{
    server_datagram_round_trip(ServerContent::Announce(given));
}

/// A new session is asked for first: it has the file at the path that it was made for read, to ask
/// for the session under its own number.
pub proof fn new_session_asks_for_itself<P>(
    client: ClientView,
    path: P,
    candidate: SessionId,
    after: ClientView,
    outcome: CommandOutcome<P>,
    cmd: FileHandlerCmd<&P>,
)
    requires
        cmd_handled(client, ClientCommand::CreateSession { path }, candidate, after, outcome),
        outcome matches CommandOutcome::Session(_, session) ==> session_begun(session@, cmd),
    ensures
        outcome is Session ==> (cmd matches FileHandlerCmd::Start { path: p, session_id } && *p
            == path && session_id == candidate),
{
}

/// What a client asks for is what a server reads from its request: the number of the session, the
/// size and the digest of the file, and its path. There is a request for every path that stays
/// inside of the server's root folder, and for no other.
pub proof fn requests_say_what_is_asked_for(
    session_id: SessionId,
    size: u64,
    hash: Seq<u8>,
    path: Seq<char>,
)
    requires
        hash.len() == 32,
    ensures
        request_for(session_id, size, hash, path) is Some <==> inside_root(path),
        inside_root(path) ==> start_heard(session_id, size, hash, path) == (ClientContent::Start {
            session_id,
            size,
            hash,
            path,
        }),
{
    if inside_root(path) {
        client_datagram_round_trip(ClientContent::Start { session_id, size, hash, path });
    }
}

/// A session that a server accepted twice under one identifier is sent to it once.
pub proof fn accepting_twice_changes_nothing(
    client: ClientView,
    server: PeerAddr,
    id: Identifier,
    session_id: SessionId,
    known: ClientView,
    deliveries: Seq<Delivery>,
)
    requires
        client.transfers.contains(Transfer { addr: server, id, session_id }),
        server_msg_handled(
            client,
            ServerContent::Ack { session_id, id },
            server,
            known,
            deliveries,
        ),
    ensures
        known == client,
        deliveries.len() == 0,
{
}

} // verus!
