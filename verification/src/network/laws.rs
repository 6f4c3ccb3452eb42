//! What holds between clients and servers.

use super::client::{
    delivers, read_text, server_msg_handled, transfer_over, ClientView, Delivery, ReadStep,
    SessionCommandView, Transfer,
};
use super::paths::inside_root;
use super::repetition::{first_missing_byte_is_requested, is_missing, requested_offsets};
use super::server::{
    bad_length_text, bad_offset_text, chunk_recorded, data_verdict, extended, hash_failure_text,
    is_due, is_silent, message_handled, mismatch_text, overflow_text, prepare_text, repeat_request,
    says, sessions_wf, verdict_on_file, write_text, ChunkOutcome, EntryView, PrepareStep,
    ReceivedFile, Reply, ServerAction, WriteStep,
};
use super::transfer::{
    all_chunks, chunk_count, chunk_len, chunk_start, chunks_may_come_in_any_order,
    chunks_rebuild_the_file, holds, lemma_chunk, overwritten, positions, same_in,
    session_begins_empty,
};
use super::PeerAddr;
use crate::digest::sha256;
use crate::protocol::client_message::{client_bytes, ClientContent};
use crate::protocol::datagram::{parse_client_datagram, parse_server_datagram, prefix};
use crate::protocol::laws::{client_datagram_round_trip, server_datagram_round_trip};
use crate::protocol::server_message::ServerContent;
use crate::protocol::{DecodeError, Identifier, SessionId};
use crate::text::{decimal, hex_text};
use vstd::prelude::*;

verus! {

/// A client reads from a server's reply what the server says: a session that is rejected is
/// rejected for the client that asked for it, with the reason; one that is accepted is accepted
/// under the identifier that the server chose.
pub proof fn replies_are_understood(reply: Reply, dst: PeerAddr, content: ServerContent)
    requires
        says(reply, dst, content),
    ensures
        parse_server_datagram(reply.datagram@) == Ok::<ServerContent, DecodeError>(content),
{
    server_datagram_round_trip(content);
}

/// A server reads from a client's request for a session what the client asks for.
pub proof fn start_requests_are_understood(
    session_id: SessionId,
    size: u64,
    hash: Seq<u8>,
    path: Seq<char>,
)
    requires
        hash.len() == 32,
        inside_root(path),
    ensures
        parse_client_datagram(
            prefix() + client_bytes(ClientContent::Start { session_id, size, hash, path }),
        ) == Ok::<ClientContent, DecodeError>(
            ClientContent::Start { session_id, size, hash, path },
        ),
{
    client_datagram_round_trip(ClientContent::Start { session_id, size, hash, path });
}

/// A file is done if and only if its digest could be computed and is the announced one.
pub proof fn done_means_the_digest_matches(
    id: Identifier,
    expected: Seq<u8>,
    computed: Result<Seq<u8>, Seq<char>>,
)
    ensures
        verdict_on_file(id, expected, computed) is Done <==> computed == Ok::<Seq<u8>, Seq<char>>(
            expected,
        ),
        !(verdict_on_file(id, expected, computed) is Done) ==> verdict_on_file(
            id,
            expected,
            computed,
        ) is Error,
{
}

/// The chunk that completes a file makes the server's copy the file itself, and the server answers
/// that the transfer is done: the digest that it computes is the announced one.
pub proof fn complete_file_is_done(
    sessions: Map<u64, EntryView>,
    id: Identifier,
    chunks: Set<int>,
    k: int,
    copy: Seq<u8>,
    file: Seq<u8>,
)
    requires
        sessions.contains_key(id.0),
        holds(sessions[id.0], chunks),
        file.len() == sessions[id.0].expected_size,
        sessions[id.0].hash == sha256(file),
        same_in(copy, file, chunks),
        0 <= k < chunk_count(sessions[id.0].expected_size),
        !chunks.contains(k),
    ensures
        ({
            let entry = sessions[id.0];
            let size = entry.expected_size;
            let start = chunk_start(k);
            let len = chunk_len(k, size);
            let after = overwritten(copy, start, file.subrange(start, start + len));
            entry.curr_size + len == size ==> {
                &&& after == file
                &&& verdict_on_file(id, entry.hash, Ok(sha256(after))) is Done
            }
        }),
{
    chunks_may_come_in_any_order(sessions, id, chunks, k);
    chunks_rebuild_the_file(copy, file, chunks, k);
}

/// A server, and the file of one of its sessions as far as it is written.
pub struct Receiving {
    pub sessions: Map<u64, EntryView>,
    pub file: Seq<u8>,
}

/// What happens when a chunk arrives.
pub struct Arrival {
    /// The sessions after the message was handled.
    pub handled: Map<u64, EntryView>,
    /// What is to be done about the message.
    pub action: ServerAction,
    /// When the chunk was written, if it was.
    pub now: u64,
    /// What is to be done after that.
    pub outcome: ChunkOutcome,
    /// What the server sends.
    pub reply: Option<Reply>,
}

/// Whether a chunk of a file arrives: its message is handled, its content is written if that is to
/// be done, and as much of the file as the server says is checked if that is to be done; and all of
/// that succeeds.
pub open spec fn arrives(
    name: Seq<char>,
    before: Receiving,
    src: PeerAddr,
    id: Identifier,
    file: Seq<u8>,
    k: int,
    arrival: Arrival,
    after: Receiving,
) -> bool {
    let start = chunk_start(k);
    let content = file.subrange(start, start + chunk_len(k, file.len() as u64));
    &&& message_handled(
        name,
        before.sessions,
        src,
        ClientContent::Data { id, offset: start as u64, content },
        arrival.handled,
        arrival.action,
    )
    &&& match arrival.action {
        ServerAction::Nothing => {
            &&& after == (Receiving { sessions: arrival.handled, file: before.file })
            &&& arrival.reply is None
        },
        ServerAction::Reply(reply) => {
            &&& after == (Receiving { sessions: arrival.handled, file: before.file })
            &&& arrival.reply == Some(reply)
        },
        ServerAction::PrepareFile(_) => false,
        ServerAction::WriteChunk(chunk) => {
            &&& after.file == overwritten(before.file, chunk.offset as int, content)
            &&& chunk_recorded(
                arrival.handled,
                chunk,
                None,
                arrival.now,
                after.sessions,
                arrival.outcome,
            )
            &&& sessions_wf(after.sessions)
            &&& match arrival.outcome {
                ChunkOutcome::Nothing => arrival.reply is None,
                ChunkOutcome::Reply(reply) => arrival.reply == Some(reply),
                ChunkOutcome::Verify(received) => {
                    &&& arrival.reply matches Some(reply)
                    &&& says(
                        reply,
                        received.src,
                        verdict_on_file(
                            received.id,
                            received.hash@,
                            Ok(sha256(after.file.take(received.size as int))),
                        ),
                    )
                },
            }
        },
    }
}

/// Where a server stands that got some of the chunks of a file.
spec fn received(
    state: Receiving,
    others: Map<u64, EntryView>,
    id: Identifier,
    file: Seq<u8>,
    chunks: Set<int>,
) -> bool {
    let size = file.len() as u64;
    &&& state.sessions.remove(id.0) == others
    &&& if all_chunks(chunks, size) {
        !state.sessions.contains_key(id.0) && state.file == file
    } else {
        let entry = state.sessions[id.0];
        &&& state.sessions.contains_key(id.0)
        &&& entry.expected_size == size
        &&& entry.hash == sha256(file)
        &&& holds(entry, chunks)
        &&& same_in(state.file, file, chunks)
    }
}

proof fn lemma_arrival(
    name: Seq<char>,
    before: Receiving,
    src: PeerAddr,
    id: Identifier,
    file: Seq<u8>,
    k: int,
    arrival: Arrival,
    after: Receiving,
    others: Map<u64, EntryView>,
    chunks: Set<int>,
)
    requires
        file.len() <= u64::MAX,
        0 <= k < chunk_count(file.len() as u64),
        arrives(name, before, src, id, file, k, arrival, after),
        received(before, others, id, file, chunks),
    ensures
        received(after, others, id, file, chunks.insert(k)),
        if all_chunks(chunks.insert(k), file.len() as u64) && !all_chunks(
            chunks,
            file.len() as u64,
        ) {
            arrival.reply matches Some(reply) && says(reply, src, ServerContent::Done { id })
        } else {
            arrival.reply is None
        },
{
    let size = file.len() as u64;
    let more = chunks.insert(k);
    let start = chunk_start(k);
    let len = chunk_len(k, size);
    lemma_chunk(k, size);
    if all_chunks(chunks, size) {
        assert(all_chunks(more, size));
    } else {
        let entry = before.sessions[id.0];
        chunks_may_come_in_any_order(before.sessions, id, chunks, k);
        if chunks.contains(k) {
            assert(more =~= chunks);
        } else {
            chunks_rebuild_the_file(before.file, file, chunks, k);
            let chunk = arrival.action->WriteChunk_0;
            assert(chunk.offset == start as u64 && chunk.len == len);
            if entry.curr_size + len < size {
                let next = after.sessions[id.0];
                assert(extended(entry, next, chunk, arrival.now));
                assert(next.wf());
            } else {
                assert(before.sessions.remove(id.0).remove(id.0) =~= before.sessions.remove(id.0));
                assert(after.file.take(size as int) =~= file);
            }
        }
    }
}

proof fn lemma_arrivals(
    name: Seq<char>,
    src: PeerAddr,
    id: Identifier,
    file: Seq<u8>,
    order: Seq<int>,
    states: Seq<Receiving>,
    arrivals: Seq<Arrival>,
    n: int,
)
    requires
        0 <= n <= order.len(),
        states.len() == order.len() + 1,
        arrivals.len() == order.len(),
        0 < file.len() <= u64::MAX,
        begins(states[0], id, file),
        all_arrive(name, src, id, file, order, states, arrivals),
    ensures
        received(
            states[n],
            states[0].sessions.remove(id.0),
            id,
            file,
            order.take(n).to_set(),
        ),
    decreases n,
{
    let others = states[0].sessions.remove(id.0);
    if n == 0 {
        assert(order.take(0).to_set() =~= Set::empty());
        session_begins_empty(states[0].sessions[id.0]);
        let size = file.len() as u64;
        assert(0 < chunk_count(size)) by (nonlinear_arith)
            requires
                size > 0,
                chunk_count(size) == (size + crate::protocol::CHUNK_SIZE - 1)
                    / crate::protocol::CHUNK_SIZE as int,
                crate::protocol::CHUNK_SIZE == 1435,
        ;
        assert(!Set::<int>::empty().contains(0));
    } else {
        lemma_arrivals(name, src, id, file, order, states, arrivals, n - 1);
        let k = order[n - 1];
        lemma_arrival(
            name,
            states[n - 1],
            src,
            id,
            file,
            k,
            arrivals[n - 1],
            states[n],
            others,
            order.take(n - 1).to_set(),
        );
        lemma_take_insert(order, n);
    }
}

proof fn lemma_take_insert(order: Seq<int>, n: int)
    requires
        0 < n <= order.len(),
    ensures
        order.take(n).to_set() == order.take(n - 1).to_set().insert(order[n - 1]),
{
    let a = order.take(n);
    let b = order.take(n - 1);
    assert forall|x: int| a.to_set().contains(x) <==> b.to_set().insert(order[n - 1]).contains(
        x,
    ) by {
        if a.contains(x) {
            let i = a.index_of(x);
            if i < n - 1 {
                assert(b[i] == x);
            }
        }
        if b.contains(x) {
            assert(a[b.index_of(x)] == x);
        }
        assert(a[n - 1] == order[n - 1]);
    }
    assert(a.to_set() =~= b.to_set().insert(order[n - 1]));
}

/// Whether a server has just accepted a file under an identifier, and nothing of it arrived yet.
pub open spec fn begins(state: Receiving, id: Identifier, file: Seq<u8>) -> bool {
    &&& state.file.len() == file.len()
    &&& state.sessions.contains_key(id.0)
    &&& state.sessions[id.0].expected_size == file.len()
    &&& state.sessions[id.0].hash == sha256(file)
    &&& state.sessions[id.0].curr_size == 0
    &&& state.sessions[id.0].spans == Seq::<(u64, u64)>::empty()
}

/// Whether chunks of a file arrive, in this order.
pub open spec fn all_arrive(
    name: Seq<char>,
    src: PeerAddr,
    id: Identifier,
    file: Seq<u8>,
    order: Seq<int>,
    states: Seq<Receiving>,
    arrivals: Seq<Arrival>,
) -> bool {
    forall|i: int|
        0 <= i < order.len() ==> 0 <= #[trigger] order[i] < chunk_count(file.len() as u64)
            && arrives(name, states[i], src, id, file, order[i], arrivals[i], states[i + 1])
}

/// Chunks of a file that was just accepted may arrive in any order, any of them more than once.
/// The server sends nothing until the last chunk that it did not have arrives; with that one the
/// file is what was sent, the session is over, and the server answers that the transfer is done.
/// What arrives afterwards changes nothing and is not answered. No other session is touched.
pub proof fn any_order_completes_the_file(
    name: Seq<char>,
    src: PeerAddr,
    id: Identifier,
    file: Seq<u8>,
    order: Seq<int>,
    states: Seq<Receiving>,
    arrivals: Seq<Arrival>,
)
    requires
        states.len() == order.len() + 1,
        arrivals.len() == order.len(),
        0 < file.len() <= u64::MAX,
        begins(states[0], id, file),
        all_arrive(name, src, id, file, order, states, arrivals),
    ensures
        forall|i: int|
            0 <= i < order.len() ==> {
                let had_all = all_chunks(order.take(i).to_set(), file.len() as u64);
                let has_all = all_chunks(order.take(i + 1).to_set(), file.len() as u64);
                let after = states[i + 1];
                &&& if has_all && !had_all {
                    (#[trigger] arrivals[i]).reply matches Some(reply) && says(
                        reply,
                        src,
                        ServerContent::Done { id },
                    )
                } else {
                    arrivals[i].reply is None
                }
                &&& after.sessions.contains_key(id.0) <==> !has_all
                &&& has_all ==> after.file == file
                &&& after.sessions.remove(id.0) == states[0].sessions.remove(id.0)
            },
{
    let size = file.len() as u64;
    let others = states[0].sessions.remove(id.0);
    assert forall|i: int| 0 <= i < order.len() implies {
        let had_all = all_chunks(order.take(i).to_set(), size);
        let has_all = all_chunks(order.take(i + 1).to_set(), size);
        let after = states[i + 1];
        &&& if has_all && !had_all {
            (#[trigger] arrivals[i]).reply matches Some(reply) && says(
                reply,
                src,
                ServerContent::Done { id },
            )
        } else {
            arrivals[i].reply is None
        }
        &&& after.sessions.contains_key(id.0) <==> !has_all
        &&& has_all ==> after.file == file
        &&& after.sessions.remove(id.0) == others
    } by {
        lemma_arrivals(name, src, id, file, order, states, arrivals, i);
        let k = order[i];
        lemma_arrival(
            name,
            states[i],
            src,
            id,
            file,
            k,
            arrivals[i],
            states[i + 1],
            others,
            order.take(i).to_set(),
        );
        lemma_take_insert(order, i + 1);
    }
}

/// A client finds the session again that a server accepted, under the identifier that the server
/// chose, and other servers' transfers are as they were.
pub proof fn accepted_session_is_found_again(
    before: ClientView,
    src: PeerAddr,
    session_id: SessionId,
    id: Identifier,
    after: ClientView,
    deliveries: Seq<Delivery>,
)
    requires
        before.wf(),
        after.wf(),
        before.sessions.contains(session_id.0),
        server_msg_handled(
            before,
            ServerContent::Ack { session_id, id },
            src,
            after,
            deliveries,
        ),
    ensures
        after.session_of(src, id) == Some(session_id),
        forall|t: Transfer|
            t.addr != src || t.id != id ==> (#[trigger] after.transfers.contains(t)
                <==> before.transfers.contains(t)),
{
    let transfer = Transfer { addr: src, id, session_id };
    assert(after.transfers.contains(transfer));
    assert(after.accepted(src, id, session_id));
    let s = after.session_of(src, id)->0;
    assert(after.accepted(src, id, s));
    assert(after.transfers.contains(Transfer { addr: src, id, session_id: s }));
}

/// A server's request for missing chunks reaches the session that the server accepted: the client
/// reads those offsets from it that the server asks for, and has that session send them again.
pub proof fn repeat_requests_reach_the_session(
    reply: Reply,
    dst: PeerAddr,
    id: Identifier,
    entry: EntryView,
    before: ClientView,
    src: PeerAddr,
    session_id: SessionId,
    after: ClientView,
    deliveries: Seq<Delivery>,
)
    requires
        says(reply, dst, repeat_request(id.0, entry)),
        before.wf(),
        before.accepted(src, id, session_id),
        parse_server_datagram(reply.datagram@) matches Ok(content) ==> server_msg_handled(
            before,
            content,
            src,
            after,
            deliveries,
        ),
    ensures
        delivers(
            deliveries,
            session_id,
            SessionCommandView::Retransmit {
                id,
                addr: src,
                chunks: requested_offsets(entry.spans, entry.expected_size),
            },
        ),
{
    replies_are_understood(reply, dst, repeat_request(id.0, entry));
    let s = before.session_of(src, id)->0;
    assert(before.accepted(src, id, s));
    assert(before.transfers.contains(Transfer { addr: src, id, session_id: s }));
    assert(before.transfers.contains(Transfer { addr: src, id, session_id }));
}

/// A client does nothing more for a transfer that is over: what a server still asks for under its
/// identifier reaches no session, until the server accepts another session under it.
pub proof fn ended_transfers_are_silent(
    before: ClientView,
    addr: PeerAddr,
    id: Identifier,
    after: ClientView,
    deliveries: Seq<Delivery>,
)
    requires
        before.wf(),
        transfer_over(before, addr, id, after, deliveries),
    ensures
        after.session_of(addr, id) is None,
        forall|offsets: Seq<u64>, later: ClientView, more: Seq<Delivery>| #[trigger]
            server_msg_handled(after, ServerContent::Repeat { id, offsets }, addr, later, more)
                ==> later == after && more.len() == 0,
{
    if after.session_of(addr, id) is Some {
        let s = choose|s: SessionId| after.accepted(addr, id, s);
        assert(after.accepted(addr, id, s));
        assert(before.accepted(addr, id, s));
        assert(after.transfers.contains(Transfer { addr, id, session_id: s }));
    }
}

/// A server ignores what still arrives for a session that is over.
pub proof fn ended_sessions_are_ignored(
    sessions: Map<u64, EntryView>,
    id: Identifier,
    offset: u64,
    len: int,
)
    ensures
        data_verdict(sessions.remove(id.0), id, offset, len) is Unknown,
{
}

/// As long as anything is missing, a session for which nothing arrives is asked about, whatever
/// arrived for it: the transfer goes on until the server has all of the file.
pub proof fn silent_sessions_are_asked_about(entry: EntryView, x: u64, now: u64)
    requires
        entry.wf(),
        is_missing(entry.spans, entry.expected_size, x),
        is_silent(entry, now),
    ensures
        is_due(entry, now),
{
    first_missing_byte_is_requested(entry.spans, entry.expected_size, x);
}

/// As long as a chunk is missing, something is.
pub proof fn missing_chunks_have_missing_bytes(entry: EntryView, chunks: Set<int>, k: int)
    requires
        holds(entry, chunks),
        0 <= k < chunk_count(entry.expected_size),
        !chunks.contains(k),
    ensures
        is_missing(entry.spans, entry.expected_size, chunk_start(k) as u64),
{
    let size = entry.expected_size;
    lemma_chunk(k, size);
    let x = chunk_start(k) as u64;
    assert(x as int / crate::protocol::CHUNK_SIZE as int == k);
    assert(!positions(chunks, size).contains(x));
}

/// What a client or a server is told that went wrong says what did, and with which numbers.
pub proof fn reasons_are_told(
    offset: u64,
    len: nat,
    received: nat,
    expected: nat,
    err: Seq<char>,
    a: Seq<u8>,
    b: Seq<u8>,
)
    ensures
        bad_length_text(offset, len as int) == "chunk "@ + decimal(offset as nat)
            + " has unexpected length "@ + decimal(len),
        bad_offset_text(offset) == "chunk "@ + decimal(offset as nat) + " is out of range"@,
        write_text(WriteStep::Seek, offset, err) == "at chunk "@ + decimal(offset as nat)
            + ", error seeking: "@ + err,
        write_text(WriteStep::Write, offset, err) == "at chunk "@ + decimal(offset as nat)
            + ", error writing: "@ + err,
        overflow_text(received, expected) == "payload overflow: received "@ + decimal(received)
            + " bytes, expected "@ + decimal(expected),
        mismatch_text(a, b) == "mismatched hash! got "@ + hex_text(a) + ", expected "@ + hex_text(
            b,
        ),
        hash_failure_text(err) == "error calculating hash: "@ + err,
        prepare_text(PrepareStep::CreateParents, err) == "failed to create parent directories: "@
            + err,
        prepare_text(PrepareStep::Open, err) == "failed to open file: "@ + err,
        prepare_text(PrepareStep::Allocate, err) == "failed to pre-allocate file: "@ + err,
        read_text(ReadStep::Open, err) == "failed to open file: "@ + err,
        read_text(ReadStep::Inspect, err) == "failed to fetch file stats: "@ + err,
        read_text(ReadStep::Read, err) == "failed to read file: "@ + err,
{
}

/// A file that was checked is answered for what was found, whatever the digests are: that it is
/// done, or why not.
pub proof fn checked_files_are_answered(
    reply: Reply,
    file: ReceivedFile,
    computed: Result<Seq<u8>, Seq<char>>,
)
    requires
        says(reply, file.src, verdict_on_file(file.id, file.hash@, computed)),
    ensures
        reply.dst == file.src,
        parse_server_datagram(reply.datagram@) == Ok::<ServerContent, DecodeError>(
            match computed {
                Ok(hash) => if hash == file.hash@ {
                    ServerContent::Done { id: file.id }
                } else {
                    ServerContent::Error { id: file.id, msg: mismatch_text(hash, file.hash@) }
                },
                Err(err) => ServerContent::Error { id: file.id, msg: hash_failure_text(err) },
            },
        ),
{
    server_datagram_round_trip(verdict_on_file(file.id, file.hash@, computed));
}

} // verus!
