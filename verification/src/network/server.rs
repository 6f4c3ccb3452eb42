//! The receiving side: which sessions a server is engaged with, and what it does about each
//! message.
//!
//! Files, sockets and clocks are the caller's. A message goes to `ServerContext::handle_message`,
//! which answers with what is to be done; what came of that goes back to the function that the
//! action names.

use super::paths::{inside_root, is_inside_root};
use super::repetition::{repeat_offsets, requested_offsets};
use super::PeerAddr;
use crate::protocol::client_message::{ClientContent, ClientMessage};
use crate::protocol::datagram::prefix;
use crate::protocol::server_message::{server_bytes, ServerContent, ServerMessage};
use crate::protocol::{Identifier, SessionId, CHUNK_SIZE};
use crate::ranges::{covered, interval, separated, spans, ReceivedRanges};
use crate::text::{decimal, hex_text, push_decimal};
use std::borrow::Cow;
use std::collections::HashMap;
use vstd::prelude::*;

verus! {

broadcast use vstd::std_specs::hash::group_hash_axioms;

/// How long, in milliseconds, nothing must have arrived for a session before its missing chunks
/// are asked for again.
pub const REPEAT_REQUEST_DELAY: u64 = 200;

/// How a server opens the files that it receives, always for reading and writing.
#[derive(Debug, Clone, Copy, PartialEq, Eq, Structural)]
pub struct OpenMode {
    /// A file that is not there is created.
    pub create: bool,
    /// A file that is there is emptied.
    pub truncate: bool,
    /// The file must not be there, and is created.
    pub create_new: bool,
}

/// How files are opened: one that is there is replaced if that is allowed, else it is in the way.
pub fn open_mode(overwrite: bool) -> (mode: OpenMode)
    ensures
        mode == (OpenMode { create: overwrite, truncate: overwrite, create_new: !overwrite }),
{
    if overwrite {
        OpenMode { create: true, truncate: true, create_new: false }
    } else {
        OpenMode { create: false, truncate: false, create_new: true }
    }
}

/// A file that is being received.
#[derive(Debug)]
pub struct FileEntry {
    src: PeerAddr,
    hash: crate::protocol::Hash<'static>,
    curr_size: u64,
    expected_size: u64,
    received: ReceivedRanges,
    last_received_at: u64,
}

/// What is known of a file that is being received.
pub struct EntryView {
    /// Who sends it.
    pub src: PeerAddr,
    /// What its digest should be.
    pub hash: Seq<u8>,
    /// How many bytes arrived.
    pub curr_size: nat,
    /// How many there should be.
    pub expected_size: u64,
    /// The spans of positions that arrived.
    pub spans: Seq<(u64, u64)>,
    /// When the last of them arrived.
    pub last_received_at: u64,
}

impl EntryView {
    /// The positions that arrived.
    pub open spec fn received(self) -> Set<u64> {
        covered(self.spans)
    }

    /// The file is not complete: as soon as as many bytes arrived as should, its session ends.
    pub open spec fn wf(self) -> bool {
        &&& separated(self.spans)
        &&& self.spans.len() == 0 <==> self.curr_size == 0
        &&& self.curr_size < self.expected_size
    }
}

impl View for FileEntry {
    type V = EntryView;

    closed spec fn view(&self) -> EntryView {
        EntryView {
            src: self.src,
            hash: self.hash@,
            curr_size: self.curr_size as nat,
            expected_size: self.expected_size,
            spans: spans(self.received),
            last_received_at: self.last_received_at,
        }
    }
}

/// A message to be sent.
#[derive(Debug)]
pub struct Reply {
    pub dst: PeerAddr,
    pub datagram: Vec<u8>,
}

/// Whether a reply is the message with this content to this address.
pub open spec fn says(reply: Reply, dst: PeerAddr, content: ServerContent) -> bool {
    reply.dst == dst && reply.datagram@ == prefix() + server_bytes(content)
}

/// A session that a client asks for.
#[derive(Debug)]
pub struct PendingSession {
    pub src: PeerAddr,
    pub session_id: SessionId,
    pub size: u64,
    pub hash: crate::protocol::Hash<'static>,
    pub path: String,
}

/// A part of a file that is to be written.
#[derive(Debug, Clone, Copy)]
pub struct PendingChunk {
    pub src: PeerAddr,
    pub id: Identifier,
    pub offset: u64,
    pub len: usize,
}

/// A file of which everything arrived and which is to be checked.
#[derive(Debug)]
pub struct ReceivedFile {
    pub src: PeerAddr,
    pub id: Identifier,
    pub size: u64,
    pub hash: crate::protocol::Hash<'static>,
}

/// What is to be done about a message.
#[derive(Debug)]
pub enum ServerAction {
    Nothing,
    /// Send this.
    Reply(Reply),
    /// Make the file ready, then call `ServerContext::file_prepared`.
    PrepareFile(PendingSession),
    /// Write the content of the message, then call `ServerContext::chunk_written`.
    WriteChunk(PendingChunk),
}

/// The steps to make a file ready.
#[derive(Debug, Clone, Copy, PartialEq, Eq, Structural)]
pub enum PrepareStep {
    CreateParents,
    Open,
    Allocate,
}

/// The steps to write a part of a file.
#[derive(Debug, Clone, Copy, PartialEq, Eq, Structural)]
pub enum WriteStep {
    Seek,
    Write,
}

/// How a client that asks for a session is answered.
#[derive(Debug)]
pub enum StartDecision {
    /// Send this; there is no session.
    Reject(Reply),
    /// Send this. Once it is sent call `ServerContext::open_session`; if it cannot be sent there is
    /// no session.
    Accept(Reply),
    /// Another session has this identifier: draw another.
    IdentifierTaken,
}

/// What is to be done after a part of a file was written.
#[derive(Debug)]
pub enum ChunkOutcome {
    Nothing,
    /// Send this; the session is over.
    Reply(Reply),
    /// Compute the digest of the file, then call `file_hashed`; the session is over.
    Verify(ReceivedFile),
}

/// What a data message amounts to.
pub enum DataVerdict {
    /// No such session.
    Unknown,
    /// A chunk must be whole, and only the last one of the file may be shorter.
    BadLength,
    /// A chunk must end at a position.
    BadOffset,
    /// All of it arrived before.
    Redundant,
    /// Some of it is new.
    New,
}

/// Whether a chunk at `offset` of a file of `size` bytes may have `len` bytes.
pub open spec fn chunk_len_ok(offset: int, len: int, size: int) -> bool {
    0 < len <= CHUNK_SIZE && (len == CHUNK_SIZE || offset + CHUNK_SIZE >= size)
}

/// Whether a chunk's last position is a position.
pub open spec fn chunk_fits(offset: u64, len: int) -> bool {
    offset + len <= u64::MAX + 1
}

/// The positions of `len` bytes from `offset` on.
pub open spec fn chunk_positions(offset: u64, len: int) -> Set<u64> {
    Set::new(|x: u64| offset <= x < offset + len)
}

/// What a data message amounts to.
pub open spec fn data_verdict(
    sessions: Map<u64, EntryView>,
    id: Identifier,
    offset: u64,
    len: int,
) -> DataVerdict {
    if !sessions.contains_key(id.0) {
        DataVerdict::Unknown
    } else if !chunk_len_ok(offset as int, len, sessions[id.0].expected_size as int) {
        DataVerdict::BadLength
    } else if !chunk_fits(offset, len) {
        DataVerdict::BadOffset
    } else if chunk_positions(offset, len).subset_of(sessions[id.0].received()) {
        DataVerdict::Redundant
    } else {
        DataVerdict::New
    }
}

/// The text about a path that does not stay inside of the server's root folder.
pub open spec fn outside_root_text() -> Seq<char> {
    "path must stay inside the root folder"@
}

/// The text about a chunk that lies where no file reaches.
pub open spec fn bad_offset_text(offset: u64) -> Seq<char> {
    "chunk "@ + decimal(offset as nat) + " is out of range"@
}

/// The text about a chunk that is too long or too short.
pub open spec fn bad_length_text(offset: u64, len: int) -> Seq<char> {
    "chunk "@ + decimal(offset as nat) + " has unexpected length "@ + decimal(len as nat)
}

/// The text about a file that could not be made ready.
pub open spec fn prepare_text(step: PrepareStep, err: Seq<char>) -> Seq<char> {
    match step {
        PrepareStep::CreateParents => "failed to create parent directories: "@ + err,
        PrepareStep::Open => "failed to open file: "@ + err,
        PrepareStep::Allocate => "failed to pre-allocate file: "@ + err,
    }
}

/// The text about a part of a file that could not be written.
pub open spec fn write_text(step: WriteStep, offset: u64, err: Seq<char>) -> Seq<char> {
    match step {
        WriteStep::Seek => "at chunk "@ + decimal(offset as nat) + ", error seeking: "@ + err,
        WriteStep::Write => "at chunk "@ + decimal(offset as nat) + ", error writing: "@ + err,
    }
}

/// The text about a file of which more arrived than there should be.
pub open spec fn overflow_text(received: nat, expected: nat) -> Seq<char> {
    "payload overflow: received "@ + decimal(received) + " bytes, expected "@ + decimal(expected)
}

/// The text about a file with another digest than announced.
pub open spec fn mismatch_text(got: Seq<u8>, expected: Seq<u8>) -> Seq<char> {
    "mismatched hash! got "@ + hex_text(got) + ", expected "@ + hex_text(expected)
}

/// The text about a digest that could not be computed.
pub open spec fn hash_failure_text(err: Seq<char>) -> Seq<char> {
    "error calculating hash: "@ + err
}

/// How a server answers once a file of which everything arrived was checked.
pub open spec fn verdict_on_file(
    id: Identifier,
    expected: Seq<u8>,
    computed: Result<Seq<u8>, Seq<char>>,
) -> ServerContent {
    match computed {
        Ok(hash) => if hash == expected {
            ServerContent::Done { id }
        } else {
            ServerContent::Error { id, msg: mismatch_text(hash, expected) }
        },
        Err(err) => ServerContent::Error { id, msg: hash_failure_text(err) },
    }
}

/// A session after a chunk of it was written at time `now`.
pub open spec fn extended(before: EntryView, after: EntryView, chunk: PendingChunk, now: u64) -> bool {
    &&& after.src == before.src
    &&& after.hash == before.hash
    &&& after.expected_size == before.expected_size
    &&& after.curr_size == before.curr_size + chunk.len
    &&& after.received() == before.received().union(chunk_positions(chunk.offset, chunk.len as int))
    &&& after.last_received_at == now
}

/// What a server does about a data message, of which its sessions before and after, and what is to
/// be done, are given.
pub open spec fn data_handled(
    before: Map<u64, EntryView>,
    src: PeerAddr,
    id: Identifier,
    offset: u64,
    len: int,
    after: Map<u64, EntryView>,
    action: ServerAction,
) -> bool {
    match data_verdict(before, id, offset, len) {
        DataVerdict::Unknown | DataVerdict::Redundant => after == before && action is Nothing,
        DataVerdict::BadOffset => {
            &&& after == before.remove(id.0)
            &&& action matches ServerAction::Reply(reply)
            &&& says(reply, src, ServerContent::Error { id, msg: bad_offset_text(offset) })
        },
        DataVerdict::BadLength => {
            &&& after == before.remove(id.0)
            &&& action matches ServerAction::Reply(reply)
            &&& says(reply, src, ServerContent::Error { id, msg: bad_length_text(offset, len) })
        },
        DataVerdict::New => {
            &&& after == before
            &&& action matches ServerAction::WriteChunk(chunk)
            &&& chunk == (PendingChunk { src, id, offset, len: chunk.len })
            &&& chunk.len == len
        },
    }
}

/// What a server of this name does about a client's message, of which its sessions before and
/// after, and what is to be done, are given.
pub open spec fn message_handled(
    name: Seq<char>,
    before: Map<u64, EntryView>,
    src: PeerAddr,
    content: ClientContent,
    after: Map<u64, EntryView>,
    action: ServerAction,
) -> bool {
    match content {
        ClientContent::Discover => {
            &&& after == before
            &&& action matches ServerAction::Reply(reply)
            &&& says(reply, src, ServerContent::Announce(name))
        },
        ClientContent::Start { session_id, size, hash, path } => {
            &&& after == before
            &&& if inside_root(path) {
                &&& action matches ServerAction::PrepareFile(pending)
                &&& pending.src == src
                &&& pending.session_id == session_id
                &&& pending.size == size
                &&& pending.hash@ == hash
                &&& pending.path@ == path
            } else {
                &&& action matches ServerAction::Reply(reply)
                &&& says(reply, src, ServerContent::Nack { session_id, msg: outside_root_text() })
            }
        },
        ClientContent::Data { id, offset, content } => data_handled(
            before,
            src,
            id,
            offset,
            content.len() as int,
            after,
            action,
        ),
        ClientContent::Error { id, .. } => after == before.remove(id.0) && action is Nothing,
    }
}

/// What a server does once a part of a file was written at time `now` or could not be, of which
/// its sessions before and after, and what is to be done, are given.
pub open spec fn chunk_recorded(
    before: Map<u64, EntryView>,
    chunk: PendingChunk,
    failure: Option<(WriteStep, String)>,
    now: u64,
    after: Map<u64, EntryView>,
    outcome: ChunkOutcome,
) -> bool {
    if !before.contains_key(chunk.id.0) {
        after == before && outcome is Nothing
    } else {
        let entry = before[chunk.id.0];
        let size = entry.curr_size + chunk.len;
        match failure {
            Some((step, err)) => {
                &&& after == before.remove(chunk.id.0)
                &&& outcome matches ChunkOutcome::Reply(reply)
                &&& says(
                    reply,
                    chunk.src,
                    ServerContent::Error {
                        id: chunk.id,
                        msg: write_text(step, chunk.offset, err@),
                    },
                )
            },
            None => if size < entry.expected_size {
                &&& outcome is Nothing
                &&& after.contains_key(chunk.id.0)
                &&& after.remove(chunk.id.0) == before.remove(chunk.id.0)
                &&& extended(entry, after[chunk.id.0], chunk, now)
            } else if size == entry.expected_size {
                &&& after == before.remove(chunk.id.0)
                &&& outcome matches ChunkOutcome::Verify(file)
                &&& file.src == chunk.src
                &&& file.id == chunk.id
                &&& file.size == entry.expected_size
                &&& file.hash@ == entry.hash
            } else {
                &&& after == before.remove(chunk.id.0)
                &&& outcome matches ChunkOutcome::Reply(reply)
                &&& says(
                    reply,
                    chunk.src,
                    ServerContent::Error {
                        id: chunk.id,
                        msg: overflow_text(size as nat, entry.expected_size as nat),
                    },
                )
            },
        }
    }
}

/// How a client that asks for a session is answered, once its file was made ready or could not be.
pub open spec fn start_decided(
    sessions: Map<u64, EntryView>,
    pending: PendingSession,
    failure: Option<(PrepareStep, String)>,
    id: Identifier,
    decision: StartDecision,
) -> bool {
    match failure {
        Some((step, err)) => {
            &&& decision matches StartDecision::Reject(reply)
            &&& says(
                reply,
                pending.src,
                ServerContent::Nack {
                    session_id: pending.session_id,
                    msg: prepare_text(step, err@),
                },
            )
        },
        None => if sessions.contains_key(id.0) {
            decision is IdentifierTaken
        } else {
            &&& decision matches StartDecision::Accept(reply)
            &&& says(
                reply,
                pending.src,
                ServerContent::Ack { session_id: pending.session_id, id },
            )
        },
    }
}

/// How a session begins at time `now`, of which the sessions before and after, and a file that is
/// to be checked at once, are given.
pub open spec fn session_opened(
    before: Map<u64, EntryView>,
    pending: PendingSession,
    id: Identifier,
    now: u64,
    after: Map<u64, EntryView>,
    received: Option<ReceivedFile>,
) -> bool {
    if pending.size == 0 {
        &&& after == before
        &&& received matches Some(file)
        &&& file.src == pending.src
        &&& file.id == id
        &&& file.size == 0
        &&& file.hash@ == pending.hash@
    } else {
        &&& after == before.insert(
            id.0,
            (EntryView {
                src: pending.src,
                hash: pending.hash@,
                curr_size: 0,
                expected_size: pending.size,
                spans: Seq::empty(),
                last_received_at: now,
            }),
        )
        &&& received is None
    }
}

/// What is asked for at time `now`: one request for every session that is due.
pub open spec fn repetitions_requested(
    sessions: Map<u64, EntryView>,
    now: u64,
    requests: Seq<RepeatRequest>,
) -> bool {
    &&& forall|i: int|
        0 <= i < requests.len() ==> {
            let id = (#[trigger] requests[i]).id.0;
            &&& sessions.contains_key(id)
            &&& is_due(sessions[id], now)
            &&& says(requests[i].reply, sessions[id].src, repeat_request(id, sessions[id]))
        }
    &&& forall|i: int, j: int|
        0 <= i < j < requests.len() ==> (#[trigger] requests[i]).id != (#[trigger] requests[j]).id
    &&& forall|id: u64| #[trigger]
        sessions.contains_key(id) && is_due(sessions[id], now) ==> asks_for(requests, id)
}

/// How a server begins that is given a name: it has that name, and no sessions.
pub open spec fn server_begun(
    given: Seq<char>,
    name: Seq<char>,
    sessions: Map<u64, EntryView>,
) -> bool {
    name == given && no_sessions(sessions)
}

/// Whether there are no sessions.
pub open spec fn no_sessions(sessions: Map<u64, EntryView>) -> bool {
    sessions == Map::<u64, EntryView>::empty()
}

/// No session is complete: a session ends with the chunk that completes it.
pub open spec fn sessions_wf(sessions: Map<u64, EntryView>) -> bool {
    forall|id: u64| #[trigger] sessions.contains_key(id) ==> sessions[id].wf()
}

/// Whether nothing arrived for a session for so long that its missing chunks are asked for.
pub open spec fn is_silent(entry: EntryView, now: u64) -> bool {
    now - entry.last_received_at >= REPEAT_REQUEST_DELAY
}

/// What is asked for of a session.
pub open spec fn repeat_request(id: u64, entry: EntryView) -> ServerContent {
    ServerContent::Repeat {
        id: Identifier(id),
        offsets: requested_offsets(entry.spans, entry.expected_size),
    }
}

/// Whether a session is due for a request: it is silent, and something is missing.
pub open spec fn is_due(entry: EntryView, now: u64) -> bool {
    is_silent(entry, now) && requested_offsets(entry.spans, entry.expected_size).len() > 0
}

/// The message to an address.
fn reply_to(dst: PeerAddr, msg: &ServerMessage<'_>) -> (reply: Reply)
    ensures
        says(reply, dst, msg@),
{
    Reply { dst, datagram: msg.to_datagram() }
}

fn error_reply(dst: PeerAddr, id: Identifier, text: &String) -> (reply: Reply)
    ensures
        says(reply, dst, ServerContent::Error { id, msg: text@ }),
{
    reply_to(dst, &ServerMessage::Error { id, msg: text.as_str() })
}

fn bad_offset_message(offset: u64) -> (text: String)
    ensures
        text@ == bad_offset_text(offset),
{
    let mut text = String::new();
    text.append("chunk ");
    push_decimal(&mut text, offset as u128);
    text.append(" is out of range");
    assert(text@ =~= bad_offset_text(offset));
    text
}

fn bad_length_message(offset: u64, len: usize) -> (text: String)
    ensures
        text@ == bad_length_text(offset, len as int),
{
    let mut text = String::new();
    text.append("chunk ");
    push_decimal(&mut text, offset as u128);
    text.append(" has unexpected length ");
    push_decimal(&mut text, len as u128);
    assert(text@ =~= bad_length_text(offset, len as int));
    text
}

fn prepare_message(step: PrepareStep, err: &String) -> (text: String)
    ensures
        text@ == prepare_text(step, err@),
{
    let mut text = String::new();
    match step {
        PrepareStep::CreateParents => text.append("failed to create parent directories: "),
        PrepareStep::Open => text.append("failed to open file: "),
        PrepareStep::Allocate => text.append("failed to pre-allocate file: "),
    }
    text.append(err.as_str());
    assert(text@ =~= prepare_text(step, err@));
    text
}

fn write_message(step: WriteStep, offset: u64, err: &String) -> (text: String)
    ensures
        text@ == write_text(step, offset, err@),
{
    let mut text = String::new();
    text.append("at chunk ");
    push_decimal(&mut text, offset as u128);
    match step {
        WriteStep::Seek => text.append(", error seeking: "),
        WriteStep::Write => text.append(", error writing: "),
    }
    text.append(err.as_str());
    assert(text@ =~= write_text(step, offset, err@));
    text
}

fn overflow_message(received: u128, expected: u64) -> (text: String)
    ensures
        text@ == overflow_text(received as nat, expected as nat),
{
    let mut text = String::new();
    text.append("payload overflow: received ");
    push_decimal(&mut text, received);
    text.append(" bytes, expected ");
    push_decimal(&mut text, expected as u128);
    assert(text@ =~= overflow_text(received as nat, expected as nat));
    text
}

/// The answer once a file of which everything arrived was checked: its digest, or why there is
/// none.
pub fn file_hashed(
    file: ReceivedFile,
    computed: Result<crate::protocol::Hash<'static>, String>,
) -> (reply: Reply)
    ensures
        says(
            reply,
            file.src,
            verdict_on_file(
                file.id,
                file.hash@,
                match computed {
                    Ok(hash) => Ok(hash@),
                    Err(err) => Err(err@),
                },
            ),
        ),
{
    match computed {
        Ok(hash) => {
            if hash == file.hash {
                reply_to(file.src, &ServerMessage::Done { id: file.id })
            } else {
                let mut text = String::new();
                text.append("mismatched hash! got ");
                text.append(hash.to_text().as_str());
                text.append(", expected ");
                text.append(file.hash.to_text().as_str());
                assert(text@ =~= mismatch_text(hash@, file.hash@));
                error_reply(file.src, file.id, &text)
            }
        },
        Err(err) => {
            let mut text = String::new();
            text.append("error calculating hash: ");
            text.append(err.as_str());
            assert(text@ =~= hash_failure_text(err@));
            error_reply(file.src, file.id, &text)
        },
    }
}

/// What a server is engaged with.
#[derive(Debug)]
pub struct ServerContext {
    name: String,
    sessions: HashMap<u64, FileEntry>,
}

impl ServerContext {
    /// The name by which the server makes itself known.
    pub closed spec fn name(&self) -> Seq<char> {
        self.name@
    }

    /// The sessions, by identifier.
    pub closed spec fn sessions(&self) -> Map<u64, EntryView> {
        self.sessions@.map_values(|entry: FileEntry| entry@)
    }

    /// No session is complete: a session ends with the chunk that completes it.
    pub open spec fn wf(&self) -> bool {
        sessions_wf(self.sessions())
    }

    /// A server without sessions.
    pub fn new(name: String) -> (server: ServerContext)
        ensures
            server.wf(),
            server_begun(name@, server.name(), server.sessions()),
    {
        let server = ServerContext { name, sessions: HashMap::new() };
        assert(server.sessions() =~= Map::<u64, EntryView>::empty());
        server
    }

    /// Whether there are no sessions.
    pub fn is_idle(&self) -> (idle: bool)
        ensures
            idle == no_sessions(self.sessions()),
    {
        let idle = self.sessions.is_empty();
        proof {
            if idle {
                assert(self.sessions() =~= Map::<u64, EntryView>::empty());
            } else {
                let id = self.sessions@.dom().choose();
                assert(self.sessions().contains_key(id));
                assert(!Map::<u64, EntryView>::empty().contains_key(id));
            }
        }
        idle
    }

    /// Whether there is a session with this identifier.
    pub fn has_session(&self, id: Identifier) -> (known: bool)
        ensures
            known == self.sessions().contains_key(id.0),
    {
        self.sessions.contains_key(&id.0)
    }

    /// What is to be done about a client's message.
    pub fn handle_message(&mut self, src: PeerAddr, msg: ClientMessage<'_>) -> (action: ServerAction)
        requires
            old(self).wf(),
        ensures
            final(self).wf(),
            final(self).name() == old(self).name(),
            message_handled(
                old(self).name(),
                old(self).sessions(),
                src,
                msg@,
                final(self).sessions(),
                action,
            ),
    {
        match msg {
            ClientMessage::Discover => ServerAction::Reply(
                reply_to(src, &ServerMessage::Announce(self.name.as_str())),
            ),
            ClientMessage::Start { session_id, size, hash, path } => {
                if !is_inside_root(path) {
                    let msg = "path must stay inside the root folder";
                    return ServerAction::Reply(
                        reply_to(src, &ServerMessage::Nack { session_id, msg }),
                    );
                }
                ServerAction::PrepareFile(
                    PendingSession {
                        src,
                        session_id,
                        size,
                        hash: hash.into_owned(),
                        path: path.to_owned(),
                    },
                )
            },
            ClientMessage::Data { id, offset, content } => {
                self.handle_data(src, id, offset, content.len())
            },
            ClientMessage::Error { id, msg: _ } => {
                let ghost before = self.sessions();
                self.sessions.remove(&id.0);
                assert(self.sessions() =~= before.remove(id.0));
                ServerAction::Nothing
            },
        }
    }

    fn handle_data(&mut self, src: PeerAddr, id: Identifier, offset: u64, len: usize) -> (action:
        ServerAction)
        requires
            old(self).wf(),
        ensures
            final(self).wf(),
            final(self).name() == old(self).name(),
            data_handled(
                old(self).sessions(),
                src,
                id,
                offset,
                len as int,
                final(self).sessions(),
                action,
            ),
    {
        let ghost before = self.sessions();
        let entry = match self.sessions.get(&id.0) {
            Some(entry) => entry,
            None => return ServerAction::Nothing,
        };
        assert(before[id.0] == entry@);
        let larger = len as u64 > CHUNK_SIZE;
        let smaller = (len as u64) < CHUNK_SIZE;
        let is_last_chunk = offset as u128 + CHUNK_SIZE as u128 >= entry.expected_size as u128;
        if len == 0 || larger || (smaller && !is_last_chunk) {
            self.sessions.remove(&id.0);
            assert(self.sessions() =~= before.remove(id.0));
            return ServerAction::Reply(
                error_reply(src, id, &bad_length_message(offset, len)),
            );
        }
        let last: u64 = match offset.checked_add(len as u64 - 1) {
            Some(last) => last,
            None => {
                self.sessions.remove(&id.0);
                assert(self.sessions() =~= before.remove(id.0));
                return ServerAction::Reply(error_reply(src, id, &bad_offset_message(offset)));
            },
        };
        assert(chunk_positions(offset, len as int) =~= interval(offset, last));
        if entry.received.contains_range(offset, last) {
            return ServerAction::Nothing;
        }
        ServerAction::WriteChunk(PendingChunk { src, id, offset, len })
    }

    /// How a client that asks for a session is answered, once its file was made ready or could not
    /// be. An identifier must not be that of another session.
    pub fn file_prepared(
        &self,
        pending: &PendingSession,
        failure: Option<(PrepareStep, String)>,
        id: Identifier,
    ) -> (decision: StartDecision)
        ensures
            start_decided(self.sessions(), *pending, failure, id, decision),
    {
        match failure {
            Some((step, err)) => {
                let text = prepare_message(step, &err);
                StartDecision::Reject(
                    reply_to(
                        pending.src,
                        &ServerMessage::Nack { session_id: pending.session_id, msg: text.as_str() },
                    ),
                )
            },
            None => if self.has_session(id) {
                StartDecision::IdentifierTaken
            } else {
                StartDecision::Accept(
                    reply_to(
                        pending.src,
                        &ServerMessage::Ack { session_id: pending.session_id, id },
                    ),
                )
            },
        }
    }

    /// Begins a session, at time `now`. Of an empty file nothing is to arrive: it is to be checked
    /// at once, as after its last chunk.
    pub fn open_session(&mut self, pending: PendingSession, id: Identifier, now: u64) -> (received:
        Option<ReceivedFile>)
        requires
            old(self).wf(),
            !old(self).sessions().contains_key(id.0),
        ensures
            final(self).wf(),
            final(self).name() == old(self).name(),
            session_opened(
                old(self).sessions(),
                pending,
                id,
                now,
                final(self).sessions(),
                received,
            ),
    {
        if pending.size == 0 {
            return Some(
                ReceivedFile { src: pending.src, id, size: 0, hash: pending.hash },
            );
        }
        let ghost before = self.sessions();
        let entry = FileEntry {
            src: pending.src,
            hash: pending.hash,
            curr_size: 0,
            expected_size: pending.size,
            received: ReceivedRanges::new(),
            last_received_at: now,
        };
        let ghost view = entry@;
        self.sessions.insert(id.0, entry);
        assert(self.sessions() =~= before.insert(id.0, view));
        None
    }

    /// Takes note, at time `now`, of a part of a file that was written or could not be.
    pub fn chunk_written(
        &mut self,
        chunk: PendingChunk,
        failure: Option<(WriteStep, String)>,
        now: u64,
    ) -> (outcome: ChunkOutcome)
        requires
            old(self).wf(),
            chunk.len > 0,
            chunk_fits(chunk.offset, chunk.len as int),
        ensures
            final(self).wf(),
            final(self).name() == old(self).name(),
            chunk_recorded(
                old(self).sessions(),
                chunk,
                failure,
                now,
                final(self).sessions(),
                outcome,
            ),
    {
        let ghost before = self.sessions();
        let mut entry = match self.sessions.remove(&chunk.id.0) {
            Some(entry) => entry,
            None => {
                assert(self.sessions() =~= before);
                return ChunkOutcome::Nothing;
            },
        };
        assert(before[chunk.id.0] == entry@);
        assert(self.sessions() =~= before.remove(chunk.id.0));
        if let Some((step, err)) = failure {
            return ChunkOutcome::Reply(
                error_reply(chunk.src, chunk.id, &write_message(step, chunk.offset, &err)),
            );
        }
        let new_size: u128 = entry.curr_size as u128 + chunk.len as u128;
        if new_size < entry.expected_size as u128 {
            let last: u64 = chunk.offset + (chunk.len as u64 - 1);
            assert(chunk_positions(chunk.offset, chunk.len as int) =~= interval(
                chunk.offset,
                last,
            ));
            entry.curr_size = new_size as u64;
            entry.received.insert_range(chunk.offset, last);
            entry.last_received_at = now;
            let ghost view = entry@;
            assert(view.spans.len() > 0) by {
                assert(covered(view.spans).contains(chunk.offset));
            }
            self.sessions.insert(chunk.id.0, entry);
            assert(self.sessions() =~= before.insert(chunk.id.0, view));
            assert(self.sessions().remove(chunk.id.0) =~= before.remove(chunk.id.0));
            ChunkOutcome::Nothing
        } else if new_size == entry.expected_size as u128 {
            ChunkOutcome::Verify(
                ReceivedFile {
                    src: chunk.src,
                    id: chunk.id,
                    size: entry.expected_size,
                    hash: entry.hash,
                },
            )
        } else {
            ChunkOutcome::Reply(
                error_reply(
                    chunk.src,
                    chunk.id,
                    &overflow_message(new_size, entry.expected_size),
                ),
            )
        }
    }

    /// What is asked for at time `now`, in no particular order.
    pub fn request_repetitions(&self, now: u64) -> (requests: Vec<RepeatRequest>)
        ensures
            repetitions_requested(self.sessions(), now, requests@),
    {
        let mut requests: Vec<RepeatRequest> = Vec::new();
        for key in keys: self.sessions.keys()
            invariant
                keys.seq() == vstd::std_specs::iter::IteratorSpec::remaining(
                    &vstd::std_specs::hash::spec_keys_iter(&self.sessions),
                ),
                forall|i: int|
                    0 <= i < requests@.len() ==> {
                        let id = (#[trigger] requests@[i]).id.0;
                        &&& self.sessions().contains_key(id)
                        &&& is_due(self.sessions()[id], now)
                        &&& says(
                            requests@[i].reply,
                            self.sessions()[id].src,
                            repeat_request(id, self.sessions()[id]),
                        )
                        &&& exists|k: int| 0 <= k < keys.index() && *(#[trigger] keys.seq()[k]) == id
                    },
                forall|i: int, j: int|
                    0 <= i < j < requests@.len() ==> (#[trigger] requests@[i]).id
                        != (#[trigger] requests@[j]).id,
                forall|k: int|
                    0 <= k < keys.index() && is_due(
                        self.sessions()[*(#[trigger] keys.seq()[k])],
                        now,
                    ) ==> asks_for(requests@, *keys.seq()[k]),
        {
            let ghost before = requests@;
            if let Some(entry) = self.sessions.get(key) {
                assert(self.sessions()[*key] == entry@);
                if now.saturating_sub(entry.last_received_at) >= REPEAT_REQUEST_DELAY {
                    let offsets = repeat_offsets(&entry.received, entry.expected_size);
                    if offsets.len() > 0 {
                        let id = Identifier(*key);
                        let msg = ServerMessage::Repeat {
                            id,
                            offsets: Cow::Borrowed(offsets.as_slice()),
                        };
                        requests.push(RepeatRequest { id, reply: reply_to(entry.src, &msg) });
                        assert(requests@.last().id == id);
                    }
                }
            }
            assert(forall|id: u64| asks_for(before, id) ==> asks_for(requests@, id)) by {
                assert forall|id: u64| asks_for(before, id) implies asks_for(requests@, id) by {
                    let i = choose|i: int|
                        0 <= i < before.len() && (#[trigger] before[i]).id.0 == id;
                    assert(requests@[i].id.0 == id);
                }
            }
        }
        assert forall|id: u64| #[trigger]
            self.sessions().contains_key(id) && is_due(
                self.sessions()[id],
                now,
            ) implies asks_for(requests@, id) by {
            let all = vstd::std_specs::iter::IteratorSpec::remaining(
                &vstd::std_specs::hash::spec_keys_iter(&self.sessions),
            );
            assert(all.unref().to_set().contains(id));
            let k = choose|k: int| 0 <= k < all.unref().len() && all.unref()[k] == id;
            assert(*all[k] == id);
        }
        requests
    }
}

/// A request for the missing chunks of a session.
#[derive(Debug)]
pub struct RepeatRequest {
    pub id: Identifier,
    pub reply: Reply,
}

/// Whether one of the requests is for this session.
pub open spec fn asks_for(requests: Seq<RepeatRequest>, id: u64) -> bool {
    exists|i: int| 0 <= i < requests.len() && (#[trigger] requests[i]).id.0 == id
}

} // verus!
