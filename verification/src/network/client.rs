//! The sending side: which servers and sessions a client knows of, and what it does about each
//! message and command.
//!
//! Files, sockets and tasks are the caller's: every function answers with what is to be done.

use super::paths::{inside_root, is_inside_root};
use super::peers::PeerSet;
use super::PeerAddr;
use crate::protocol::client_message::{client_bytes, ClientContent, ClientMessage};
use crate::protocol::datagram::prefix;
use crate::protocol::server_message::{ServerContent, ServerMessage};
use crate::protocol::{Identifier, SessionId};
use std::borrow::Cow;
use std::collections::HashSet;
use vstd::prelude::*;
use vstd::slice::slice_to_vec;

verus! {

broadcast use vstd::std_specs::hash::group_hash_axioms;

/// What a client can be told to do.
#[derive(Debug)]
pub enum ClientCommand<P> {
    /// Look for servers.
    StartDiscovery,
    /// Look for servers no longer.
    StopDiscovery,
    /// Begin to send the file at this path.
    CreateSession { path: P },
}

/// What is to be done about a command.
#[derive(Debug)]
pub enum CommandOutcome<P> {
    Nothing,
    /// Send this to the group that servers listen to.
    Discover(Vec<u8>),
    /// Do what `SessionContext::begin` says, and run the session.
    Session(SessionId, SessionContext<P>),
    /// Another session has this number: draw another, for the file at this path.
    SessionIdTaken(P),
}

/// What a session can be told to do.
#[derive(Debug)]
pub enum SessionCommand {
    /// Another server is there.
    AddNeighbor(PeerAddr),
    /// A server got the file, rejected it or failed.
    RemoveNeighbor(PeerAddr),
    /// A server accepted the session, under this identifier.
    Transmit { id: Identifier, addr: PeerAddr },
    /// A server is missing the chunks at these offsets.
    Retransmit { id: Identifier, addr: PeerAddr, chunks: Vec<u64> },
}

/// What a command to a session says.
pub enum SessionCommandView {
    AddNeighbor(PeerAddr),
    RemoveNeighbor(PeerAddr),
    Transmit { id: Identifier, addr: PeerAddr },
    Retransmit { id: Identifier, addr: PeerAddr, chunks: Seq<u64> },
}

impl View for SessionCommand {
    type V = SessionCommandView;

    open spec fn view(&self) -> SessionCommandView {
        match self {
            SessionCommand::AddNeighbor(addr) => SessionCommandView::AddNeighbor(*addr),
            SessionCommand::RemoveNeighbor(addr) => SessionCommandView::RemoveNeighbor(*addr),
            SessionCommand::Transmit { id, addr } => SessionCommandView::Transmit {
                id: *id,
                addr: *addr,
            },
            SessionCommand::Retransmit { id, addr, chunks } => SessionCommandView::Retransmit {
                id: *id,
                addr: *addr,
                chunks: chunks@,
            },
        }
    }
}

/// A command and the session that it is for.
#[derive(Debug)]
pub struct Delivery {
    pub session_id: SessionId,
    pub cmd: SessionCommand,
}

/// Whether a session goes on.
#[derive(Debug, Clone, Copy, PartialEq, Eq, Structural)]
pub enum SessionInstruction {
    Stop,
    Continue,
}

/// What is to be read from the file at a path and sent.
#[derive(Debug)]
pub enum FileHandlerCmd<P> {
    /// Its size and digest, to ask for a session.
    Start { path: P, session_id: SessionId },
    /// All of it.
    Transmit { path: P, id: Identifier, addr: PeerAddr },
    /// The chunks at these offsets.
    TransmitChunks { path: P, id: Identifier, addr: PeerAddr, chunks: Vec<u64> },
}

impl<P: Clone> FileHandlerCmd<&P> {
    /// The same, with a path of its own.
    pub fn into_owned(self) -> (owned: FileHandlerCmd<P>)
        ensures
            match self {
                FileHandlerCmd::Start { path, session_id } => {
                    &&& owned matches FileHandlerCmd::Start { path: p, session_id: s }
                    &&& cloned::<P>(*path, p)
                    &&& s == session_id
                },
                FileHandlerCmd::Transmit { path, id, addr } => {
                    &&& owned matches FileHandlerCmd::Transmit { path: p, id: i, addr: a }
                    &&& cloned::<P>(*path, p)
                    &&& i == id
                    &&& a == addr
                },
                FileHandlerCmd::TransmitChunks { path, id, addr, chunks } => {
                    &&& owned matches FileHandlerCmd::TransmitChunks {
                        path: p,
                        id: i,
                        addr: a,
                        chunks: c,
                    }
                    &&& cloned::<P>(*path, p)
                    &&& i == id
                    &&& a == addr
                    &&& c == chunks
                },
            },
    {
        match self {
            FileHandlerCmd::Start { path, session_id } => FileHandlerCmd::Start {
                path: path.clone(),
                session_id,
            },
            FileHandlerCmd::Transmit { path, id, addr } => FileHandlerCmd::Transmit {
                path: path.clone(),
                id,
                addr,
            },
            FileHandlerCmd::TransmitChunks { path, id, addr, chunks } => {
                FileHandlerCmd::TransmitChunks { path: path.clone(), id, addr, chunks }
            },
        }
    }
}

/// The steps to read a file that is sent.
#[derive(Debug, Clone, Copy, PartialEq, Eq, Structural)]
pub enum ReadStep {
    Open,
    Inspect,
    Read,
}

/// The text about a file that could not be read.
pub open spec fn read_text(step: ReadStep, err: Seq<char>) -> Seq<char> {
    match step {
        ReadStep::Open => "failed to open file: "@ + err,
        ReadStep::Inspect => "failed to fetch file stats: "@ + err,
        ReadStep::Read => "failed to read file: "@ + err,
    }
}

/// What is to be done about a transfer that failed.
#[derive(Debug)]
pub struct TransferFailure {
    /// Send this to the server.
    pub report: Vec<u8>,
    pub deliveries: Vec<Delivery>,
}

/// A session that a server accepted.
#[derive(Debug, Clone, Copy, PartialEq, Eq, Structural)]
pub struct Transfer {
    /// The server.
    pub addr: PeerAddr,
    /// The identifier that the server chose.
    pub id: Identifier,
    /// The session.
    pub session_id: SessionId,
}

/// One file on its way to servers.
#[derive(Debug)]
pub struct SessionContext<P> {
    session_id: SessionId,
    path: P,
    neighbors: PeerSet,
}

/// What is known of a file on its way to servers.
#[verifier::reject_recursive_types(P)]
pub struct SessionView<P> {
    /// The number of the session.
    pub session_id: SessionId,
    /// Where the file is.
    pub path: P,
    /// The servers that neither got the file nor rejected it nor failed.
    pub neighbors: Set<PeerAddr>,
}

impl<P> View for SessionContext<P> {
    type V = SessionView<P>;

    open spec fn view(&self) -> SessionView<P> {
        SessionView {
            session_id: self.session_id(),
            path: self.path(),
            neighbors: self.neighbors(),
        }
    }
}

/// What a session has to be done first: it is to be asked for.
pub open spec fn session_begun<P>(session: SessionView<P>, cmd: FileHandlerCmd<&P>) -> bool {
    cmd matches FileHandlerCmd::Start { path, session_id } && *path == session.path && session_id
        == session.session_id
}

/// How a session carries out a command, of which what is known before and after, whether the
/// session goes on, and what is to be sent, are given.
pub open spec fn session_cmd_handled<P>(
    before: SessionView<P>,
    cmd: SessionCommandView,
    after: SessionView<P>,
    instruction: SessionInstruction,
    file_cmd: Option<FileHandlerCmd<&P>>,
) -> bool {
    &&& after.session_id == before.session_id
    &&& after.path == before.path
    &&& match cmd {
        SessionCommandView::AddNeighbor(addr) => {
            &&& after.neighbors == before.neighbors.insert(addr)
            &&& instruction is Continue
            &&& file_cmd is None
        },
        SessionCommandView::RemoveNeighbor(addr) => {
            &&& after.neighbors == before.neighbors.remove(addr)
            &&& instruction is Stop <==> after.neighbors == Set::<PeerAddr>::empty()
            &&& file_cmd is None
        },
        SessionCommandView::Transmit { id, addr } => {
            &&& after.neighbors == before.neighbors
            &&& instruction is Continue
            &&& file_cmd matches Some(FileHandlerCmd::Transmit { path, id: i, addr: a })
            &&& *path == before.path
            &&& i == id
            &&& a == addr
        },
        SessionCommandView::Retransmit { id, addr, chunks } => {
            &&& after.neighbors == before.neighbors
            &&& instruction is Continue
            &&& file_cmd matches Some(FileHandlerCmd::TransmitChunks {
                path,
                id: i,
                addr: a,
                chunks: c,
            })
            &&& *path == before.path
            &&& i == id
            &&& a == addr
            &&& c@ == chunks
        },
    }
}

impl<P> SessionContext<P> {
    /// The number of the session.
    pub closed spec fn session_id(&self) -> SessionId {
        self.session_id
    }

    /// Where the file is.
    pub closed spec fn path(&self) -> P {
        self.path
    }

    /// The servers that neither got the file nor rejected it nor failed.
    pub closed spec fn neighbors(&self) -> Set<PeerAddr> {
        self.neighbors@
    }

    /// What is to be done first: the session is to be asked for.
    pub fn begin(&self) -> (cmd: FileHandlerCmd<&P>)
        ensures
            session_begun(self@, cmd),
    {
        FileHandlerCmd::Start { path: &self.path, session_id: self.session_id }
    }

    /// Carries out a command. A session is over when the last of its servers is done with it.
    pub fn handle_session_cmd(&mut self, cmd: SessionCommand) -> (outcome: (
        SessionInstruction,
        Option<FileHandlerCmd<&P>>,
    ))
        ensures
            session_cmd_handled(old(self)@, cmd@, final(self)@, outcome.0, outcome.1),
    {
        match cmd {
            SessionCommand::AddNeighbor(addr) => {
                self.neighbors.insert(addr);
            },
            SessionCommand::RemoveNeighbor(addr) => {
                self.neighbors.remove(addr);
                if self.neighbors.is_empty() {
                    return (SessionInstruction::Stop, None);
                }
            },
            SessionCommand::Transmit { id, addr } => {
                return (
                    SessionInstruction::Continue,
                    Some(FileHandlerCmd::Transmit { path: &self.path, id, addr }),
                );
            },
            SessionCommand::Retransmit { id, addr, chunks } => {
                return (
                    SessionInstruction::Continue,
                    Some(FileHandlerCmd::TransmitChunks { path: &self.path, id, addr, chunks }),
                );
            },
        }
        (SessionInstruction::Continue, None)
    }
}

/// The datagram that asks for a session. A path that does not stay inside of the server's root
/// folder cannot be asked for.
pub open spec fn request_for(
    session_id: SessionId,
    size: u64,
    hash: Seq<u8>,
    path: Seq<char>,
) -> Option<Seq<u8>> {
    if inside_root(path) {
        Some(prefix() + client_bytes(ClientContent::Start { session_id, size, hash, path }))
    } else {
        None
    }
}

/// The datagram that asks for a session. A path that does not stay inside of the server's root
/// folder cannot be asked for.
pub fn start_request(
    session_id: SessionId,
    size: u64,
    hash: crate::protocol::Hash<'_>,
    path: &str,
) -> (datagram: Option<Vec<u8>>)
    ensures
        match datagram {
            Some(bytes) => request_for(session_id, size, hash@, path@) == Some(bytes@),
            None => request_for(session_id, size, hash@, path@) is None,
        },
{
    if !is_inside_root(path) {
        return None;
    }
    Some(ClientMessage::Start { session_id, size, hash, path }.to_datagram())
}

/// What a client knows.
pub struct ClientView {
    /// Whether it looks for servers.
    pub discovery_active: bool,
    /// Its sessions.
    pub sessions: Set<u32>,
    /// The servers that it found.
    pub neighbors: Set<PeerAddr>,
    /// The sessions that servers accepted.
    pub transfers: Set<Transfer>,
}

impl ClientView {
    /// There are only so many sessions, a server gives no two transfers one identifier, and every
    /// transfer is of a session.
    pub open spec fn wf(self) -> bool {
        &&& self.sessions.finite()
        &&& forall|a: Transfer, b: Transfer| #[trigger]
            self.transfers.contains(a) && #[trigger] self.transfers.contains(b) && a.addr == b.addr
                && a.id == b.id ==> a == b
        &&& forall|t: Transfer| #[trigger]
            self.transfers.contains(t) ==> self.sessions.contains(t.session_id.0)
    }

    /// Whether a server accepted a session under an identifier.
    pub open spec fn accepted(self, addr: PeerAddr, id: Identifier, session_id: SessionId) -> bool {
        self.transfers.contains(Transfer { addr, id, session_id })
    }

    /// The session that a server accepted under an identifier.
    pub open spec fn session_of(self, addr: PeerAddr, id: Identifier) -> Option<SessionId> {
        if exists|s: SessionId| self.accepted(addr, id, s) {
            Some(choose|s: SessionId| self.accepted(addr, id, s))
        } else {
            None
        }
    }

    /// The same, without what a server accepted under an identifier.
    pub open spec fn forget(self, addr: PeerAddr, id: Identifier) -> ClientView {
        ClientView {
            transfers: self.transfers.filter(|t: Transfer| !(t.addr == addr && t.id == id)),
            ..self
        }
    }
}

/// How a client carries out a command, of which what is known before and after, and what is to be
/// done, are given.
pub open spec fn cmd_handled<P>(
    before: ClientView,
    cmd: ClientCommand<P>,
    candidate: SessionId,
    after: ClientView,
    outcome: CommandOutcome<P>,
) -> bool {
    match cmd {
        ClientCommand::StartDiscovery => {
            &&& after == (ClientView { discovery_active: true, ..before })
            &&& outcome matches CommandOutcome::Discover(datagram)
            &&& datagram@ == prefix() + client_bytes(ClientContent::Discover)
        },
        ClientCommand::StopDiscovery => {
            &&& after == (ClientView { discovery_active: false, ..before })
            &&& outcome is Nothing
        },
        ClientCommand::CreateSession { path } => if before.sessions.contains(candidate.0) {
            after == before && outcome == CommandOutcome::SessionIdTaken(path)
        } else {
            &&& after == (ClientView { sessions: before.sessions.insert(candidate.0), ..before })
            &&& after.sessions.len() == before.sessions.len() + 1
            &&& outcome matches CommandOutcome::Session(session_id, session)
            &&& session_id == candidate
            &&& session@.session_id == candidate
            &&& session@.path == path
            &&& session@.neighbors == before.neighbors
        },
    }
}

/// Whether no transfer is under way.
pub open spec fn no_transfers(client: ClientView) -> bool {
    client.transfers == Set::<Transfer>::empty()
}

/// What a client knows once a session is over.
pub open spec fn session_forgotten(
    before: ClientView,
    session_id: SessionId,
    after: ClientView,
) -> bool {
    after == (ClientView {
        sessions: before.sessions.remove(session_id.0),
        transfers: before.transfers.filter(|t: Transfer| t.session_id != session_id),
        ..before
    })
}

/// What is to be done about a transfer whose file could not be read, of which what is known before
/// and after is given.
pub open spec fn failure_handled(
    before: ClientView,
    addr: PeerAddr,
    id: Identifier,
    step: ReadStep,
    err: Seq<char>,
    after: ClientView,
    failure: TransferFailure,
) -> bool {
    &&& failure.report@ == prefix() + client_bytes(
        ClientContent::Error { id, msg: read_text(step, err) },
    )
    &&& transfer_over(before, addr, id, after, failure.deliveries@)
}

/// Whether one command is delivered, to one session.
pub open spec fn delivers(deliveries: Seq<Delivery>, session_id: SessionId, cmd: SessionCommandView) -> bool {
    deliveries.len() == 1 && deliveries[0].session_id == session_id && deliveries[0].cmd@ == cmd
}

/// Whether a command is delivered to every session, once to each.
pub open spec fn delivers_to_all(
    deliveries: Seq<Delivery>,
    sessions: Set<u32>,
    cmd: SessionCommandView,
) -> bool {
    &&& forall|i: int|
        0 <= i < deliveries.len() ==> sessions.contains((#[trigger] deliveries[i]).session_id.0)
            && deliveries[i].cmd@ == cmd
    &&& forall|i: int, j: int|
        0 <= i < j < deliveries.len() ==> (#[trigger] deliveries[i]).session_id
            != (#[trigger] deliveries[j]).session_id
    &&& forall|s: u32| #[trigger] sessions.contains(s) ==> is_addressed(deliveries, s)
}

/// Whether something is delivered to a session.
pub open spec fn is_addressed(deliveries: Seq<Delivery>, session: u32) -> bool {
    exists|i: int| 0 <= i < deliveries.len() && (#[trigger] deliveries[i]).session_id.0 == session
}

/// What a client does about a transfer that is over: the server is done with the session.
pub open spec fn transfer_over(
    before: ClientView,
    addr: PeerAddr,
    id: Identifier,
    after: ClientView,
    deliveries: Seq<Delivery>,
) -> bool {
    match before.session_of(addr, id) {
        Some(session_id) => {
            &&& after == before.forget(addr, id)
            &&& delivers(deliveries, session_id, SessionCommandView::RemoveNeighbor(addr))
        },
        None => after == before && deliveries.len() == 0,
    }
}

/// What a client makes of a server's message.
pub open spec fn server_msg_handled(
    before: ClientView,
    content: ServerContent,
    src: PeerAddr,
    after: ClientView,
    deliveries: Seq<Delivery>,
) -> bool {
    match content {
        ServerContent::Announce(_) => if before.discovery_active {
            &&& after == (ClientView { neighbors: before.neighbors.insert(src), ..before })
            &&& delivers_to_all(deliveries, before.sessions, SessionCommandView::AddNeighbor(src))
        } else {
            after == before && deliveries.len() == 0
        },
        ServerContent::Ack { session_id, id } => {
            let transfer = Transfer { addr: src, id, session_id };
            if !before.sessions.contains(session_id.0) || before.transfers.contains(transfer) {
                after == before && deliveries.len() == 0
            } else {
                let others = before.forget(src, id);
                &&& after == (ClientView { transfers: others.transfers.insert(transfer), ..others })
                &&& delivers(
                    deliveries,
                    session_id,
                    SessionCommandView::Transmit { id, addr: src },
                )
            }
        },
        ServerContent::Nack { session_id, .. } => {
            &&& after == before
            &&& if before.sessions.contains(session_id.0) {
                delivers(deliveries, session_id, SessionCommandView::RemoveNeighbor(src))
            } else {
                deliveries.len() == 0
            }
        },
        ServerContent::Error { id, .. } | ServerContent::Done { id } => transfer_over(
            before,
            src,
            id,
            after,
            deliveries,
        ),
        ServerContent::Repeat { id, offsets } => {
            &&& after == before
            &&& match before.session_of(src, id) {
                Some(session_id) => delivers(
                    deliveries,
                    session_id,
                    SessionCommandView::Retransmit { id, addr: src, chunks: offsets },
                ),
                None => deliveries.len() == 0,
            }
        },
    }
}

/// What a client knows of servers and sessions.
#[derive(Debug)]
pub struct ClientContext {
    discovery_active: bool,
    sessions: HashSet<u32>,
    /// New sessions begin with these.
    neighbors: PeerSet,
    transfers: Vec<Transfer>,
}

impl View for ClientContext {
    type V = ClientView;

    closed spec fn view(&self) -> ClientView {
        ClientView {
            discovery_active: self.discovery_active,
            sessions: self.sessions@,
            neighbors: self.neighbors@,
            transfers: self.transfers@.to_set(),
        }
    }
}

impl ClientContext {
    /// A client that knows nothing.
    pub fn new() -> (client: ClientContext)
        ensures
            client@.wf(),
            client@ == (ClientView {
                discovery_active: false,
                sessions: Set::empty(),
                neighbors: Set::empty(),
                transfers: Set::empty(),
            }),
    {
        let client = ClientContext {
            discovery_active: false,
            sessions: HashSet::new(),
            neighbors: PeerSet::new(),
            transfers: Vec::new(),
        };
        assert(client@.transfers =~= Set::empty());
        client
    }

    /// Carries out a command; a new session gets the number `candidate`, unless another one has it.
    pub fn handle_cmd<P>(&mut self, cmd: ClientCommand<P>, candidate: SessionId) -> (outcome:
        CommandOutcome<P>)
        requires
            old(self)@.wf(),
        ensures
            final(self)@.wf(),
            cmd_handled(old(self)@, cmd, candidate, final(self)@, outcome),
    {
        let ghost before = self@;
        match cmd {
            ClientCommand::StartDiscovery => {
                self.discovery_active = true;
                assert(self@.transfers == before.transfers);
                CommandOutcome::Discover(ClientMessage::Discover.to_datagram())
            },
            ClientCommand::StopDiscovery => {
                self.discovery_active = false;
                assert(self@.transfers == before.transfers);
                CommandOutcome::Nothing
            },
            ClientCommand::CreateSession { path } => {
                if self.sessions.contains(&candidate.0) {
                    return CommandOutcome::SessionIdTaken(path);
                }
                self.sessions.insert(candidate.0);
                proof {
                    assert(self@.transfers == before.transfers);
                    assert(self@.sessions == before.sessions.insert(candidate.0));
                    assert(self@.wf());
                }
                CommandOutcome::Session(
                    candidate,
                    SessionContext {
                        session_id: candidate,
                        path,
                        neighbors: self.neighbors.copy(),
                    },
                )
            },
        }
    }

    /// Whether no transfer is under way.
    pub fn is_idle(&self) -> (idle: bool)
        ensures
            idle == no_transfers(self@),
    {
        let idle = self.transfers.len() == 0;
        proof {
            if idle {
                assert(self@.transfers =~= Set::<Transfer>::empty());
            } else {
                assert(self@.transfers.contains(self.transfers@[0]));
            }
        }
        idle
    }

    /// What is to be done about a server's message.
    pub fn handle_server_msg(&mut self, msg: &ServerMessage<'_>, src: PeerAddr) -> (deliveries: Vec<
        Delivery,
    >)
        requires
            old(self)@.wf(),
        ensures
            final(self)@.wf(),
            server_msg_handled(old(self)@, msg@, src, final(self)@, deliveries@),
    {
        let mut deliveries: Vec<Delivery> = Vec::new();
        match msg {
            ServerMessage::Announce(_) => {
                if !self.discovery_active {
                    return deliveries;
                }
                let ghost before = self@;
                self.neighbors.insert(src);
                assert(self@.transfers == before.transfers);
                return self.announce_to_sessions(src);
            },
            ServerMessage::Ack { session_id, id } => {
                let transfer = Transfer { addr: src, id: *id, session_id: *session_id };
                if !self.sessions.contains(&session_id.0) || self.has_transfer(transfer) {
                    return deliveries;
                }
                self.forget(src, *id);
                let ghost others = self.transfers@;
                self.transfers.push(transfer);
                proof {
                    lemma_push_contains(others, transfer);
                    assert(self@.transfers =~= others.to_set().insert(transfer));
                }
                deliveries.push(
                    Delivery {
                        session_id: *session_id,
                        cmd: SessionCommand::Transmit { id: *id, addr: src },
                    },
                );
            },
            ServerMessage::Nack { session_id, msg: _ } => {
                if self.sessions.contains(&session_id.0) {
                    deliveries.push(
                        Delivery {
                            session_id: *session_id,
                            cmd: SessionCommand::RemoveNeighbor(src),
                        },
                    );
                }
            },
            ServerMessage::Error { id, msg: _ } => {
                return self.end_transfer(src, *id);
            },
            ServerMessage::Repeat { id, offsets } => {
                if let Some(session_id) = self.find_session(src, *id) {
                    let chunks: Vec<u64> = match offsets {
                        Cow::Borrowed(slice) => slice_to_vec(slice),
                        Cow::Owned(vec) => slice_to_vec(vec.as_slice()),
                    };
                    deliveries.push(
                        Delivery {
                            session_id,
                            cmd: SessionCommand::Retransmit { id: *id, addr: src, chunks },
                        },
                    );
                }
            },
            ServerMessage::Done { id } => {
                return self.end_transfer(src, *id);
            },
        }
        deliveries
    }

    /// What is to be done about a transfer whose file could not be read: the server is told why,
    /// and the transfer is over.
    pub fn transfer_failed(
        &mut self,
        addr: PeerAddr,
        id: Identifier,
        step: ReadStep,
        err: &str,
    ) -> (failure: TransferFailure)
        requires
            old(self)@.wf(),
        ensures
            final(self)@.wf(),
            failure_handled(old(self)@, addr, id, step, err@, final(self)@, failure),
    {
        let mut text = String::new();
        match step {
            ReadStep::Open => text.append("failed to open file: "),
            ReadStep::Inspect => text.append("failed to fetch file stats: "),
            ReadStep::Read => text.append("failed to read file: "),
        }
        text.append(err);
        assert(text@ =~= read_text(step, err@));
        let report = ClientMessage::Error { id, msg: text.as_str() }.to_datagram();
        TransferFailure { report, deliveries: self.end_transfer(addr, id) }
    }

    /// Takes note that a session is over.
    pub fn session_ended(&mut self, session_id: SessionId)
        requires
            old(self)@.wf(),
        ensures
            final(self)@.wf(),
            session_forgotten(old(self)@, session_id, final(self)@),
    {
        let ghost known = self@;
        self.sessions.remove(&session_id.0);
        let keep = |t: Transfer| -> (kept: bool)
            ensures
                kept == (t.session_id != session_id),
            { t.session_id != session_id };
        self.transfers = kept_transfers(
            &self.transfers,
            keep,
            Ghost(|t: Transfer| t.session_id != session_id),
        );
        assert(self@.transfers.subset_of(known.transfers));
    }

    fn end_transfer(&mut self, addr: PeerAddr, id: Identifier) -> (deliveries: Vec<Delivery>)
        requires
            old(self)@.wf(),
        ensures
            final(self)@.wf(),
            transfer_over(old(self)@, addr, id, final(self)@, deliveries@),
    {
        let mut deliveries: Vec<Delivery> = Vec::new();
        if let Some(session_id) = self.find_session(addr, id) {
            self.forget(addr, id);
            deliveries.push(Delivery { session_id, cmd: SessionCommand::RemoveNeighbor(addr) });
        }
        deliveries
    }

    fn announce_to_sessions(&self, addr: PeerAddr) -> (deliveries: Vec<Delivery>)
        ensures
            delivers_to_all(
                deliveries@,
                self@.sessions,
                SessionCommandView::AddNeighbor(addr),
            ),
    {
        let mut deliveries: Vec<Delivery> = Vec::new();
        for key in keys: self.sessions.iter()
            invariant
                keys.seq() == vstd::std_specs::iter::IteratorSpec::remaining(
                    &vstd::std_specs::hash::spec_hash_keys_iter(&self.sessions),
                ),
                deliveries@.len() == keys.index(),
                forall|i: int|
                    0 <= i < deliveries@.len() ==> (#[trigger] deliveries@[i]).session_id.0
                        == *keys.seq()[i] && deliveries@[i].cmd@
                        == SessionCommandView::AddNeighbor(addr),
        {
            deliveries.push(
                Delivery { session_id: SessionId(*key), cmd: SessionCommand::AddNeighbor(addr) },
            );
        }
        proof {
            let all = vstd::std_specs::iter::IteratorSpec::remaining(
                &vstd::std_specs::hash::spec_hash_keys_iter(&self.sessions),
            );
            assert forall|s: u32| #[trigger] self.sessions@.contains(s) implies is_addressed(
                deliveries@,
                s,
            ) by {
                assert(all.unref().to_set().contains(s));
                let k = choose|k: int| 0 <= k < all.unref().len() && all.unref()[k] == s;
                assert(deliveries@[k].session_id.0 == s);
            }
            assert forall|i: int| 0 <= i < deliveries@.len() implies self.sessions@.contains(
                (#[trigger] deliveries@[i]).session_id.0,
            ) by {
                assert(all.unref()[i] == *all[i]);
                assert(all.unref().to_set().contains(*all[i]));
            }
        }
        deliveries
    }

    fn has_transfer(&self, transfer: Transfer) -> (known: bool)
        ensures
            known == self@.transfers.contains(transfer),
    {
        let mut i: usize = 0;
        while i < self.transfers.len()
            invariant
                i <= self.transfers@.len(),
                forall|j: int| 0 <= j < i ==> self.transfers@[j] != transfer,
            decreases self.transfers.len() - i,
        {
            if self.transfers[i] == transfer {
                assert(self.transfers@.contains(transfer));
                return true;
            }
            i += 1;
        }
        false
    }

    fn find_session(&self, addr: PeerAddr, id: Identifier) -> (session: Option<SessionId>)
        requires
            self@.wf(),
        ensures
            session == self@.session_of(addr, id),
            session matches Some(s) ==> self@.sessions.contains(s.0),
    {
        let mut i: usize = 0;
        while i < self.transfers.len()
            invariant
                i <= self.transfers@.len(),
                self@.wf(),
                forall|j: int|
                    0 <= j < i ==> !((#[trigger] self.transfers@[j]).addr == addr
                        && self.transfers@[j].id == id),
            decreases self.transfers.len() - i,
        {
            let transfer = self.transfers[i];
            if transfer.addr == addr && transfer.id == id {
                proof {
                    assert(self.transfers@.contains(transfer));
                    assert(self@.accepted(addr, id, transfer.session_id));
                }
                return Some(transfer.session_id);
            }
            i += 1;
        }
        None
    }

    fn forget(&mut self, addr: PeerAddr, id: Identifier)
        requires
            old(self)@.wf(),
        ensures
            final(self)@.wf(),
            final(self)@ == old(self)@.forget(addr, id),
    {
        let ghost known = self@;
        let keep = |t: Transfer| -> (kept: bool)
            ensures
                kept == !(t.addr == addr && t.id == id),
            { !(t.addr == addr && t.id == id) };
        self.transfers = kept_transfers(
            &self.transfers,
            keep,
            Ghost(|t: Transfer| !(t.addr == addr && t.id == id)),
        );
        assert(self@.transfers.subset_of(known.transfers));
    }
}

/// The transfers that are to be kept.
fn kept_transfers<F: Fn(Transfer) -> bool>(
    transfers: &Vec<Transfer>,
    keep: F,
    Ghost(wanted): Ghost<spec_fn(Transfer) -> bool>,
) -> (kept: Vec<Transfer>)
    requires
        forall|t: Transfer| #[trigger] call_requires(keep, (t,)),
        forall|t: Transfer, b: bool| #[trigger] call_ensures(keep, (t,), b) ==> b == wanted(t),
    ensures
        kept@.to_set() == transfers@.to_set().filter(wanted),
{
    let mut kept: Vec<Transfer> = Vec::new();
    let mut i: usize = 0;
    while i < transfers.len()
        invariant
            i <= transfers@.len(),
            forall|t: Transfer| #[trigger] call_requires(keep, (t,)),
            forall|t: Transfer, b: bool| #[trigger]
                call_ensures(keep, (t,), b) ==> b == wanted(t),
            forall|t: Transfer| #[trigger]
                kept@.contains(t) <==> transfers@.take(i as int).contains(t) && wanted(t),
        decreases transfers.len() - i,
    {
        let transfer = transfers[i];
        let ghost before = kept@;
        if keep(transfer) {
            kept.push(transfer);
        }
        i += 1;
        proof {
            assert(transfers@.take(i as int) =~= transfers@.take(i - 1).push(transfer));
            lemma_push_contains(transfers@.take(i - 1), transfer);
            lemma_push_contains(before, transfer);
        }
    }
    assert(transfers@.take(i as int) =~= transfers@);
    assert(kept@.to_set() =~= transfers@.to_set().filter(wanted));
    kept
}

proof fn lemma_push_contains(s: Seq<Transfer>, x: Transfer)
    ensures
        forall|t: Transfer| #[trigger] s.push(x).contains(t) <==> s.contains(t) || t == x,
{
    assert forall|t: Transfer| #[trigger] s.push(x).contains(t) <==> s.contains(t) || t == x by {
        if s.contains(t) {
            let i = s.index_of(t);
            assert(s.push(x)[i] == t);
        }
        if t == x {
            assert(s.push(x)[s.len() as int] == t);
        }
    }
}

} // verus!
