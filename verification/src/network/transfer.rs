//! A file in chunks: how a client sends it, and that a server gets it whole.

use super::repetition::{
    gap_offsets, head_offsets, inner_offsets, is_missing, lemma_gap_not_covered, lemma_gap_value,
    lemma_outside_not_covered, missing_offsets, only_missing_chunks_are_requested,
    requested_offsets, resume_at, tail_offsets, within,
};
use super::server::{
    chunk_len_ok, chunk_positions, data_verdict, extended, EntryView, PendingChunk,
};
use crate::protocol::client_message::{client_bytes, ClientContent, ClientMessage};
use crate::protocol::datagram::{parse_client_datagram, prefix, start_datagram};
use crate::protocol::laws::client_datagram_round_trip;
use crate::protocol::{DecodeError, Identifier, CHUNK_SIZE, DATAGRAM_SIZE_LIMIT};
use crate::ranges::{covered, separated};
use vstd::prelude::*;

verus! {

/// How many bytes of what was read go into a chunk.
pub open spec fn chunk_use(available: nat) -> nat {
    if available <= CHUNK_SIZE {
        available
    } else {
        CHUNK_SIZE as nat
    }
}

/// The datagram that carries the chunk at `offset`, of which, and of what follows it, `content`
/// was read.
pub open spec fn data_datagram(id: Identifier, offset: u64, content: Seq<u8>) -> Seq<u8> {
    prefix() + client_bytes(
        ClientContent::Data { id, offset, content: content.take(chunk_use(content.len()) as int) },
    )
}

/// The datagram that carries the chunk at `offset`, of which, and of what follows it, `content`
/// was read. Tells also how much of it the datagram carries.
pub fn chunk_packet(id: Identifier, offset: u64, content: &[u8]) -> (packet: (Vec<u8>, usize))
    ensures
        packet.0@ == data_datagram(id, offset, content@),
        packet.1 == chunk_use(content@.len()),
{
    let mut datagram = start_datagram();
    let limit: usize = datagram.len() + DATAGRAM_SIZE_LIMIT;
    let used: usize = ClientMessage::encode_data_msg(id, offset, content, limit, &mut datagram);
    (datagram, used)
}

/// How far a file is on its way to a server.
pub struct TransmissionView {
    /// The transfer that the file is sent for.
    pub id: Identifier,
    /// The size of the file.
    pub size: u64,
    /// Where the next chunk begins.
    pub offset: u64,
}

impl TransmissionView {
    /// Nothing was sent yet.
    pub open spec fn begin(id: Identifier, size: u64) -> TransmissionView {
        TransmissionView { id, size, offset: 0 }
    }

    /// Where the next chunk begins, if there is one.
    pub open spec fn next_offset(self) -> Option<u64> {
        if self.offset < self.size {
            Some(self.offset)
        } else {
            None
        }
    }
}

/// The datagram for the next chunk, of which, and of what follows it, `content` was read. A file
/// that has no more to read is at its end, whatever its size was.
pub open spec fn packet_made(
    before: TransmissionView,
    content: Seq<u8>,
    after: TransmissionView,
    packet: Seq<u8>,
) -> bool {
    &&& packet == data_datagram(before.id, before.offset, content)
    &&& after.id == before.id
    &&& after.size == before.size
    &&& after.offset == if content.len() == 0 || before.offset + chunk_use(content.len())
        > u64::MAX {
        before.size as int
    } else {
        before.offset + chunk_use(content.len())
    }
}

/// A file on its way to a server, chunk by chunk.
#[derive(Debug)]
pub struct Transmission {
    id: Identifier,
    size: u64,
    offset: u64,
}

impl View for Transmission {
    type V = TransmissionView;

    open spec fn view(&self) -> TransmissionView {
        TransmissionView { id: self.id(), size: self.size(), offset: self.offset() }
    }
}

impl Transmission {
    /// The transfer that the file is sent for.
    pub closed spec fn id(&self) -> Identifier {
        self.id
    }

    /// The size of the file.
    pub closed spec fn size(&self) -> u64 {
        self.size
    }

    /// Where the next chunk begins.
    pub closed spec fn offset(&self) -> u64 {
        self.offset
    }

    /// A file of which nothing was sent yet.
    pub fn new(id: Identifier, size: u64) -> (transmission: Transmission)
        ensures
            transmission@ == TransmissionView::begin(id, size),
    {
        Transmission { id, size, offset: 0 }
    }

    /// Where the next chunk begins, if there is one.
    pub fn next_offset(&self) -> (offset: Option<u64>)
        ensures
            offset == self@.next_offset(),
    {
        if self.offset < self.size {
            Some(self.offset)
        } else {
            None
        }
    }

    /// The datagram for the next chunk, of which, and of what follows it, `content` was read. A
    /// file that has no more to read is at its end, whatever its size was.
    pub fn next_packet(&mut self, content: &[u8]) -> (packet: Vec<u8>)
        requires
            old(self).offset() < old(self).size(),
        ensures
            packet_made(old(self)@, content@, final(self)@, packet@),
    {
        let (packet, used) = chunk_packet(self.id, self.offset, content);
        self.offset = match self.offset.checked_add(used as u64) {
            Some(offset) => if used == 0 {
                self.size
            } else {
                offset
            },
            None => self.size,
        };
        packet
    }
}

/// How many chunks a file has.
pub open spec fn chunk_count(size: u64) -> int {
    (size + CHUNK_SIZE - 1) / CHUNK_SIZE as int
}

/// Where a chunk begins.
pub open spec fn chunk_start(k: int) -> int {
    k * CHUNK_SIZE
}

/// How long a chunk is: the last one ends with the file.
pub open spec fn chunk_len(k: int, size: u64) -> int {
    if chunk_start(k) + CHUNK_SIZE <= size {
        CHUNK_SIZE as int
    } else {
        size - chunk_start(k)
    }
}

/// The positions of some of the chunks of a file.
pub open spec fn positions(chunks: Set<int>, size: u64) -> Set<u64> {
    Set::new(|x: u64| x < size && chunks.contains(x as int / CHUNK_SIZE as int))
}

/// How many bytes some of the first `n` chunks of a file have.
pub open spec fn bytes_of(chunks: Set<int>, size: u64, n: int) -> int
    decreases n,
{
    if n <= 0 {
        0
    } else {
        bytes_of(chunks, size, n - 1) + if chunks.contains(n - 1) {
            chunk_len(n - 1, size)
        } else {
            0
        }
    }
}

/// Whether what arrived of a file are some of its chunks, each of them once.
pub open spec fn holds(entry: EntryView, chunks: Set<int>) -> bool {
    &&& separated(entry.spans)
    &&& forall|k: int| #[trigger] chunks.contains(k) ==> 0 <= k < chunk_count(entry.expected_size)
    &&& entry.received() == positions(chunks, entry.expected_size)
    &&& entry.curr_size == bytes_of(chunks, entry.expected_size, chunk_count(entry.expected_size))
}

/// Whether these are all chunks of a file.
pub open spec fn all_chunks(chunks: Set<int>, size: u64) -> bool {
    forall|k: int| 0 <= k < chunk_count(size) ==> #[trigger] chunks.contains(k)
}

pub(crate) proof fn lemma_chunk(k: int, size: u64)
    requires
        0 <= k < chunk_count(size),
    ensures
        0 <= chunk_start(k) < size,
        0 < chunk_len(k, size) <= CHUNK_SIZE,
        chunk_start(k) + chunk_len(k, size) <= size,
        chunk_len(k, size) < CHUNK_SIZE ==> k == chunk_count(size) - 1,
        forall|x: int|
            #![trigger x / CHUNK_SIZE as int]
            0 <= x < size ==> (x / CHUNK_SIZE as int == k <==> chunk_start(k) <= x < chunk_start(k)
                + chunk_len(k, size)),
{
    let c = CHUNK_SIZE as int;
    let n = chunk_count(size);
    assert(c * n <= size + c - 1 < c * n + c) by (nonlinear_arith)
        requires
            n == (size + c - 1) / c,
            c > 0,
    ;
    assert(k * c >= 0 && k * c + c <= c * n) by (nonlinear_arith)
        requires
            0 <= k < n,
            c > 0,
    ;
    if k < n - 1 {
        assert(k * c + 2 * c <= c * n) by (nonlinear_arith)
            requires
                k < n - 1,
                c > 0,
        ;
    }
    assert forall|x: int| #![trigger x / c] 0 <= x < size implies (x / c == k <==> chunk_start(k)
        <= x < chunk_start(k) + chunk_len(k, size)) by {
        let q = x / c;
        assert(c * q <= x < c * q + c) by (nonlinear_arith)
            requires
                q == x / c,
                c > 0,
        ;
        if q == k {
            assert(c * q == k * c) by (nonlinear_arith)
                requires
                    q == k,
            ;
        } else if q < k {
            assert(c * q + c <= k * c) by (nonlinear_arith)
                requires
                    q < k,
                    c > 0,
            ;
        } else {
            assert(k * c + c <= c * q) by (nonlinear_arith)
                requires
                    k < q,
                    c > 0,
            ;
        }
    }
}

proof fn lemma_chunk_of(x: int, size: u64)
    requires
        0 <= x < size,
    ensures
        0 <= x / (CHUNK_SIZE as int) < chunk_count(size),
{
    let c = CHUNK_SIZE as int;
    let n = chunk_count(size);
    let q = x / c;
    assert(c * n <= size + c - 1 < c * n + c) by (nonlinear_arith)
        requires
            n == (size + c - 1) / c,
            c > 0,
    ;
    assert(c * q <= x < c * q + c) by (nonlinear_arith)
        requires
            q == x / c,
            c > 0,
    ;
    assert(0 <= q < n) by (nonlinear_arith)
        requires
            c * q <= x < c * q + c,
            0 <= x < size,
            size < c * n + 1,
            c > 0,
    ;
}

/// A server takes every chunk of a file for one of the right length.
pub proof fn chunks_have_acceptable_length(k: int, size: u64)
    requires
        0 <= k < chunk_count(size),
    ensures
        chunk_len_ok(chunk_start(k), chunk_len(k, size), size as int),
{
    lemma_chunk(k, size);
}

/// The chunks of a file are all of it, and no two of them overlap.
pub proof fn chunks_partition_a_file(size: u64, x: u64)
    requires
        x < size,
    ensures
        exists|k: int|
            0 <= k < chunk_count(size) && #[trigger] chunk_positions(
                chunk_start(k) as u64,
                chunk_len(k, size),
            ).contains(x),
        forall|j: int, k: int|
            0 <= j < chunk_count(size) && 0 <= k < chunk_count(size)
                && #[trigger] chunk_positions(chunk_start(j) as u64, chunk_len(j, size)).contains(x)
                && #[trigger] chunk_positions(chunk_start(k) as u64, chunk_len(k, size)).contains(x)
                ==> j == k,
{
    let q = x as int / CHUNK_SIZE as int;
    lemma_chunk_of(x as int, size);
    lemma_chunk(q, size);
    assert(chunk_positions(chunk_start(q) as u64, chunk_len(q, size)).contains(x));
    assert forall|k: int|
        0 <= k < chunk_count(size) && #[trigger] chunk_positions(
            chunk_start(k) as u64,
            chunk_len(k, size),
        ).contains(x) implies k == q by {
        lemma_chunk(k, size);
    }
}

proof fn lemma_bytes_insert(chunks: Set<int>, size: u64, k: int, n: int)
    requires
        0 <= k,
        !chunks.contains(k),
    ensures
        bytes_of(chunks.insert(k), size, n) == bytes_of(chunks, size, n) + if k < n {
            chunk_len(k, size)
        } else {
            0
        },
    decreases n,
{
    if n > 0 {
        lemma_bytes_insert(chunks, size, k, n - 1);
    }
}

proof fn lemma_bytes_bound(chunks: Set<int>, size: u64, n: int)
    requires
        0 <= n <= chunk_count(size),
    ensures
        0 <= bytes_of(chunks, size, n) <= size,
        n < chunk_count(size) ==> bytes_of(chunks, size, n) <= chunk_start(n),
        (n < chunk_count(size) && bytes_of(chunks, size, n) == chunk_start(n)) || (n
            == chunk_count(size) && bytes_of(chunks, size, n) == size) <==> forall|k: int|
            0 <= k < n ==> #[trigger] chunks.contains(k),
    decreases n,
{
    if n > 0 {
        lemma_bytes_bound(chunks, size, n - 1);
        lemma_chunk(n - 1, size);
        let c = CHUNK_SIZE as int;
        assert(chunk_start(n) == chunk_start(n - 1) + c) by (nonlinear_arith)
            requires
                chunk_start(n) == n * c,
                chunk_start(n - 1) == (n - 1) * c,
        ;
        if n == chunk_count(size) {
            lemma_last_chunk(size);
        } else {
            lemma_chunk(n, size);
            assert(chunk_len(n - 1, size) == c);
        }
        if forall|k: int| 0 <= k < n ==> #[trigger] chunks.contains(k) {
            assert(chunks.contains(n - 1));
        } else if forall|k: int| 0 <= k < n - 1 ==> #[trigger] chunks.contains(k) {
            assert(!chunks.contains(n - 1));
        }
    } else if chunk_count(size) == 0 {
        let c = CHUNK_SIZE as int;
        assert(size == 0) by (nonlinear_arith)
            requires
                (size + c - 1) / c == 0,
                c > 0,
                size >= 0,
        ;
    }
}

proof fn lemma_last_chunk(size: u64)
    requires
        chunk_count(size) > 0,
    ensures
        chunk_start(chunk_count(size) - 1) + chunk_len(chunk_count(size) - 1, size) == size,
{
    let c = CHUNK_SIZE as int;
    let n = chunk_count(size);
    assert((n - 1) * c + c >= size) by (nonlinear_arith)
        requires
            n == (size + c - 1) / c,
            c > 0,
    ;
}

/// Chunks may come in any order: what decides is which of them arrived. One that did not arrive
/// yet is taken as new, one that did as redundant. A new one completes the file if and only if
/// every other chunk is there, and else is remembered with the others.
pub proof fn chunks_may_come_in_any_order(
    sessions: Map<u64, EntryView>,
    id: Identifier,
    chunks: Set<int>,
    k: int,
)
    requires
        sessions.contains_key(id.0),
        holds(sessions[id.0], chunks),
        0 <= k < chunk_count(sessions[id.0].expected_size),
    ensures
        ({
            let entry = sessions[id.0];
            let size = entry.expected_size;
            let offset = chunk_start(k) as u64;
            let len = chunk_len(k, size);
            if chunks.contains(k) {
                data_verdict(sessions, id, offset, len) is Redundant
            } else {
                &&& data_verdict(sessions, id, offset, len) is New
                &&& entry.curr_size + len <= size
                &&& entry.curr_size + len == size <==> all_chunks(chunks.insert(k), size)
                &&& forall|after: EntryView, chunk: PendingChunk, now: u64|
                    chunk.offset == offset && chunk.len == len && #[trigger] extended(
                        entry,
                        after,
                        chunk,
                        now,
                    ) && separated(after.spans) ==> holds(after, chunks.insert(k))
            }
        }),
{
    let entry = sessions[id.0];
    let size = entry.expected_size;
    let offset = chunk_start(k) as u64;
    let len = chunk_len(k, size);
    let n = chunk_count(size);
    lemma_chunk(k, size);
    chunks_have_acceptable_length(k, size);
    let part = chunk_positions(offset, len);
    assert(part.contains(offset));
    assert(offset as int / CHUNK_SIZE as int == k);
    if chunks.contains(k) {
        assert(part.subset_of(entry.received()));
    } else {
        assert(!entry.received().contains(offset));
        let more = chunks.insert(k);
        lemma_bytes_insert(chunks, size, k, n);
        lemma_bytes_bound(more, size, n);
        assert(all_chunks(more, size) <==> forall|j: int| 0 <= j < n ==> #[trigger] more.contains(j));
        assert(positions(chunks, size).union(part) =~= positions(more, size));
    }
}

/// A session begins without any chunks.
pub proof fn session_begins_empty(entry: EntryView)
    requires
        entry.spans == Seq::<(u64, u64)>::empty(),
        entry.curr_size == 0,
    ensures
        holds(entry, Set::empty()),
{
    lemma_no_bytes(entry.expected_size, chunk_count(entry.expected_size));
    assert(entry.received() =~= positions(Set::empty(), entry.expected_size));
}

proof fn lemma_no_bytes(size: u64, n: int)
    ensures
        bytes_of(Set::empty(), size, n) == 0,
    decreases n,
{
    if n > 0 {
        lemma_no_bytes(size, n - 1);
    }
}

/// Whether every one of some offsets is where a chunk begins.
pub open spec fn on_chunk_boundaries(offsets: Seq<u64>) -> bool {
    forall|i: int| 0 <= i < offsets.len() ==> #[trigger] offsets[i] as int % CHUNK_SIZE as int == 0
}

proof fn lemma_gap_boundaries(start: int, limit: int)
    requires
        0 <= start <= limit <= u64::MAX,
        start % CHUNK_SIZE as int == 0,
    ensures
        on_chunk_boundaries(gap_offsets(start, limit)),
{
    let c = CHUNK_SIZE as int;
    let g = gap_offsets(start, limit);
    assert forall|i: int| 0 <= i < g.len() implies #[trigger] g[i] as int % c == 0 by {
        lemma_gap_value(start, limit, i);
        vstd::arithmetic::div_mod::lemma_mod_multiples_vanish(i, start, c);
        assert(c * i + start == start + i * c) by (nonlinear_arith);
    }
}

proof fn lemma_inner_boundaries(spans: Seq<(u64, u64)>, chunks: Set<int>, size: u64, n: int)
    requires
        separated(spans),
        within(spans, size),
        covered(spans) == positions(chunks, size),
        0 <= n <= spans.len(),
    ensures
        on_chunk_boundaries(inner_offsets(spans.take(n))),
    decreases n,
{
    if n >= 2 {
        lemma_inner_boundaries(spans, chunks, size, n - 1);
        let part = spans.take(n);
        assert(part.drop_last() =~= spans.take(n - 1));
        let end = spans[n - 2].1;
        let limit = spans[n - 1].0 as int;
        assert(spans[n - 2].1 + 1 < spans[n - 1].0);
        assert(spans[n - 1].0 <= spans[n - 1].1);
        lemma_boundary(spans, chunks, size, n - 2);
        lemma_gap_boundaries(end + 1, limit);
        let a = inner_offsets(part.drop_last());
        let b = gap_offsets(end + 1, limit);
        assert(inner_offsets(part) == a + b);
        assert forall|i: int| 0 <= i < (a + b).len() implies #[trigger] (a + b)[i] as int
            % CHUNK_SIZE as int == 0 by {
            if i < a.len() {
                assert((a + b)[i] == a[i]);
            } else {
                assert((a + b)[i] == b[i - a.len()]);
            }
        }
    }
}

/// Where what arrived of a file ends, a chunk begins.
proof fn lemma_boundary(spans: Seq<(u64, u64)>, chunks: Set<int>, size: u64, i: int)
    requires
        separated(spans),
        covered(spans) == positions(chunks, size),
        0 <= i < spans.len(),
        spans[i].1 + 1 < size,
    ensures
        (spans[i].1 + 1) % CHUNK_SIZE as int == 0,
{
    let c = CHUNK_SIZE as int;
    let end = spans[i].1;
    let next = (end + 1) as u64;
    assert(spans[i].0 <= end);
    assert(covered(spans).contains(end));
    if i + 1 < spans.len() {
        assert(spans[i].1 + 1 < spans[i + 1].0);
        assert(spans[i + 1 - 1].1 < next < spans[i + 1].0);
        lemma_gap_not_covered(spans, next);
    } else {
        lemma_outside_not_covered(spans, next);
    }
    assert(!positions(chunks, size).contains(next));
    assert((end as int) / c != (end + 1) / c);
    assert((end + 1) % c == 0) by (nonlinear_arith)
        requires
            (end as int) / c != (end + 1) / c,
            c > 0,
            end >= 0,
    ;
}

/// A server that got whole chunks asks for whole chunks: every offset that it asks for is that of
/// a chunk that it did not get.
pub proof fn requests_are_for_missing_chunks(entry: EntryView, chunks: Set<int>, i: int)
    requires
        holds(entry, chunks),
        0 <= i < requested_offsets(entry.spans, entry.expected_size).len(),
    ensures
        ({
            let offset = requested_offsets(entry.spans, entry.expected_size)[i];
            let k = offset as int / CHUNK_SIZE as int;
            &&& chunk_start(k) == offset
            &&& 0 <= k < chunk_count(entry.expected_size)
            &&& !chunks.contains(k)
        }),
{
    let spans = entry.spans;
    let size = entry.expected_size;
    let c = CHUNK_SIZE as int;
    let n = spans.len() as int;
    assert forall|j: int| 0 <= j < n implies (#[trigger] spans[j]).1 < size by {
        assert(spans[j].0 <= spans[j].1);
        assert(covered(spans).contains(spans[j].1));
        assert(positions(chunks, size).contains(spans[j].1));
    }
    only_missing_chunks_are_requested(spans, size);
    let h = head_offsets(spans);
    let m = inner_offsets(spans);
    let t = tail_offsets(spans, size);
    if n > 0 && spans[0].0 > 0 {
        lemma_gap_boundaries(0, spans[0].0 as int);
    }
    lemma_inner_boundaries(spans, chunks, size, n);
    assert(spans.take(n) =~= spans);
    if resume_at(spans) < size {
        if n > 0 {
            lemma_boundary(spans, chunks, size, n - 1);
        }
        lemma_gap_boundaries(resume_at(spans), size as int);
    }
    let all = missing_offsets(spans, size);
    let offset = requested_offsets(spans, size)[i];
    assert(offset == all[i]);
    if i < h.len() {
        assert(all[i] == h[i]);
    } else if i < h.len() + m.len() {
        assert(all[i] == m[i - h.len()]);
    } else {
        assert(all[i] == t[i - h.len() - m.len()]);
    }
    assert(offset as int % c == 0);
    assert((offset as int / c) * c == offset) by (nonlinear_arith)
        requires
            offset as int % c == 0,
            c > 0,
    ;
    assert(is_missing(spans, size, offset));
    lemma_chunk_of(offset as int, size);
}

/// A client that reads as much as a chunk takes, or all that is left, sends the chunks of the
/// file one after the other, to the end; and a server reads each of them as it is in the file.
pub proof fn transmission_sends_the_chunks(id: Identifier, file: Seq<u8>, k: int, read: Seq<u8>)
    requires
        file.len() <= u64::MAX,
        0 <= k < chunk_count(file.len() as u64),
        read.len() >= chunk_len(k, file.len() as u64),
        read.len() <= file.len() - chunk_start(k),
        read == file.subrange(chunk_start(k), chunk_start(k) + read.len()),
    ensures
        ({
            let size = file.len() as u64;
            let start = chunk_start(k);
            let next = start + chunk_use(read.len());
            &&& parse_client_datagram(data_datagram(id, start as u64, read)) == Ok::<
                ClientContent,
                DecodeError,
            >(
                ClientContent::Data {
                    id,
                    offset: start as u64,
                    content: file.subrange(start, start + chunk_len(k, size)),
                },
            )
            &&& next == if k + 1 < chunk_count(size) {
                chunk_start(k + 1)
            } else {
                size as int
            }
        }),
{
    let size = file.len() as u64;
    let start = chunk_start(k);
    let len = chunk_len(k, size);
    lemma_chunk(k, size);
    assert(chunk_use(read.len()) == len);
    assert(read.take(len) =~= file.subrange(start, start + len));
    client_datagram_round_trip(
        ClientContent::Data { id, offset: start as u64, content: read.take(len) },
    );
    let c = CHUNK_SIZE as int;
    assert((k + 1) * c == k * c + c) by (nonlinear_arith);
    if k + 1 == chunk_count(size) {
        lemma_last_chunk(size);
    }
}

/// A chunk carries what was read of the file, as far as 1435 bytes of it, from where it was read on
/// and for the transfer that it is for, whatever these are.
pub proof fn chunks_carry_what_was_read(id: Identifier, offset: u64, content: Seq<u8>)
    ensures
        parse_client_datagram(data_datagram(id, offset, content)) == Ok::<
            ClientContent,
            DecodeError,
        >(
            ClientContent::Data {
                id,
                offset,
                content: content.take(
                    if content.len() < 1435 {
                        content.len() as int
                    } else {
                        1435
                    },
                ),
            },
        ),
        chunk_use(content.len()) <= 1435,
        chunk_use(content.len()) <= content.len(),
        chunk_use(content.len()) == 1435 || chunk_use(content.len()) == content.len(),
{
    client_datagram_round_trip(
        ClientContent::Data {
            id,
            offset,
            content: content.take(chunk_use(content.len()) as int),
        },
    );
}

/// Whether a client sends a file: as long as there is a next chunk it reads from the file, from
/// where that chunk begins on, at least as much as the chunk takes or all that is left, and makes a
/// datagram of that.
pub open spec fn sends(
    id: Identifier,
    file: Seq<u8>,
    states: Seq<TransmissionView>,
    reads: Seq<Seq<u8>>,
    packets: Seq<Seq<u8>>,
) -> bool {
    &&& states.len() == packets.len() + 1
    &&& reads.len() == packets.len()
    &&& states[0] == TransmissionView::begin(id, file.len() as u64)
    &&& forall|i: int|
        0 <= i < packets.len() ==> {
            let read = reads[i];
            &&& states[i].next_offset() matches Some(offset)
            &&& read.len() <= file.len() - offset
            &&& read.len() >= 1435 || read.len() == file.len() - offset
            &&& read == file.subrange(offset as int, offset + read.len())
            &&& packet_made(states[i], read, states[i + 1], #[trigger] packets[i])
        }
}

/// Whether a datagram carries a part of a file.
#[verifier::opaque]
spec fn carries(packet: Seq<u8>, id: Identifier, offset: u64, content: Seq<u8>) -> bool {
    parse_client_datagram(packet) == Ok::<ClientContent, DecodeError>(
        ClientContent::Data { id, offset, content },
    )
}

proof fn lemma_packet(
    before: TransmissionView,
    file: Seq<u8>,
    k: int,
    read: Seq<u8>,
    after: TransmissionView,
    packet: Seq<u8>,
)
    requires
        file.len() <= u64::MAX,
        0 <= k < chunk_count(file.len() as u64),
        before.offset == chunk_start(k),
        before.size == file.len(),
        read.len() <= file.len() - before.offset,
        read.len() >= 1435 || read.len() == file.len() - before.offset,
        read == file.subrange(before.offset as int, before.offset + read.len()),
        packet_made(before, read, after, packet),
    ensures
        carries(
            packet,
            before.id,
            before.offset,
            file.subrange(chunk_start(k), chunk_start(k) + chunk_len(k, file.len() as u64)),
        ),
        after.id == before.id,
        after.size == before.size,
        after.offset == if k + 1 < chunk_count(file.len() as u64) {
            chunk_start(k + 1)
        } else {
            file.len() as int
        },
{
    reveal(carries);
    lemma_chunk(k, file.len() as u64);
    transmission_sends_the_chunks(before.id, file, k, read);
}

proof fn lemma_sending(
    id: Identifier,
    file: Seq<u8>,
    states: Seq<TransmissionView>,
    reads: Seq<Seq<u8>>,
    packets: Seq<Seq<u8>>,
    n: int,
)
    requires
        file.len() <= u64::MAX,
        sends(id, file, states, reads, packets),
        0 <= n <= packets.len(),
    ensures
        n <= chunk_count(file.len() as u64),
        states[n].id == id,
        states[n].size == file.len(),
        states[n].offset == if n < chunk_count(file.len() as u64) {
            chunk_start(n)
        } else {
            file.len() as int
        },
    decreases n,
{
    let size = file.len() as u64;
    if n == 0 {
        if chunk_count(size) == 0 {
            lemma_bytes_bound(Set::empty(), size, 0);
        }
    } else {
        lemma_sending(id, file, states, reads, packets, n - 1);
        let k = n - 1;
        let packet = packets[k];
        assert(states[k].next_offset() is Some);
        lemma_packet(states[k], file, k, reads[k], states[k + 1], packet);
    }
}

/// The bytes of a chunk of a file: 1435 from `1435 * i` on, or all that are left.
pub open spec fn chunk_of(file: Seq<u8>, i: int) -> Seq<u8> {
    if 1435 * (i + 1) < file.len() {
        file.subrange(1435 * i, 1435 * (i + 1))
    } else {
        file.subrange(1435 * i, file.len() as int)
    }
}

proof fn lemma_sent(
    id: Identifier,
    file: Seq<u8>,
    states: Seq<TransmissionView>,
    reads: Seq<Seq<u8>>,
    packets: Seq<Seq<u8>>,
    i: int,
)
    requires
        file.len() <= u64::MAX,
        sends(id, file, states, reads, packets),
        0 <= i < packets.len(),
    ensures
        1435 * i < file.len(),
        carries(packets[i], id, (1435 * i) as u64, chunk_of(file, i)),
{
    let size = file.len() as u64;
    lemma_sending(id, file, states, reads, packets, i);
    let packet = packets[i];
    assert(states[i].next_offset() is Some);
    lemma_packet(states[i], file, i, reads[i], states[i + 1], packet);
    lemma_chunk(i, size);
    assert(chunk_start(i) == 1435 * i);
    assert(file.subrange(chunk_start(i), chunk_start(i) + chunk_len(i, size)) == chunk_of(file, i));
}

proof fn lemma_all_sent(
    id: Identifier,
    file: Seq<u8>,
    states: Seq<TransmissionView>,
    reads: Seq<Seq<u8>>,
    packets: Seq<Seq<u8>>,
)
    requires
        file.len() <= u64::MAX,
        sends(id, file, states, reads, packets),
    ensures
        states.last().next_offset() is None <==> packets.len() * 1435 >= file.len(),
{
    let size = file.len() as u64;
    let n = packets.len() as int;
    lemma_sending(id, file, states, reads, packets, n);
    assert(chunk_start(n) == n * 1435);
    if n < chunk_count(size) {
        lemma_chunk(n, size);
    } else if n > 0 {
        lemma_last_chunk(size);
        lemma_chunk(n - 1, size);
        assert(chunk_start(n - 1) == (n - 1) * 1435);
    } else {
        lemma_bytes_bound(Set::empty(), size, 0);
    }
}

/// A client that sends a file to its end sends every chunk of it once, one after the other: the
/// chunk with number `i` holds the bytes of the file from `1435 * i` on, 1435 of them or all that
/// are left, and goes under the transfer's identifier.
pub proof fn whole_file_is_sent(
    id: Identifier,
    file: Seq<u8>,
    states: Seq<TransmissionView>,
    reads: Seq<Seq<u8>>,
    packets: Seq<Seq<u8>>,
)
    requires
        file.len() <= u64::MAX,
        sends(id, file, states, reads, packets),
    ensures
        states.last().next_offset() is None <==> packets.len() * 1435 >= file.len(),
        forall|i: int|
            0 <= i < packets.len() ==> 1435 * i < file.len() && parse_client_datagram(
                #[trigger] packets[i],
            ) == Ok::<ClientContent, DecodeError>(
                ClientContent::Data { id, offset: (1435 * i) as u64, content: chunk_of(file, i) },
            ),
{
    lemma_all_sent(id, file, states, reads, packets);
    assert forall|i: int| 0 <= i < packets.len() implies 1435 * i < file.len()
        && parse_client_datagram(#[trigger] packets[i]) == Ok::<ClientContent, DecodeError>(
        ClientContent::Data { id, offset: (1435 * i) as u64, content: chunk_of(file, i) },
    ) by {
        lemma_sent(id, file, states, reads, packets, i);
        reveal(carries);
    }
}

/// Every datagram brings a client that sends a file closer to its end.
pub proof fn sending_goes_on(
    before: TransmissionView,
    content: Seq<u8>,
    after: TransmissionView,
    packet: Seq<u8>,
)
    requires
        before.next_offset() is Some,
        packet_made(before, content, after, packet),
    ensures
        after.offset > before.offset,
        after.id == before.id,
        after.size == before.size,
        content.len() == 0 ==> after.next_offset() is None,
{
}

/// A file after `content` was written at `offset`.
pub open spec fn overwritten(file: Seq<u8>, offset: int, content: Seq<u8>) -> Seq<u8> {
    Seq::new(
        file.len(),
        |x: int|
            if offset <= x < offset + content.len() {
                content[x - offset]
            } else {
                file[x]
            },
    )
}

/// Whether two files are the same in some of their chunks.
pub open spec fn same_in(copy: Seq<u8>, file: Seq<u8>, chunks: Set<int>) -> bool {
    &&& copy.len() == file.len()
    &&& forall|x: int|
        0 <= x < file.len() && chunks.contains(x / CHUNK_SIZE as int) ==> #[trigger] copy[x]
            == file[x]
}

/// Writing the chunks of a file at their offsets, in any order, makes a copy of the file.
pub proof fn chunks_rebuild_the_file(copy: Seq<u8>, file: Seq<u8>, chunks: Set<int>, k: int)
    requires
        file.len() <= u64::MAX,
        0 <= k < chunk_count(file.len() as u64),
        same_in(copy, file, chunks),
    ensures
        ({
            let size = file.len() as u64;
            let start = chunk_start(k);
            let after = overwritten(
                copy,
                start,
                file.subrange(start, start + chunk_len(k, size)),
            );
            &&& same_in(after, file, chunks.insert(k))
            &&& all_chunks(chunks.insert(k), size) ==> after == file
        }),
{
    let size = file.len() as u64;
    let start = chunk_start(k);
    lemma_chunk(k, size);
    let after = overwritten(copy, start, file.subrange(start, start + chunk_len(k, size)));
    assert forall|x: int|
        0 <= x < file.len() && chunks.insert(k).contains(
            x / CHUNK_SIZE as int,
        ) implies #[trigger] after[x] == file[x] by {
        let q = x / CHUNK_SIZE as int;
        if chunks.contains(q) {
            assert(copy[x] == file[x]);
        }
    }
    if all_chunks(chunks.insert(k), size) {
        assert forall|x: int| 0 <= x < file.len() implies after[x] == file[x] by {
            lemma_chunk_of(x, size);
            assert(chunks.insert(k).contains(x / CHUNK_SIZE as int));
        }
        assert(after =~= file);
    }
}

} // verus!
