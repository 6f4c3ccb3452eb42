//! Which chunks of a file a server asks for again.

use crate::protocol::laws::lemma_offsets_bytes;
use crate::protocol::server_message::{server_bytes, ServerContent};
use crate::protocol::{Identifier, CHUNK_SIZE, DATAGRAM_SIZE_LIMIT};
use crate::ranges::{covered, separated, spans, ReceivedRanges};
use vstd::prelude::*;

verus! {

/// How many offsets fit into one message: what a tag and an identifier leave of
/// `DATAGRAM_SIZE_LIMIT`, at eight bytes each.
pub const MAX_OFFSETS: usize = (DATAGRAM_SIZE_LIMIT - 1 - 8) / 8;

/// How many chunks there are from `start` on until one reaches `limit`; there is always one.
pub open spec fn gap_count(start: int, limit: int) -> nat {
    if limit - start <= CHUNK_SIZE {
        1
    } else {
        ((limit - start + CHUNK_SIZE - 1) / CHUNK_SIZE as int) as nat
    }
}

/// The offset of the chunk with number `k` from `start` on.
pub open spec fn gap_offset(start: int, k: int) -> u64 {
    (start + k * CHUNK_SIZE) as u64
}

/// The offsets of the chunks from `start` on until one reaches `limit`.
pub open spec fn gap_offsets(start: int, limit: int) -> Seq<u64> {
    Seq::new(gap_count(start, limit), |k: int| gap_offset(start, k))
}

/// The offsets of the chunks in front of the first span.
pub open spec fn head_offsets(spans: Seq<(u64, u64)>) -> Seq<u64> {
    if spans.len() > 0 && spans[0].0 > 0 {
        gap_offsets(0, spans[0].0 as int)
    } else {
        seq![]
    }
}

/// The offsets of the chunks between one span and the next.
pub open spec fn inner_offsets(spans: Seq<(u64, u64)>) -> Seq<u64>
    decreases spans.len(),
{
    if spans.len() < 2 {
        seq![]
    } else {
        inner_offsets(spans.drop_last()) + gap_offsets(
            spans[spans.len() - 2].1 + 1,
            spans.last().0 as int,
        )
    }
}

/// The first position behind the last span.
pub open spec fn resume_at(spans: Seq<(u64, u64)>) -> int {
    if spans.len() > 0 {
        spans.last().1 + 1
    } else {
        0
    }
}

/// The offsets of the chunks behind the last span of a file of `size` bytes.
pub open spec fn tail_offsets(spans: Seq<(u64, u64)>, size: u64) -> Seq<u64> {
    if resume_at(spans) < size {
        gap_offsets(resume_at(spans), size as int)
    } else {
        seq![]
    }
}

/// The offsets of the chunks that are missing of a file of `size` bytes.
pub open spec fn missing_offsets(spans: Seq<(u64, u64)>, size: u64) -> Seq<u64> {
    head_offsets(spans) + inner_offsets(spans) + tail_offsets(spans, size)
}

/// The front of a list, as much of it as fits into one message.
pub open spec fn capped(offsets: Seq<u64>) -> Seq<u64> {
    if offsets.len() <= MAX_OFFSETS {
        offsets
    } else {
        offsets.take(MAX_OFFSETS as int)
    }
}

/// The offsets that a server asks for.
pub open spec fn requested_offsets(spans: Seq<(u64, u64)>, size: u64) -> Seq<u64> {
    capped(missing_offsets(spans, size))
}

proof fn lemma_capped_add(a: Seq<u64>, b: Seq<u64>)
    ensures
        capped(capped(a) + b) == capped(a + b),
{
    assert(capped(capped(a) + b) =~= capped(a + b));
}

proof fn lemma_gap_count(start: int, limit: int, k: int)
    requires
        k >= 0,
    ensures
        k == 0 ==> k < gap_count(start, limit),
        k > 0 ==> (k < gap_count(start, limit) <==> start + k * CHUNK_SIZE < limit),
{
    let d = limit - start;
    let c = CHUNK_SIZE as int;
    if d > c {
        let n = (d + c - 1) / c;
        assert(c * n <= d + c - 1 < c * n + c) by (nonlinear_arith)
            requires
                n == (d + c - 1) / c,
                c > 0,
        ;
        assert(k < n <==> k * c < d) by (nonlinear_arith)
            requires
                c * n <= d + c - 1 < c * n + c,
                c > 0,
        ;
        assert(n >= 1) by (nonlinear_arith)
            requires
                d + c - 1 < c * n + c,
                d > c,
                c > 0,
        ;
    } else if k > 0 {
        assert(k * c >= c) by (nonlinear_arith)
            requires
                k > 0,
                c > 0,
        ;
    }
}

/// Appends the offsets of the chunks from `start` on until one reaches `limit`, as far as there
/// is room for them.
fn add_until(offsets: &mut Vec<u64>, start: u64, limit: u64)
    requires
        start <= limit,
        old(offsets)@.len() <= MAX_OFFSETS,
    ensures
        final(offsets)@.len() <= MAX_OFFSETS,
        final(offsets)@ == capped(old(offsets)@ + gap_offsets(start as int, limit as int)),
{
    let ghost before = old(offsets)@;
    let ghost gap = gap_offsets(start as int, limit as int);
    if offsets.len() >= MAX_OFFSETS {
        assert(capped(before + gap) =~= before);
        return ;
    }
    let mut offset: u64 = start;
    let mut k: usize = 0;
    proof {
        lemma_gap_count(start as int, limit as int, 0);
    }
    assert(offsets@ =~= before + gap.take(0));
    while offsets.len() < MAX_OFFSETS
        invariant_except_break
            k < gap.len(),
            k <= MAX_OFFSETS,
            start <= limit,
            start <= offset <= limit,
            offset == start + k * CHUNK_SIZE,
            gap == gap_offsets(start as int, limit as int),
            offsets@ == before + gap.take(k as int),
            offsets@.len() <= MAX_OFFSETS,
        ensures
            offsets@ == capped(before + gap),
        decreases MAX_OFFSETS - offsets.len(),
    {
        offsets.push(offset);
        k += 1;
        assert(gap.take(k as int) =~= gap.take(k - 1).push(gap[k - 1]));
        assert(offsets@ =~= before + gap.take(k as int));
        proof {
            lemma_gap_count(start as int, limit as int, k as int);
            assert(k * CHUNK_SIZE == (k - 1) * CHUNK_SIZE + CHUNK_SIZE) by (nonlinear_arith);
        }
        if CHUNK_SIZE < limit - offset {
            offset = offset + CHUNK_SIZE;
        } else {
            assert(gap.take(k as int) =~= gap);
            break ;
        }
    }
}

/// The offsets that a server asks for again of a file of `size` bytes, of which some have been
/// received.
pub fn repeat_offsets(received: &ReceivedRanges, size: u64) -> (offsets: Vec<u64>)
    ensures
        offsets@ == requested_offsets(spans(*received), size),
{
    let ghost all = spans(*received);
    let ghost head = head_offsets(all);
    let ranges = received.ranges();
    let mut offsets: Vec<u64> = Vec::with_capacity(MAX_OFFSETS);
    if let Some(min) = received.min() {
        if min > 0 {
            add_until(&mut offsets, 0, min);
            assert(Seq::<u64>::empty() + head =~= head);
        }
    }
    assert(offsets@ == capped(head));
    add_inner(&mut offsets, &ranges, Ghost(head));
    let ghost front = head + inner_offsets(all);
    proof {
        lemma_capped_add(front, tail_offsets(all, size));
        assert(capped(front) + Seq::<u64>::empty() =~= capped(front));
    }
    match received.max() {
        Some(max) => {
            if size > 0 && max < size - 1 {
                add_until(&mut offsets, max + 1, size);
            }
        },
        None => {
            if size > 0 {
                add_until(&mut offsets, 0, size);
            }
        },
    }
    offsets
}

/// Appends the offsets of the chunks between one span and the next, as far as there is room for
/// them.
fn add_inner(offsets: &mut Vec<u64>, ranges: &Vec<(u64, u64)>, Ghost(head): Ghost<Seq<u64>>)
    requires
        separated(ranges@),
        old(offsets)@.len() <= MAX_OFFSETS,
        old(offsets)@ == capped(head),
    ensures
        final(offsets)@.len() <= MAX_OFFSETS,
        final(offsets)@ == capped(head + inner_offsets(ranges@)),
{
    let ghost all = ranges@;
    assert(head + Seq::<u64>::empty() =~= head);
    if ranges.len() == 0 {
        return ;
    }
    let mut i: usize = 1;
    assert(inner_offsets(all.take(1)) =~= seq![]);
    while i < ranges.len()
        invariant
            1 <= i <= all.len(),
            ranges@ == all,
            separated(all),
            offsets@.len() <= MAX_OFFSETS,
            offsets@ == capped(head + inner_offsets(all.take(i as int))),
        decreases ranges.len() - i,
    {
        let (_, end) = ranges[i - 1];
        let (next, _) = ranges[i];
        assert(all[i - 1].1 + 1 < all[i as int].0);
        let ghost done = head + inner_offsets(all.take(i as int));
        add_until(offsets, end + 1, next);
        i += 1;
        proof {
            let gap = gap_offsets(end + 1, next as int);
            lemma_capped_add(done, gap);
            assert(all.take(i as int).drop_last() =~= all.take(i - 1));
            assert(done + gap =~= head + inner_offsets(all.take(i as int)));
        }
    }
    assert(all.take(all.len() as int) =~= all);
}

/// Whether a position of a file of `size` bytes is missing.
pub open spec fn is_missing(spans: Seq<(u64, u64)>, size: u64, x: u64) -> bool {
    x < size && !covered(spans).contains(x)
}

/// Whether everything that is received lies in a file of `size` bytes.
pub open spec fn within(spans: Seq<(u64, u64)>, size: u64) -> bool {
    forall|i: int| 0 <= i < spans.len() ==> (#[trigger] spans[i]).1 < size
}

/// Whether a list is in ascending order, without repetitions.
pub open spec fn ascending(offsets: Seq<u64>) -> bool {
    forall|i: int, j: int| 0 <= i < j < offsets.len() ==> offsets[i] < offsets[j]
}

/// Whether a position lies in the chunk at one of the offsets.
pub open spec fn in_chunk_of(offsets: Seq<u64>, x: u64) -> bool {
    exists|i: int| 0 <= i < offsets.len() && #[trigger] offsets[i] <= x < offsets[i] + CHUNK_SIZE
}

pub(crate) proof fn lemma_gap_value(start: int, limit: int, i: int)
    requires
        0 <= start <= limit <= u64::MAX,
        0 <= i < gap_offsets(start, limit).len(),
    ensures
        gap_offsets(start, limit)[i] == start + i * CHUNK_SIZE,
{
    let c = CHUNK_SIZE as int;
    lemma_gap_count(start, limit, i);
    assert(i * c >= 0) by (nonlinear_arith)
        requires
            i >= 0,
            c > 0,
    ;
}

proof fn lemma_gap(start: int, limit: int)
    requires
        0 <= start <= limit <= u64::MAX,
    ensures
        gap_offsets(start, limit).len() > 0,
        gap_offsets(start, limit)[0] == start,
        ascending(gap_offsets(start, limit)),
        forall|i: int|
            0 <= i < gap_offsets(start, limit).len() ==> {
                let o = #[trigger] gap_offsets(start, limit)[i];
                start <= o && (o < limit || o == start)
            },
        forall|x: u64| start <= x < limit ==> in_chunk_of(gap_offsets(start, limit), x),
{
    let g = gap_offsets(start, limit);
    let c = CHUNK_SIZE as int;
    lemma_gap_count(start, limit, 0);
    assert forall|i: int| 0 <= i < g.len() implies ({
        let o = #[trigger] g[i];
        o == start + i * c && start <= o && (o < limit || o == start)
    }) by {
        lemma_gap_count(start, limit, i);
        lemma_gap_value(start, limit, i);
        assert(i * c >= 0) by (nonlinear_arith)
            requires
                i >= 0,
                c > 0,
        ;
    }
    assert forall|i: int, j: int| 0 <= i < j < g.len() implies g[i] < g[j] by {
        assert(g[i] == start + i * c);
        assert(g[j] == start + j * c);
        assert(i * c < j * c) by (nonlinear_arith)
            requires
                i < j,
                c > 0,
        ;
    }
    assert forall|x: u64| start <= x < limit implies in_chunk_of(g, x) by {
        let k = (x - start) / c;
        assert(c * k <= x - start < c * k + c) by (nonlinear_arith)
            requires
                k == (x - start) / c,
                c > 0,
        ;
        assert(k >= 0) by (nonlinear_arith)
            requires
                x - start < c * k + c,
                x >= start,
                c > 0,
        ;
        assert(k * c == c * k) by (nonlinear_arith);
        lemma_gap_count(start, limit, k);
        assert(g[k] == start + k * c);
    }
}

proof fn lemma_in_chunk_of_parts(a: Seq<u64>, b: Seq<u64>, x: u64)
    requires
        in_chunk_of(a, x) || in_chunk_of(b, x),
    ensures
        in_chunk_of(a + b, x),
{
    if in_chunk_of(a, x) {
        let i = choose|i: int| 0 <= i < a.len() && #[trigger] a[i] <= x < a[i] + CHUNK_SIZE;
        assert((a + b)[i] == a[i]);
    } else {
        let i = choose|i: int| 0 <= i < b.len() && #[trigger] b[i] <= x < b[i] + CHUNK_SIZE;
        assert((a + b)[a.len() + i] == b[i]);
    }
}

proof fn lemma_ascending_parts(a: Seq<u64>, b: Seq<u64>)
    requires
        ascending(a),
        ascending(b),
        forall|i: int, j: int| 0 <= i < a.len() && 0 <= j < b.len() ==> a[i] < b[j],
    ensures
        ascending(a + b),
{
}

/// Whether a position lies between two spans.
pub(crate) open spec fn in_gap(spans: Seq<(u64, u64)>, x: u64) -> bool {
    exists|i: int| 0 < i < spans.len() && spans[i - 1].1 < x < (#[trigger] spans[i]).0
}

#[verifier::rlimit(30)]
proof fn lemma_inner(spans: Seq<(u64, u64)>)
    requires
        separated(spans),
    ensures
        ascending(inner_offsets(spans)),
        forall|k: int|
            0 <= k < inner_offsets(spans).len() ==> {
                &&& in_gap(spans, #[trigger] inner_offsets(spans)[k])
                &&& spans.first().1 < inner_offsets(spans)[k] < spans.last().0
            },
        spans.len() >= 2 ==> inner_offsets(spans).len() > 0 && inner_offsets(spans)[0]
            == spans[0].1 + 1,
        forall|x: u64| in_gap(spans, x) ==> in_chunk_of(inner_offsets(spans), x),
    decreases spans.len(),
{
    let all = inner_offsets(spans);
    if spans.len() >= 2 {
        let init = spans.drop_last();
        let n = spans.len() as int;
        lemma_inner(init);
        let a = inner_offsets(init);
        let start = spans[n - 2].1 + 1;
        let limit = spans[n - 1].0 as int;
        assert(spans[n - 2].1 + 1 < spans[n - 1].0);
        lemma_gap(start, limit);
        let b = gap_offsets(start, limit);
        assert(all == a + b);
        assert forall|k: int| 0 <= k < all.len() implies in_gap(spans, #[trigger] all[k])
            && spans.first().1 < all[k] < spans.last().0 by {
            if k < a.len() {
                assert(a[k] == all[k]);
                let i = choose|i: int|
                    0 < i < init.len() && init[i - 1].1 < a[k] < (#[trigger] init[i]).0;
                assert(spans[i - 1].1 < all[k] < spans[i].0);
                assert(init.last() == spans[n - 2]);
                assert(spans[n - 2].0 <= spans[n - 2].1);
            } else {
                assert(b[k - a.len()] == all[k]);
                assert(spans[n - 2].1 < all[k] < spans[n - 1].0);
                if n > 2 {
                    assert(spans[0].1 + 1 < spans[n - 2].0 <= spans[n - 2].1);
                }
            }
        }
        assert forall|i: int, j: int| 0 <= i < a.len() && 0 <= j < b.len() implies a[i] < b[j] by {
            assert(a[i] < init.last().0 <= init.last().1);
        }
        lemma_ascending_parts(a, b);
        assert forall|x: u64| in_gap(spans, x) implies in_chunk_of(all, x) by {
            let i = choose|i: int|
                0 < i < spans.len() && spans[i - 1].1 < x < (#[trigger] spans[i]).0;
            if i < n - 1 {
                assert(init[i - 1].1 < x < init[i].0);
                assert(in_gap(init, x));
            } else {
                assert(start <= x < limit);
                assert(in_chunk_of(b, x));
            }
            lemma_in_chunk_of_parts(a, b, x);
        }
        if n > 2 {
            assert(all[0] == a[0]);
        } else {
            assert(a.len() == 0);
            assert(all[0] == b[0]);
        }
    }
}

/// A missing position lies in front of the first span, between two, or behind the last.
proof fn lemma_where_missing(spans: Seq<(u64, u64)>, x: u64)
    requires
        separated(spans),
        !covered(spans).contains(x),
        spans.len() > 0,
    ensures
        x < spans[0].0 || in_gap(spans, x) || x > spans.last().1,
    decreases spans.len(),
{
    let n = spans.len() as int;
    assert(!(spans[n - 1].0 <= x <= spans[n - 1].1));
    if x < spans[n - 1].0 && n > 1 {
        let init = spans.drop_last();
        assert forall|i: int| 0 <= i < init.len() implies !((#[trigger] init[i]).0 <= x
            <= init[i].1) by {
            assert(init[i] == spans[i]);
        }
        lemma_where_missing(init, x);
        if in_gap(init, x) {
            let i = choose|i: int|
                0 < i < init.len() && init[i - 1].1 < x < (#[trigger] init[i]).0;
            assert(spans[i - 1].1 < x < spans[i].0);
        } else if x > init.last().1 {
            assert(spans[n - 2].1 < x < spans[n - 1].0);
        }
    }
}

pub(crate) proof fn lemma_gap_not_covered(spans: Seq<(u64, u64)>, x: u64)
    requires
        separated(spans),
        in_gap(spans, x),
    ensures
        !covered(spans).contains(x),
{
    let i = choose|i: int| 0 < i < spans.len() && spans[i - 1].1 < x < (#[trigger] spans[i]).0;
    assert forall|j: int| 0 <= j < spans.len() implies !((#[trigger] spans[j]).0 <= x
        <= spans[j].1) by {
        if j < i - 1 {
            assert(spans[j].1 + 1 < spans[i - 1].0);
            assert(spans[i - 1].0 <= spans[i - 1].1);
        } else if j > i {
            assert(spans[i].1 + 1 < spans[j].0);
        }
    }
}

pub(crate) proof fn lemma_outside_not_covered(spans: Seq<(u64, u64)>, x: u64)
    requires
        separated(spans),
        spans.len() > 0,
        x < spans[0].0 || x > spans.last().1,
    ensures
        !covered(spans).contains(x),
{
    assert forall|j: int| 0 <= j < spans.len() implies !((#[trigger] spans[j]).0 <= x
        <= spans[j].1) by {
        let n = spans.len() as int;
        if j > 0 {
            assert(spans[0].1 + 1 < spans[j].0);
        }
        if j < n - 1 {
            assert(spans[j].1 + 1 < spans[n - 1].0);
        }
    }
}

/// Everything that is missing is listed, in order, and nothing else is of a file behind whose end
/// nothing was received.
proof fn lemma_missing_offsets(spans: Seq<(u64, u64)>, size: u64)
    requires
        separated(spans),
    ensures
        ascending(missing_offsets(spans, size)),
        within(spans, size) ==> forall|k: int|
            0 <= k < missing_offsets(spans, size).len() ==> is_missing(
                spans,
                size,
                #[trigger] missing_offsets(spans, size)[k],
            ),
        forall|x: u64|
            #![trigger in_chunk_of(missing_offsets(spans, size), x)]
            is_missing(spans, size, x) ==> in_chunk_of(missing_offsets(spans, size), x),
        forall|x: u64|
            #![trigger is_missing(spans, size, x)]
            is_missing(spans, size, x) ==> {
                &&& missing_offsets(spans, size).len() > 0
                &&& missing_offsets(spans, size)[0] <= x
                &&& !covered(spans).contains(missing_offsets(spans, size)[0])
            },
{
    let h = head_offsets(spans);
    let m = inner_offsets(spans);
    let t = tail_offsets(spans, size);
    let all = missing_offsets(spans, size);
    let n = spans.len() as int;
    if n > 0 && spans[0].0 > 0 {
        lemma_gap(0, spans[0].0 as int);
    }
    lemma_inner(spans);
    let resume = resume_at(spans);
    if resume < size {
        lemma_gap(resume, size as int);
    }
    if n > 0 {
        if n > 1 {
            assert(spans[0].1 + 1 < spans[n - 1].0);
        }
        assert(spans[0].0 <= spans[0].1);
        assert(spans[n - 1].0 <= spans[n - 1].1);
    }
    assert forall|k: int| 0 <= k < all.len() implies !covered(spans).contains(
        #[trigger] all[k],
    ) && (within(spans, size) ==> all[k] < size) by {
        if n > 0 && within(spans, size) {
            assert(spans[n - 1].1 < size);
        }
        if k < h.len() {
            assert(all[k] == h[k]);
            lemma_outside_not_covered(spans, all[k]);
        } else if k < h.len() + m.len() {
            assert(all[k] == m[k - h.len()]);
            lemma_gap_not_covered(spans, all[k]);
        } else {
            assert(all[k] == t[k - h.len() - m.len()]);
            if n > 0 {
                lemma_outside_not_covered(spans, all[k]);
            }
        }
    }
    assert forall|i: int, j: int| 0 <= i < j < all.len() implies all[i] < all[j] by {
        let a = h.len() as int;
        let b = h.len() + m.len();
        if i < a {
            assert(all[i] == h[i]);
        } else if i < b {
            assert(all[i] == m[i - a]);
        } else {
            assert(all[i] == t[i - b]);
        }
        if j < a {
            assert(all[j] == h[j]);
        } else if j < b {
            assert(all[j] == m[j - a]);
        } else {
            assert(all[j] == t[j - b]);
        }
    }
    assert forall|x: u64|
        #![trigger in_chunk_of(all, x)]
        is_missing(spans, size, x) implies in_chunk_of(all, x) by {
        if n > 0 {
            lemma_where_missing(spans, x);
        }
        if n > 0 && x < spans[0].0 {
            assert(in_chunk_of(h, x));
            lemma_in_chunk_of_parts(h, m, x);
        } else if n > 0 && in_gap(spans, x) {
            lemma_in_chunk_of_parts(h, m, x);
        } else {
            assert(in_chunk_of(t, x));
        }
        lemma_in_chunk_of_parts(h + m, t, x);
    }
    assert forall|x: u64| #![trigger is_missing(spans, size, x)] is_missing(
        spans,
        size,
        x,
    ) implies all.len() > 0 && all[0] <= x && !covered(spans).contains(all[0]) by {
        if n > 0 {
            lemma_where_missing(spans, x);
            if spans[0].0 > 0 {
                assert(all[0] == h[0]);
            } else if n > 1 {
                assert(all[0] == m[0]);
                if in_gap(spans, x) {
                    let i = choose|i: int|
                        0 < i < spans.len() && spans[i - 1].1 < x < (#[trigger] spans[i]).0;
                    if i > 1 {
                        assert(spans[0].1 + 1 < spans[i - 1].0 <= spans[i - 1].1);
                    }
                }
            } else {
                assert(m.len() == 0);
                assert(!in_gap(spans, x));
                assert(all[0] == t[0]);
            }
        } else {
            assert(all[0] == t[0]);
        }
    }
}

/// A server behind the end of whose file nothing was received asks only for what is missing, in
/// ascending order and never twice for the same.
pub proof fn only_missing_chunks_are_requested(spans: Seq<(u64, u64)>, size: u64)
    requires
        separated(spans),
        within(spans, size),
    ensures
        ascending(requested_offsets(spans, size)),
        forall|k: int|
            0 <= k < requested_offsets(spans, size).len() ==> is_missing(
                spans,
                size,
                #[trigger] requested_offsets(spans, size)[k],
            ),
{
    lemma_missing_offsets(spans, size);
    let all = missing_offsets(spans, size);
    let r = requested_offsets(spans, size);
    assert forall|k: int| 0 <= k < r.len() implies is_missing(spans, size, #[trigger] r[k]) by {
        assert(r[k] == all[k]);
    }
}

/// As long as anything is missing a server asks for something, and first for the first byte that
/// is missing.
pub proof fn first_missing_byte_is_requested(spans: Seq<(u64, u64)>, size: u64, x: u64)
    requires
        separated(spans),
        is_missing(spans, size, x),
    ensures
        requested_offsets(spans, size).len() > 0,
        is_missing(spans, size, requested_offsets(spans, size)[0]),
        requested_offsets(spans, size)[0] <= x,
{
    lemma_missing_offsets(spans, size);
    assert(requested_offsets(spans, size)[0] == missing_offsets(spans, size)[0]);
}

/// Nothing is asked for once nothing is missing.
pub proof fn nothing_is_requested_of_a_whole_file(spans: Seq<(u64, u64)>, size: u64)
    requires
        separated(spans),
        within(spans, size),
        forall|x: u64| !is_missing(spans, size, x),
    ensures
        requested_offsets(spans, size).len() == 0,
{
    lemma_missing_offsets(spans, size);
    if missing_offsets(spans, size).len() > 0 {
        assert(is_missing(spans, size, missing_offsets(spans, size)[0]));
    }
}

/// A request that is not cut short reaches every missing byte.
pub proof fn request_reaches_what_is_missing(spans: Seq<(u64, u64)>, size: u64, x: u64)
    requires
        separated(spans),
        is_missing(spans, size, x),
        missing_offsets(spans, size).len() <= MAX_OFFSETS,
    ensures
        in_chunk_of(requested_offsets(spans, size), x),
{
    lemma_missing_offsets(spans, size);
    assert(in_chunk_of(missing_offsets(spans, size), x));
}

/// A request is never longer than a message may be.
pub proof fn request_fits_into_a_message(id: Identifier, spans: Seq<(u64, u64)>, size: u64)
    ensures
        server_bytes(
            ServerContent::Repeat { id, offsets: requested_offsets(spans, size) },
        ).len() <= DATAGRAM_SIZE_LIMIT,
{
    lemma_offsets_bytes(requested_offsets(spans, size));
}

/// A server names every byte that it is missing, in the 1435 bytes from one of the offsets that it
/// asks for on, up to the 180th of them; it leaves none out in between.
pub proof fn requests_skip_nothing(spans: Seq<(u64, u64)>, size: u64, x: u64)
    requires
        separated(spans),
        x < size,
        !covered(spans).contains(x),
    ensures
        ({
            let offsets = requested_offsets(spans, size);
            ||| exists|i: int|
                0 <= i < offsets.len() && #[trigger] offsets[i] <= x < offsets[i] + 1435
            ||| offsets.len() == 180 && offsets[179] < x
        }),
        requested_offsets(spans, size).len() <= 180,
        ascending(requested_offsets(spans, size)),
{
    lemma_missing_offsets(spans, size);
    let all = missing_offsets(spans, size);
    let offsets = requested_offsets(spans, size);
    assert(is_missing(spans, size, x));
    assert(in_chunk_of(all, x));
    let i = choose|i: int| 0 <= i < all.len() && #[trigger] all[i] <= x < all[i] + CHUNK_SIZE;
    if i < offsets.len() {
        assert(offsets[i] == all[i]);
    } else {
        assert(offsets[179] == all[179]);
    }
    assert forall|j: int, k: int| 0 <= j < k < offsets.len() implies offsets[j] < offsets[k] by {
        assert(offsets[j] == all[j] && offsets[k] == all[k]);
    }
}

} // verus!
