//! Properties that hold across several operations of a buffer.
use crate::buffer::BufferModel;
use crate::ext::RwBufferExt;
use crate::codec::{
    be_bytes, be_value, lemma_be_bytes_len, lemma_be_round_trip, lemma_pow256_16, pow256,
};
use vstd::prelude::*;

verus! {

/// The sum of a sequence of byte counts.
pub open spec fn total(counts: Seq<nat>) -> nat
    decreases counts.len(),
{
    if counts.len() == 0 {
        0
    } else {
        counts[0] + total(counts.drop_first())
    }
}

/// The readable bytes after appending each of `chunks`, in order, to readable bytes `start`.
pub open spec fn after_appends(start: Seq<u8>, chunks: Seq<Seq<u8>>) -> Seq<u8>
    decreases chunks.len(),
{
    if chunks.len() == 0 {
        start
    } else {
        after_appends(start + chunks[0], chunks.drop_first())
    }
}

/// The runs of bytes handed out by consuming each of `counts`, in order, from readable bytes
/// `readable`.
pub open spec fn consumed_runs(readable: Seq<u8>, counts: Seq<nat>) -> Seq<Seq<u8>>
    decreases counts.len(),
{
    if counts.len() == 0 {
        Seq::empty()
    } else {
        seq![readable.take(counts[0] as int)] + consumed_runs(
            readable.skip(counts[0] as int),
            counts.drop_first(),
        )
    }
}

proof fn lemma_after_appends(start: Seq<u8>, chunks: Seq<Seq<u8>>)
    ensures
        after_appends(start, chunks) == start + chunks.flatten(),
    decreases chunks.len(),
{
    if chunks.len() > 0 {
        lemma_after_appends(start + chunks[0], chunks.drop_first());
        assert(start + chunks[0] + chunks.drop_first().flatten() =~= start + chunks.flatten());
    }
}

proof fn lemma_consumed_runs(readable: Seq<u8>, counts: Seq<nat>)
    requires
        total(counts) <= readable.len(),
    ensures
        consumed_runs(readable, counts).flatten() == readable.take(total(counts) as int),
    decreases counts.len(),
{
    if counts.len() > 0 {
        let c = counts[0] as int;
        let rest = readable.skip(c);
        lemma_consumed_runs(rest, counts.drop_first());
        let runs = consumed_runs(readable, counts);
        assert(runs.drop_first() =~= consumed_runs(rest, counts.drop_first()));
        assert(runs.first() == readable.take(c));
        assert(readable.take(c) + rest.take(total(counts.drop_first()) as int) =~= readable.take(
            total(counts) as int,
        ));
    } else {
        assert(readable.take(0) =~= Seq::<u8>::empty());
    }
}

/// Appending chunks to an empty buffer and then consuming runs whose lengths add up to the total
/// appended hands back exactly the appended bytes, in order, with none lost.
pub proof fn law_consume_returns_appended(chunks: Seq<Seq<u8>>, counts: Seq<nat>)
    requires
        total(counts) == chunks.flatten().len(),
    ensures
        consumed_runs(after_appends(Seq::empty(), chunks), counts).flatten() == chunks.flatten(),
{
    lemma_after_appends(Seq::empty(), chunks);
    let all = after_appends(Seq::empty(), chunks);
    assert(all =~= chunks.flatten());
    lemma_consumed_runs(all, counts);
    assert(all.take(total(counts) as int) =~= all);
}

proof fn lemma_total_push(counts: Seq<nat>, c: nat)
    ensures
        total(counts.push(c)) == total(counts) + c,
    decreases counts.len(),
{
    if counts.len() > 0 {
        assert(counts.push(c).drop_first() =~= counts.drop_first().push(c));
        assert(counts.push(c)[0] == counts[0]);
        lemma_total_push(counts.drop_first(), c);
    } else {
        assert(counts.push(c).drop_first() =~= Seq::<nat>::empty());
        assert(counts.push(c)[0] == c);
        assert(total(Seq::<nat>::empty()) == 0);
    }
}

proof fn lemma_total_prefix(counts: Seq<nat>, j: int)
    requires
        0 <= j <= counts.len(),
    ensures
        total(counts.take(j)) <= total(counts),
    decreases counts.len() - j,
{
    if j < counts.len() {
        lemma_total_prefix(counts, j + 1);
        assert(counts.take(j + 1) =~= counts.take(j).push(counts[j]));
        lemma_total_push(counts.take(j), counts[j]);
    } else {
        assert(counts.take(j) =~= counts);
    }
}

/// The readable bytes of `states[i]` are the first `i` chunks, when each step appends one chunk
/// to an empty start.
proof fn lemma_append_steps<B: RwBufferExt>(states: Seq<B>, chunks: Seq<Seq<u8>>, i: int)
    requires
        0 <= i <= chunks.len() < states.len(),
        states[0].readable().len() == 0,
        forall|k: int|
            0 <= k < chunks.len() ==> #[trigger] states[k + 1].readable() == states[k].readable()
                + chunks[k],
    ensures
        states[i].readable() == chunks.take(i).flatten(),
    decreases i,
{
    if i == 0 {
        assert(states[0].readable() =~= chunks.take(0).flatten());
    } else {
        lemma_append_steps(states, chunks, i - 1);
        assert(chunks.take(i) =~= chunks.take(i - 1).push(chunks[i - 1]));
        chunks.take(i - 1).lemma_flatten_push(chunks[i - 1]);
    }
}

/// After `j` consume steps from readable bytes `all`, every step so far succeeded, the runs handed
/// out are the front of `all`, and the rest of `all` is readable.
proof fn lemma_consume_steps<B: RwBufferExt>(
    states: Seq<B>,
    start: int,
    all: Seq<u8>,
    counts: Seq<nat>,
    runs: Seq<Seq<u8>>,
    j: int,
)
    requires
        0 <= j <= counts.len(),
        0 <= start,
        start + counts.len() < states.len(),
        runs.len() == counts.len(),
        states[start].readable() == all,
        total(counts) == all.len(),
        forall|k: int|
            0 <= k < counts.len() ==> (counts[k] <= states[start + k].readable().len() ==> {
                &&& #[trigger] runs[k] == states[start + k].readable().take(counts[k] as int)
                &&& states[start + k + 1].readable() == states[start + k].readable().skip(
                    counts[k] as int,
                )
            }),
    ensures
        total(counts.take(j)) <= all.len(),
        states[start + j].readable() == all.skip(total(counts.take(j)) as int),
        runs.take(j).flatten() == all.take(total(counts.take(j)) as int),
        forall|k: int| 0 <= k < j ==> counts[k] <= #[trigger] states[start + k].readable().len(),
    decreases j,
{
    lemma_total_prefix(counts, j);
    if j == 0 {
        assert(counts.take(0) =~= Seq::<nat>::empty());
        assert(all.skip(0) =~= all);
        assert(runs.take(0).flatten() =~= all.take(0));
    } else {
        lemma_consume_steps(states, start, all, counts, runs, j - 1);
        let p = total(counts.take(j - 1));
        assert(counts.take(j) =~= counts.take(j - 1).push(counts[j - 1]));
        lemma_total_push(counts.take(j - 1), counts[j - 1]);
        let cur = states[start + j - 1].readable();
        assert(counts[j - 1] <= cur.len());
        assert(runs[j - 1] == cur.take(counts[j - 1] as int));
        assert(states[start + j].readable() =~= all.skip(total(counts.take(j)) as int));
        assert(runs.take(j) =~= runs.take(j - 1).push(runs[j - 1]));
        runs.take(j - 1).lemma_flatten_push(runs[j - 1]);
        assert(runs.take(j).flatten() =~= all.take(total(counts.take(j)) as int));
    }
}

/// Call by call: on a buffer with nothing readable, appending `chunks` one after another and then
/// consuming `counts` bytes one run after another, with the counts adding up to the bytes
/// appended, every consume succeeds, the runs handed out are the appended bytes in order, and
/// nothing is left readable. Each step from `states[i]` to `states[i + 1]` is related as
/// `put_slice` and `copy_to_slice` state it.
pub proof fn law_append_consume_steps<B: RwBufferExt>(
    states: Seq<B>,
    chunks: Seq<Seq<u8>>,
    counts: Seq<nat>,
    runs: Seq<Seq<u8>>,
)
    requires
        states.len() == chunks.len() + counts.len() + 1,
        runs.len() == counts.len(),
        states[0].readable().len() == 0,
        total(counts) == chunks.flatten().len(),
        forall|k: int|
            0 <= k < chunks.len() ==> #[trigger] states[k + 1].readable() == states[k].readable()
                + chunks[k],
        forall|k: int|
            0 <= k < counts.len() ==> (counts[k] <= states[chunks.len() + k].readable().len() ==> {
                &&& #[trigger] runs[k] == states[chunks.len() + k].readable().take(counts[k] as int)
                &&& states[chunks.len() + k + 1].readable() == states[chunks.len()
                    + k].readable().skip(counts[k] as int)
            }),
    ensures
        forall|k: int|
            0 <= k < counts.len() ==> counts[k] <= #[trigger] states[chunks.len()
                + k].readable().len(),
        runs.flatten() == chunks.flatten(),
        states.last().readable().len() == 0,
{
    let c = chunks.len() as int;
    lemma_append_steps(states, chunks, c);
    assert(chunks.take(c) =~= chunks);
    let all = chunks.flatten();
    lemma_consume_steps(states, c, all, counts, runs, counts.len() as int);
    assert(counts.take(counts.len() as int) =~= counts);
    assert(runs.take(runs.len() as int) =~= runs);
    assert(all.take(all.len() as int) =~= all);
    assert(states.last() == states[c + counts.len()]);
}

/// The model after consuming each of `counts`, in order.
pub open spec fn after_consuming(m: BufferModel, counts: Seq<nat>) -> BufferModel {
    m.advance_read(total(counts))
}

/// After the read cursor is moved back to the start, consuming runs hands out the same bytes
/// each time, and moving back again restores the same buffer, storage included: the replay can
/// be repeated any number of times.
pub proof fn law_rewind_replays(m: BufferModel, counts: Seq<nat>)
    requires
        m.wf(),
        total(counts) <= m.write,
    ensures
        after_consuming(m.rewound(), counts).rewound() == m.rewound(),
        after_consuming(m.rewound(), counts).storage == m.storage,
        consumed_runs(after_consuming(m.rewound(), counts).rewound().readable(), counts)
            == consumed_runs(m.rewound().readable(), counts),
{
}

/// A `u8` encoded big-endian and decoded again is the same value.
pub proof fn law_u8_round_trip(v: u8)
    ensures
        be_bytes(v as nat, 1).len() == 1,
        be_value(be_bytes(v as nat, 1)) as u8 == v,
{
    reveal_with_fuel(pow256, 2);
    lemma_pow256_16();
    lemma_be_bytes_len(v as nat, 1);
    lemma_be_round_trip(v as nat, 1);
}

/// A `u16` encoded big-endian and decoded again is the same value.
pub proof fn law_u16_round_trip(v: u16)
    ensures
        be_bytes(v as nat, 2).len() == 2,
        be_value(be_bytes(v as nat, 2)) as u16 == v,
{
    reveal_with_fuel(pow256, 3);
    lemma_pow256_16();
    lemma_be_bytes_len(v as nat, 2);
    lemma_be_round_trip(v as nat, 2);
}

/// A `u32` encoded big-endian and decoded again is the same value.
pub proof fn law_u32_round_trip(v: u32)
    ensures
        be_bytes(v as nat, 4).len() == 4,
        be_value(be_bytes(v as nat, 4)) as u32 == v,
{
    reveal_with_fuel(pow256, 5);
    lemma_pow256_16();
    lemma_be_bytes_len(v as nat, 4);
    lemma_be_round_trip(v as nat, 4);
}

/// A `u64` encoded big-endian and decoded again is the same value.
pub proof fn law_u64_round_trip(v: u64)
    ensures
        be_bytes(v as nat, 8).len() == 8,
        be_value(be_bytes(v as nat, 8)) as u64 == v,
{
    reveal_with_fuel(pow256, 9);
    lemma_pow256_16();
    lemma_be_bytes_len(v as nat, 8);
    lemma_be_round_trip(v as nat, 8);
}

/// A `u128` encoded big-endian and decoded again is the same value.
pub proof fn law_u128_round_trip(v: u128)
    ensures
        be_bytes(v as nat, 16).len() == 16,
        be_value(be_bytes(v as nat, 16)) as u128 == v,
{
    reveal_with_fuel(pow256, 17);
    lemma_pow256_16();
    lemma_be_bytes_len(v as nat, 16);
    lemma_be_round_trip(v as nat, 16);
}

/// An `i8` encoded as the bit pattern of a `u8` and decoded again is the same value.
pub proof fn law_i8_round_trip(v: i8)
    ensures
        be_bytes(v as u8 as nat, 1).len() == 1,
        be_value(be_bytes(v as u8 as nat, 1)) as u8 as i8 == v,
{
    law_u8_round_trip(v as u8);
    assert(v as u8 as i8 == v) by (bit_vector);
}

/// An `i16` encoded as the bit pattern of a `u16` and decoded again is the same value.
pub proof fn law_i16_round_trip(v: i16)
    ensures
        be_bytes(v as u16 as nat, 2).len() == 2,
        be_value(be_bytes(v as u16 as nat, 2)) as u16 as i16 == v,
{
    law_u16_round_trip(v as u16);
    assert(v as u16 as i16 == v) by (bit_vector);
}

/// An `i32` encoded as the bit pattern of a `u32` and decoded again is the same value.
pub proof fn law_i32_round_trip(v: i32)
    ensures
        be_bytes(v as u32 as nat, 4).len() == 4,
        be_value(be_bytes(v as u32 as nat, 4)) as u32 as i32 == v,
{
    law_u32_round_trip(v as u32);
    assert(v as u32 as i32 == v) by (bit_vector);
}

/// An `i64` encoded as the bit pattern of a `u64` and decoded again is the same value.
pub proof fn law_i64_round_trip(v: i64)
    ensures
        be_bytes(v as u64 as nat, 8).len() == 8,
        be_value(be_bytes(v as u64 as nat, 8)) as u64 as i64 == v,
{
    law_u64_round_trip(v as u64);
    assert(v as u64 as i64 == v) by (bit_vector);
}

/// An `i128` encoded as the bit pattern of a `u128` and decoded again is the same value.
pub proof fn law_i128_round_trip(v: i128)
    ensures
        be_bytes(v as u128 as nat, 16).len() == 16,
        be_value(be_bytes(v as u128 as nat, 16)) as u128 as i128 == v,
{
    law_u128_round_trip(v as u128);
    assert(v as u128 as i128 == v) by (bit_vector);
}

} // verus!
