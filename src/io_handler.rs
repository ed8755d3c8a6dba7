//! How an input is carved into chunks. A mapped file is cut at multiples of the
//! chunk size; a stream yields whatever each read returned (see
//! `ProcessingContext::admit_read`).

use crate::tokenizer::{
    be_bytes, widen, BasicTokenizationStrategy, PassthroughStrategy, TokenizationStrategy,
};
use crate::pipeline::sequential_output;
use vstd::prelude::*;

verus! {

/// The ranges `(start, len)` of the chunks of `[start, total)`, each `chunk_size`
/// long but the last, which holds what remains.
pub open spec fn ranges_from(start: nat, total: nat, chunk_size: nat) -> Seq<(usize, usize)>
    decreases total + chunk_size - start,
    when chunk_size > 0
{
    if start >= total {
        Seq::empty()
    } else {
        let len = if total - start < chunk_size { (total - start) as nat } else { chunk_size };
        seq![(start as usize, len as usize)] + ranges_from(start + chunk_size, total, chunk_size)
    }
}

/// The bytes of each range, in order.
pub open spec fn slices(b: Seq<u8>, ranges: Seq<(usize, usize)>) -> Seq<Seq<u8>> {
    ranges.map_values(|r: (usize, usize)| b.subrange(r.0 as int, r.0 + r.1))
}

/// The chunk ranges of a mapped input of `total` bytes: `[i * chunk_size,
/// min((i + 1) * chunk_size, total))` for `i = 0, 1, ...` while the start is below `total`.
pub fn chunk_ranges(total: usize, chunk_size: usize) -> (r: Vec<(usize, usize)>)
    requires
        chunk_size > 0,
    ensures
        r@ == ranges_from(0, total as nat, chunk_size as nat),
{
    let mut r: Vec<(usize, usize)> = Vec::new();
    let mut start: usize = 0;
    assert(r@ + ranges_from(0, total as nat, chunk_size as nat) =~= ranges_from(0, total as nat, chunk_size as nat));
    while start < total
        invariant
            chunk_size > 0,
            r@ + ranges_from(start as nat, total as nat, chunk_size as nat) == ranges_from(0, total as nat, chunk_size as nat),
        decreases total - start,
    {
        let len = if total - start < chunk_size { total - start } else { chunk_size };
        let ghost rest = ranges_from((start + chunk_size) as nat, total as nat, chunk_size as nat);
        assert(r@.push((start, len)) + rest =~= r@ + (seq![(start, len)] + rest));
        r.push((start, len));
        if total - start <= chunk_size {
            assert(ranges_from((start + chunk_size) as nat, total as nat, chunk_size as nat) =~= Seq::<(usize, usize)>::empty());
            assert(r@ =~= r@ + Seq::<(usize, usize)>::empty());
            start = total;
        } else {
            start = start + chunk_size;
        }
    }
    assert(r@ + Seq::<(usize, usize)>::empty() =~= r@);
    r
}

/// The chunks of `[start, total)`, concatenated, give those bytes back, and none is empty.
proof fn lemma_ranges_cover(b: Seq<u8>, start: nat, chunk_size: nat)
    requires
        chunk_size > 0,
        start <= b.len(),
        b.len() <= usize::MAX,
    ensures
        slices(b, ranges_from(start, b.len(), chunk_size)).flatten() == b.subrange(start as int, b.len() as int),
        forall|i: int| 0 <= i < ranges_from(start, b.len(), chunk_size).len()
            ==> #[trigger] ranges_from(start, b.len(), chunk_size)[i].1 > 0,
    decreases b.len() + chunk_size - start,
{
    let rs = ranges_from(start, b.len(), chunk_size);
    if start >= b.len() {
        assert(b.subrange(start as int, b.len() as int) =~= Seq::<u8>::empty());
    } else {
        let len = if b.len() - start < chunk_size { (b.len() - start) as nat } else { chunk_size };
        let next = start + chunk_size;
        let tail = ranges_from(next, b.len(), chunk_size);
        assert(rs[0] == (start as usize, len as usize));
        assert(slices(b, rs)[0] == b.subrange(start as int, (start + len) as int));
        if next >= b.len() {
            assert(tail =~= Seq::<(usize, usize)>::empty());
            assert(slices(b, rs) =~= seq![b.subrange(start as int, b.len() as int)]);
            assert(slices(b, rs).drop_first() =~= Seq::<Seq<u8>>::empty());
            assert(slices(b, rs).flatten() == slices(b, rs)[0] + slices(b, rs).drop_first().flatten());
            assert(slices(b, rs).flatten() =~= b.subrange(start as int, b.len() as int));
        } else {
            lemma_ranges_cover(b, next, chunk_size);
            assert(slices(b, rs).drop_first() =~= slices(b, tail));
            assert(b.subrange(start as int, next as int) + b.subrange(next as int, b.len() as int)
                =~= b.subrange(start as int, b.len() as int));
            assert(slices(b, rs).flatten() == slices(b, rs)[0] + slices(b, rs).drop_first().flatten());
        }
        assert forall|i: int| 0 <= i < rs.len() implies #[trigger] rs[i].1 > 0 by {
            if i > 0 {
                assert(rs[i] == tail[i - 1]);
            }
        }
    }
}

/// The chunks of a mapped input, concatenated, are the input itself, and no chunk is
/// empty (an empty input has no chunk at all).
pub proof fn lemma_mapped_chunks_cover(b: Seq<u8>, chunk_size: nat)
    requires
        chunk_size > 0,
        b.len() <= usize::MAX,
    ensures
        slices(b, ranges_from(0, b.len(), chunk_size)).flatten() == b,
        forall|i: int| 0 <= i < ranges_from(0, b.len(), chunk_size).len()
            ==> (#[trigger] slices(b, ranges_from(0, b.len(), chunk_size))[i]).len() > 0,
        b.len() == 0 <==> ranges_from(0, b.len(), chunk_size).len() == 0,
{
    lemma_ranges_cover(b, 0, chunk_size);
    assert(b.subrange(0, b.len() as int) =~= b);
    let rs = ranges_from(0, b.len(), chunk_size);
    assert forall|i: int| 0 <= i < rs.len() implies (#[trigger] slices(b, rs)[i]).len() > 0 by {
        assert(rs[i].1 > 0);
        lemma_range_in_bounds(b.len(), 0, chunk_size, i);
    }
}

/// Every range lies inside `[start, total)`.
proof fn lemma_range_in_bounds(total: nat, start: nat, chunk_size: nat, i: int)
    requires
        chunk_size > 0,
        total <= usize::MAX,
        0 <= i < ranges_from(start, total, chunk_size).len(),
    ensures
        start <= ranges_from(start, total, chunk_size)[i].0,
        ranges_from(start, total, chunk_size)[i].0 + ranges_from(start, total, chunk_size)[i].1 <= total,
    decreases total + chunk_size - start,
{
    if start < total && i > 0 {
        lemma_range_in_bounds(total, start + chunk_size, chunk_size, i - 1);
    }
}

/// Passthrough round trip: on the mapped path the output is the input, byte for byte,
/// the empty input included.
pub proof fn lemma_passthrough_round_trip(b: Seq<u8>, chunk_size: nat)
    requires
        chunk_size > 0,
        b.len() <= usize::MAX,
    ensures
        sequential_output(PassthroughStrategy, slices(b, ranges_from(0, b.len(), chunk_size))) == b,
{
    let cs = slices(b, ranges_from(0, b.len(), chunk_size));
    lemma_mapped_chunks_cover(b, chunk_size);
    assert(cs.map_values(|c: Seq<u8>| PassthroughStrategy.transform(c)) =~= cs);
}

/// Serialising a concatenation of token sequences concatenates the serialisations.
proof fn lemma_be_bytes_concat(s: Seq<u16>, t: Seq<u16>)
    ensures
        be_bytes(s + t) == be_bytes(s) + be_bytes(t),
    decreases t.len(),
{
    if t.len() == 0 {
        assert(s + t =~= s);
        assert(be_bytes(s) + Seq::<u8>::empty() =~= be_bytes(s));
    } else {
        lemma_be_bytes_concat(s, t.drop_last());
        assert((s + t).drop_last() =~= s + t.drop_last());
        assert((s + t).last() == t.last());
    }
}

/// The widening strategy's output over any cutting of a byte string into chunks is
/// its output on the whole string.
pub proof fn lemma_basic_chunking_independent(chunks: Seq<Seq<u8>>)
    ensures
        sequential_output(BasicTokenizationStrategy, chunks) == be_bytes(widen(chunks.flatten())),
    decreases chunks.len(),
{
    let f = |c: Seq<u8>| BasicTokenizationStrategy.transform(c);
    if chunks.len() == 0 {
        assert(chunks.map_values(f) =~= Seq::<Seq<u8>>::empty());
        assert(widen(chunks.flatten()) =~= Seq::<u16>::empty());
    } else {
        let rest = chunks.drop_first();
        lemma_basic_chunking_independent(rest);
        assert(chunks.map_values(f).drop_first() =~= rest.map_values(f));
        assert(widen(chunks[0] + rest.flatten()) =~= widen(chunks[0]) + widen(rest.flatten()));
        lemma_be_bytes_concat(widen(chunks[0]), widen(rest.flatten()));
    }
}

/// Mapped against streaming: for the widening and passthrough strategies, any two
/// cuttings of the same bytes into chunks (a mapped file's fixed-size ranges, or
/// whatever a stream's reads returned) give the same output.
pub proof fn lemma_streaming_matches_mapped(mapped: Seq<Seq<u8>>, streamed: Seq<Seq<u8>>)
    requires
        mapped.flatten() == streamed.flatten(),
    ensures
        sequential_output(BasicTokenizationStrategy, mapped)
            == sequential_output(BasicTokenizationStrategy, streamed),
        sequential_output(PassthroughStrategy, mapped) == sequential_output(PassthroughStrategy, streamed),
{
    lemma_basic_chunking_independent(mapped);
    lemma_basic_chunking_independent(streamed);
    assert(mapped.map_values(|c: Seq<u8>| PassthroughStrategy.transform(c)) =~= mapped);
    assert(streamed.map_values(|c: Seq<u8>| PassthroughStrategy.transform(c)) =~= streamed);
}

} // verus!
