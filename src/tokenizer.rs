//! Tokenization strategies: byte-pair merging, byte widening and passthrough.
//! Each is a pure function of a chunk's bytes (and, for byte-pair merging, of a
//! shared read-only merge table), so chunks can be processed in any order.

use crate::merges::BpeMerges;
use std::sync::Arc;
use vstd::prelude::*;

verus! {

/// Every byte promoted to a 16-bit token of the same value.
pub open spec fn widen(b: Seq<u8>) -> Seq<u16> {
    b.map_values(|x: u8| x as u16)
}

/// The high byte of a token.
pub open spec fn hi_byte(t: u16) -> u8 {
    (t / 256) as u8
}

/// The low byte of a token.
pub open spec fn lo_byte(t: u16) -> u8 {
    (t % 256) as u8
}

/// Each token as two bytes, big-endian, concatenated in order.
pub open spec fn be_bytes(t: Seq<u16>) -> Seq<u8>
    decreases t.len(),
{
    if t.len() == 0 {
        Seq::empty()
    } else {
        be_bytes(t.drop_last()) + seq![hi_byte(t.last()), lo_byte(t.last())]
    }
}

/// One greedy left-to-right pass: a pair with a rule is replaced by its merged
/// token and the scan resumes after it; any other token is kept.
pub open spec fn merge_pass(m: Map<(u16, u16), u16>, t: Seq<u16>) -> Seq<u16>
    decreases t.len(),
{
    if t.len() < 2 {
        t
    } else if m.contains_key((t[0], t[1])) {
        seq![m[(t[0], t[1])]] + merge_pass(m, t.subrange(2, t.len() as int))
    } else {
        seq![t[0]] + merge_pass(m, t.subrange(1, t.len() as int))
    }
}

/// Passes repeated until one performs no merge (a pass that merges shortens the sequence).
pub open spec fn merge_to_fixpoint(m: Map<(u16, u16), u16>, t: Seq<u16>) -> Seq<u16>
    decreases t.len(),
{
    if merge_pass(m, t).len() < t.len() {
        merge_to_fixpoint(m, merge_pass(m, t))
    } else {
        t
    }
}

/// The byte-pair strategy's output for a chunk.
pub open spec fn bpe_encode(m: Map<(u16, u16), u16>, b: Seq<u8>) -> Seq<u8> {
    be_bytes(merge_to_fixpoint(m, widen(b)))
}

/// A chunk could not be transformed.
#[derive(Debug)]
pub struct ChunkError {
    pub message: String,
}

/// A tokenization algorithm applied to one chunk of bytes at a time.
pub trait TokenizationStrategy {
    /// What the strategy makes of a chunk.
    spec fn transform(&self, chunk: Seq<u8>) -> Seq<u8>;

    /// Transforms one chunk.
    fn process_chunk(&self, chunk_data: &[u8]) -> (r: Result<Vec<u8>, ChunkError>)
        ensures
            r matches Ok(v) && v@ == self.transform(chunk_data@),
    ;
}

/// Byte-pair merging over a shared merge table.
pub struct BpeStrategy {
    pub bpe_merges: Arc<BpeMerges>,
}

/// Every byte becomes a 2-byte big-endian token, with no merges.
pub struct BasicTokenizationStrategy;

/// The chunk is returned unchanged.
pub struct PassthroughStrategy;

impl BpeStrategy {
    /// A byte-pair strategy over the given table.
    pub fn new(bpe_merges: Arc<BpeMerges>) -> (r: Self)
        ensures
            r.bpe_merges@ == bpe_merges@,
    {
        BpeStrategy { bpe_merges }
    }
}

/// The pass appends at most one token per token consumed.
proof fn lemma_merge_pass_len(m: Map<(u16, u16), u16>, t: Seq<u16>)
    ensures
        merge_pass(m, t).len() <= t.len(),
    decreases t.len(),
{
    if t.len() >= 2 {
        lemma_merge_pass_len(m, t.subrange(2, t.len() as int));
        lemma_merge_pass_len(m, t.subrange(1, t.len() as int));
    }
}

/// Serialising one more token appends its two bytes.
proof fn lemma_be_bytes_push(t: Seq<u16>, x: u16)
    ensures
        be_bytes(t.push(x)) == be_bytes(t) + seq![hi_byte(x), lo_byte(x)],
{
    assert(t.push(x).drop_last() =~= t);
}

fn push_be(out: &mut Vec<u8>, t: u16)
    ensures
        final(out)@ == old(out)@ + seq![hi_byte(t), lo_byte(t)],
{
    out.push((t / 256) as u8);
    out.push((t % 256) as u8);
    assert(final(out)@ =~= old(out)@ + seq![hi_byte(t), lo_byte(t)]);
}

fn serialize_tokens(tokens: &Vec<u16>) -> (r: Vec<u8>)
    ensures
        r@ == be_bytes(tokens@),
{
    let mut out: Vec<u8> = Vec::new();
    let mut i: usize = 0;
    while i < tokens.len()
        invariant
            i <= tokens.len(),
            out@ == be_bytes(tokens@.subrange(0, i as int)),
        decreases tokens.len() - i,
    {
        proof {
            lemma_be_bytes_push(tokens@.subrange(0, i as int), tokens@[i as int]);
            assert(tokens@.subrange(0, i as int).push(tokens@[i as int]) =~= tokens@.subrange(0, i + 1));
        }
        push_be(&mut out, tokens[i]);
        i = i + 1;
    }
    assert(tokens@.subrange(0, i as int) =~= tokens@);
    out
}

fn widen_bytes(chunk_data: &[u8]) -> (r: Vec<u16>)
    ensures
        r@ == widen(chunk_data@),
{
    let mut tokens: Vec<u16> = Vec::new();
    let mut i: usize = 0;
    while i < chunk_data.len()
        invariant
            i <= chunk_data.len(),
            tokens@ == widen(chunk_data@.subrange(0, i as int)),
        decreases chunk_data.len() - i,
    {
        tokens.push(chunk_data[i] as u16);
        i = i + 1;
        assert(tokens@ =~= widen(chunk_data@.subrange(0, i as int)));
    }
    assert(chunk_data@.subrange(0, i as int) =~= chunk_data@);
    tokens
}

fn copy_bytes(chunk_data: &[u8]) -> (r: Vec<u8>)
    ensures
        r@ == chunk_data@,
{
    let mut out: Vec<u8> = Vec::with_capacity(chunk_data.len());
    let mut i: usize = 0;
    while i < chunk_data.len()
        invariant
            i <= chunk_data.len(),
            out@ == chunk_data@.subrange(0, i as int),
        decreases chunk_data.len() - i,
    {
        out.push(chunk_data[i]);
        i = i + 1;
        assert(out@ =~= chunk_data@.subrange(0, i as int));
    }
    assert(chunk_data@.subrange(0, i as int) =~= chunk_data@);
    out
}

/// One pass of merging; also says whether any pair was merged.
fn run_merge_pass(table: &BpeMerges, tokens: &Vec<u16>) -> (r: (Vec<u16>, bool))
    ensures
        r.0@ == merge_pass(table@, tokens@),
        r.1 ==> r.0@.len() < tokens@.len(),
        !r.1 ==> r.0@ == tokens@,
{
    let ghost m = table@;
    let n = tokens.len();
    let mut out: Vec<u16> = Vec::with_capacity(n);
    let mut merged = false;
    let mut i: usize = 0;
    assert(tokens@.subrange(0, 0) =~= out@);
    assert(tokens@.subrange(0, n as int) =~= tokens@);
    assert(out@ + tokens@ =~= tokens@);
    while i < n
        invariant
            n == tokens.len(),
            i <= n,
            m == table@,
            out@ + merge_pass(m, tokens@.subrange(i as int, n as int)) == merge_pass(m, tokens@),
            merged ==> out@.len() < i,
            !merged ==> out@ == tokens@.subrange(0, i as int),
            out@.len() <= i,
        decreases n - i,
    {
        let ghost rest = tokens@.subrange(i as int, n as int);
        if i + 1 < n {
            match table.get(tokens[i], tokens[i + 1]) {
                Some(t) => {
                    proof {
                        assert(rest[0] == tokens@[i as int] && rest[1] == tokens@[i + 1]);
                        assert(rest.subrange(2, rest.len() as int) =~= tokens@.subrange(i + 2, n as int));
                    }
                    out.push(t);
                    i = i + 2;
                    merged = true;
                    proof {
                        assert(out@ + merge_pass(m, tokens@.subrange(i as int, n as int))
                            =~= out@.drop_last() + (seq![t] + merge_pass(m, tokens@.subrange(i as int, n as int))));
                    }
                },
                None => {
                    proof {
                        assert(rest[0] == tokens@[i as int] && rest[1] == tokens@[i + 1]);
                        assert(rest.subrange(1, rest.len() as int) =~= tokens@.subrange(i + 1, n as int));
                    }
                    out.push(tokens[i]);
                    i = i + 1;
                    proof {
                        assert(out@ + merge_pass(m, tokens@.subrange(i as int, n as int))
                            =~= out@.drop_last() + (seq![tokens@[i - 1]] + merge_pass(m, tokens@.subrange(i as int, n as int))));
                        if !merged {
                            assert(out@ =~= tokens@.subrange(0, i as int));
                        }
                    }
                },
            }
        } else {
            out.push(tokens[i]);
            i = i + 1;
            proof {
                assert(rest.len() == 1);
                assert(tokens@.subrange(i as int, n as int).len() == 0);
                assert(out@ + merge_pass(m, tokens@.subrange(i as int, n as int)) =~= out@.drop_last() + rest);
                if !merged {
                    assert(out@ =~= tokens@.subrange(0, i as int));
                }
            }
        }
    }
    proof {
        assert(tokens@.subrange(n as int, n as int) =~= Seq::<u16>::empty());
        assert(out@ + Seq::<u16>::empty() =~= out@);
        assert(tokens@.subrange(0, n as int) =~= tokens@);
    }
    (out, merged)
}

impl TokenizationStrategy for BpeStrategy {
    open spec fn transform(&self, chunk: Seq<u8>) -> Seq<u8> {
        bpe_encode(self.bpe_merges@, chunk)
    }

    fn process_chunk(&self, chunk_data: &[u8]) -> (r: Result<Vec<u8>, ChunkError>) {
        let table: &BpeMerges = &self.bpe_merges;
        let mut tokens = widen_bytes(chunk_data);
        let ghost start = tokens@;
        loop
            invariant
                merge_to_fixpoint(table@, tokens@) == merge_to_fixpoint(table@, start),
                table@ == self.bpe_merges@,
            ensures
                tokens@ == merge_to_fixpoint(table@, start),
            decreases tokens@.len(),
        {
            let (next, merged) = run_merge_pass(table, &tokens);
            if !merged {
                assert(merge_to_fixpoint(table@, tokens@) == tokens@);
                break;
            }
            assert(merge_to_fixpoint(table@, tokens@) == merge_to_fixpoint(table@, next@));
            tokens = next;
        }
        Ok(serialize_tokens(&tokens))
    }
}

impl TokenizationStrategy for BasicTokenizationStrategy {
    open spec fn transform(&self, chunk: Seq<u8>) -> Seq<u8> {
        be_bytes(widen(chunk))
    }

    fn process_chunk(&self, chunk_data: &[u8]) -> (r: Result<Vec<u8>, ChunkError>) {
        let tokens = widen_bytes(chunk_data);
        Ok(serialize_tokens(&tokens))
    }
}

impl TokenizationStrategy for PassthroughStrategy {
    open spec fn transform(&self, chunk: Seq<u8>) -> Seq<u8> {
        chunk
    }

    fn process_chunk(&self, chunk_data: &[u8]) -> (r: Result<Vec<u8>, ChunkError>) {
        Ok(copy_bytes(chunk_data))
    }
}


/// A pass over tokens in which no adjacent pair has a rule changes nothing.
proof fn lemma_pass_without_rules(m: Map<(u16, u16), u16>, t: Seq<u16>)
    requires
        forall|i: int| 0 <= i < t.len() - 1 ==> !m.contains_key((#[trigger] t[i], t[i + 1])),
    ensures
        merge_pass(m, t) == t,
    decreases t.len(),
{
    if t.len() >= 2 {
        let rest = t.subrange(1, t.len() as int);
        assert forall|i: int| 0 <= i < rest.len() - 1 implies !m.contains_key((#[trigger] rest[i], rest[i + 1])) by {
            assert(rest[i] == t[i + 1] && rest[i + 1] == t[i + 2]);
        }
        lemma_pass_without_rules(m, rest);
        assert(!m.contains_key((t[0], t[1])));
        assert(seq![t[0]] + rest =~= t);
    }
}

/// Merge fixed point: on a chunk in which no adjacent byte pair has a rule, the
/// byte-pair strategy returns the chunk widened to 2-byte tokens, values unchanged.
pub proof fn lemma_no_rule_applies(m: Map<(u16, u16), u16>, b: Seq<u8>)
    requires
        forall|i: int| 0 <= i < b.len() - 1 ==> !m.contains_key(((#[trigger] b[i]) as u16, b[i + 1] as u16)),
    ensures
        bpe_encode(m, b) == be_bytes(widen(b)),
{
    let t = widen(b);
    assert forall|i: int| 0 <= i < t.len() - 1 implies !m.contains_key((#[trigger] t[i], t[i + 1])) by {
        assert(t[i] == b[i] as u16 && t[i + 1] == b[i + 1] as u16);
    }
    lemma_pass_without_rules(m, t);
}

} // verus!
