//! The ordering core of the concurrent pipeline.
//!
//! A `ProcessingContext` is the orchestrator's state: it hands out dense chunk
//! ids while the worker bound allows, takes results back in any order, keeps
//! early ones in a reorder buffer, and releases payloads strictly in id order.
//! Running the workers and writing the released bytes is left to the caller.

use crate::tokenizer::{ChunkError, TokenizationStrategy};
use std::collections::{HashMap, HashSet};
use vstd::prelude::*;

verus! {

broadcast use vstd::std_specs::hash::group_hash_axioms;

/// What a worker reported for a chunk, with its payload viewed as a sequence.
pub open spec fn outcome_view(r: Result<Vec<u8>, ChunkError>) -> Result<Seq<u8>, ChunkError> {
    match r {
        Ok(v) => Ok(v@),
        Err(e) => Err(e),
    }
}

/// The payload of a successful outcome.
pub open spec fn payload(o: Result<Seq<u8>, ChunkError>) -> Seq<u8> {
    match o {
        Ok(b) => b,
        Err(_) => Seq::empty(),
    }
}

/// The payloads of chunks `0..k`, concatenated in id order.
pub open spec fn ordered_output(arrived: Map<usize, Result<Seq<u8>, ChunkError>>, k: nat) -> Seq<u8>
    decreases k,
{
    if k == 0 {
        Seq::empty()
    } else {
        ordered_output(arrived, (k - 1) as nat) + payload(arrived[(k - 1) as usize])
    }
}

/// The payloads of chunks `lo..hi`, in id order.
pub open spec fn payloads_between(arrived: Map<usize, Result<Seq<u8>, ChunkError>>, lo: nat, hi: nat) -> Seq<Seq<u8>> {
    Seq::new((hi - lo) as nat, |i: int| payload(arrived[(lo + i) as usize]))
}

/// The byte sequences of a list of buffers, concatenated.
pub open spec fn joined(bufs: Seq<Vec<u8>>) -> Seq<u8> {
    bufs.map_values(|v: Vec<u8>| v@).flatten()
}

/// What a strictly sequential run produces: each chunk transformed, in order.
pub open spec fn sequential_output<S: TokenizationStrategy>(strategy: S, chunks: Seq<Seq<u8>>) -> Seq<u8> {
    chunks.map_values(|c: Seq<u8>| strategy.transform(c)).flatten()
}

/// What the orchestrator does next.
#[derive(Clone, Copy, Debug, PartialEq, Eq, Structural)]
pub enum PipelineAction {
    /// Take the next chunk from the input and dispatch it.
    Fill,
    /// Wait for a worker to report a result.
    Drain,
    /// Every chunk has been released: flush the output and stop.
    Finish,
    /// Stop with an error: a chunk failed, or no chunk id is left for more input.
    Abort,
}

/// The orchestrator's state for one run.
pub struct ProcessingContext {
    worker_count: usize,
    next_chunk_id: usize,
    in_flight: HashSet<usize>,
    received_results: HashMap<usize, Result<Vec<u8>, ChunkError>>,
    current_expected_chunk_id: usize,
    input_eof: bool,
    failed: bool,
    arrived: Ghost<Map<usize, Result<Seq<u8>, ChunkError>>>,
    emitted: Ghost<Seq<u8>>,
}

impl ProcessingContext {
    /// The bound on chunks in flight at once.
    pub closed spec fn worker_limit(&self) -> nat {
        self.worker_count as nat
    }

    /// How many chunk ids have been handed out (ids `0..n`).
    pub closed spec fn chunks_dispatched(&self) -> nat {
        self.next_chunk_id as nat
    }

    /// Ids handed out whose result has not come back.
    pub closed spec fn in_flight(&self) -> Set<usize> {
        self.in_flight@
    }

    /// Every result that has come back, by chunk id.
    pub closed spec fn arrived(&self) -> Map<usize, Result<Seq<u8>, ChunkError>> {
        self.arrived@
    }

    /// Ids whose result waits in the reorder buffer for an earlier chunk.
    pub closed spec fn buffered(&self) -> Set<usize> {
        self.received_results@.dom()
    }

    /// The id whose payload is to be released next.
    pub closed spec fn next_expected(&self) -> nat {
        self.current_expected_chunk_id as nat
    }

    /// Everything released so far, in release order.
    pub closed spec fn emitted(&self) -> Seq<u8> {
        self.emitted@
    }

    /// The input has no more chunks.
    pub closed spec fn input_exhausted(&self) -> bool {
        self.input_eof
    }

    /// The next expected chunk failed: the run is over.
    pub closed spec fn has_failed(&self) -> bool {
        self.failed
    }

    /// Each buffered result is the one that arrived for its id.
    pub closed spec fn buffer_matches(&self) -> bool {
        forall|id: usize| #[trigger] self.received_results@.contains_key(id)
            ==> outcome_view(self.received_results@[id]) == self.arrived@[id]
    }

    /// The orchestrator's invariant.
    pub open spec fn wf(&self) -> bool {
        &&& self.buffer_matches()
        &&& self.worker_limit() >= 1
        &&& self.in_flight().finite()
        &&& self.in_flight().len() <= self.worker_limit()
        &&& forall|id: usize| #[trigger] self.in_flight().contains(id)
            ==> id < self.chunks_dispatched() && !self.arrived().contains_key(id)
        &&& forall|id: usize| #[trigger] self.arrived().contains_key(id) ==> id < self.chunks_dispatched()
        &&& forall|id: usize| id < self.chunks_dispatched()
            ==> #[trigger] self.in_flight().contains(id) || self.arrived().contains_key(id)
        &&& self.next_expected() <= self.chunks_dispatched()
        &&& forall|id: usize| id < self.next_expected()
            ==> #[trigger] self.arrived().contains_key(id) && self.arrived()[id] is Ok
        &&& forall|id: usize| #[trigger] self.buffered().contains(id)
            ==> self.arrived().contains_key(id) && id > self.next_expected()
        &&& forall|id: usize| #[trigger] self.arrived().contains_key(id) && id > self.next_expected()
            ==> self.buffered().contains(id)
        &&& !self.has_failed() ==> !self.arrived().contains_key(self.next_expected() as usize)
        &&& self.has_failed() ==> self.arrived().contains_key(self.next_expected() as usize)
            && self.arrived()[self.next_expected() as usize] is Err
        &&& self.emitted() == ordered_output(self.arrived(), self.next_expected())
    }

    /// Another chunk may be taken from the input and dispatched now.
    pub open spec fn ready_for_input(&self) -> bool {
        &&& !self.input_exhausted()
        &&& !self.has_failed()
        &&& self.in_flight().len() < self.worker_limit()
        &&& self.chunks_dispatched() < usize::MAX
    }

    /// A fresh state for a run with at most `worker_count` chunks in flight.
    pub fn new(worker_count: usize) -> (r: Self)
        requires
            worker_count >= 1,
        ensures
            r.wf(),
            r.worker_limit() == worker_count,
            r.chunks_dispatched() == 0,
            r.in_flight() == Set::<usize>::empty(),
            r.arrived() == Map::<usize, Result<Seq<u8>, ChunkError>>::empty(),
            r.emitted() == Seq::<u8>::empty(),
            !r.input_exhausted(),
            !r.has_failed(),
    {
        ProcessingContext {
            worker_count,
            next_chunk_id: 0,
            in_flight: HashSet::new(),
            received_results: HashMap::new(),
            current_expected_chunk_id: 0,
            input_eof: false,
            failed: false,
            arrived: Ghost(Map::empty()),
            emitted: Ghost(Seq::empty()),
        }
    }

    /// Whether another chunk may be dispatched now.
    pub fn can_dispatch(&self) -> (r: bool)
        requires
            self.wf(),
        ensures
            r == self.ready_for_input(),
    {
        !self.input_eof && !self.failed && self.in_flight.len() < self.worker_count
            && self.next_chunk_id < usize::MAX
    }

    /// Whether the result for `task_id` is still awaited.
    pub fn is_in_flight(&self, task_id: usize) -> (r: bool)
        ensures
            r == self.in_flight().contains(task_id),
    {
        self.in_flight.contains(&task_id)
    }

    /// Records that the input has no more chunks.
    pub fn mark_input_exhausted(&mut self)
        requires
            old(self).wf(),
        ensures
            final(self).wf(),
            final(self).input_exhausted(),
            final(self).worker_limit() == old(self).worker_limit(),
            final(self).chunks_dispatched() == old(self).chunks_dispatched(),
            final(self).in_flight() == old(self).in_flight(),
            final(self).arrived() == old(self).arrived(),
            final(self).emitted() == old(self).emitted(),
            final(self).has_failed() == old(self).has_failed(),
    {
        self.input_eof = true;
        assert(self.buffered() == old(self).buffered());
        assert(forall|id: usize| #[trigger] self.buffered().contains(id) ==> old(self).buffered().contains(id));
    }

    /// Hands out the next chunk id and counts the chunk as in flight.
    pub fn dispatch_next(&mut self) -> (id: usize)
        requires
            old(self).wf(),
            old(self).ready_for_input(),
        ensures
            final(self).wf(),
            id == old(self).chunks_dispatched(),
            final(self).chunks_dispatched() == old(self).chunks_dispatched() + 1,
            final(self).in_flight() == old(self).in_flight().insert(id),
            final(self).worker_limit() == old(self).worker_limit(),
            final(self).arrived() == old(self).arrived(),
            final(self).emitted() == old(self).emitted(),
            final(self).input_exhausted() == old(self).input_exhausted(),
            final(self).has_failed() == old(self).has_failed(),
    {
        let id = self.next_chunk_id;
        self.in_flight.insert(id);
        self.next_chunk_id = id + 1;
        assert(self.buffered() == old(self).buffered());
        assert(forall|i: usize| #[trigger] self.buffered().contains(i) ==> old(self).buffered().contains(i));
        id
    }

    /// Takes the outcome of one read of at most a chunk's size from a stream.
    /// A read of zero bytes ends the input; otherwise the bytes read become the
    /// next chunk, returned with its id.
    pub fn admit_read(&mut self, chunk_buffer: Vec<u8>, bytes_read: usize) -> (r: Option<(usize, Vec<u8>)>)
        requires
            old(self).wf(),
            old(self).ready_for_input(),
            bytes_read <= chunk_buffer@.len(),
        ensures
            final(self).wf(),
            final(self).worker_limit() == old(self).worker_limit(),
            final(self).arrived() == old(self).arrived(),
            final(self).emitted() == old(self).emitted(),
            final(self).has_failed() == old(self).has_failed(),
            bytes_read == 0 ==> {
                &&& r is None
                &&& final(self).input_exhausted()
                &&& final(self).chunks_dispatched() == old(self).chunks_dispatched()
                &&& final(self).in_flight() == old(self).in_flight()
            },
            bytes_read > 0 ==> {
                &&& r matches Some((id, chunk)) && id == old(self).chunks_dispatched()
                    && chunk@ == chunk_buffer@.subrange(0, bytes_read as int)
                &&& !final(self).input_exhausted()
                &&& final(self).chunks_dispatched() == old(self).chunks_dispatched() + 1
                &&& final(self).in_flight() == old(self).in_flight().insert(
                    old(self).chunks_dispatched() as usize,
                )
            },
    {
        if bytes_read == 0 {
            self.mark_input_exhausted();
            return None;
        }
        let mut chunk = chunk_buffer;
        chunk.truncate(bytes_read);
        let id = self.dispatch_next();
        Some((id, chunk))
    }

    /// The next step of the run: fill while input and worker capacity remain, drain
    /// while chunks are in flight, finish once the input is exhausted and nothing is
    /// in flight, abort after a failure.
    pub fn next_action(&self) -> (r: PipelineAction)
        requires
            self.wf(),
        ensures
            r == (if self.has_failed() {
                PipelineAction::Abort
            } else if self.ready_for_input() {
                PipelineAction::Fill
            } else if !self.in_flight().is_empty() {
                PipelineAction::Drain
            } else if self.input_exhausted() {
                PipelineAction::Finish
            } else {
                PipelineAction::Abort
            }),
    {
        if self.failed {
            PipelineAction::Abort
        } else if self.can_dispatch() {
            PipelineAction::Fill
        } else if !self.in_flight.is_empty() {
            PipelineAction::Drain
        } else if self.input_eof {
            PipelineAction::Finish
        } else {
            PipelineAction::Abort
        }
    }

    /// All input is consumed and no chunk is in flight.
    pub fn is_work_done(&self) -> (r: bool)
        ensures
            r == (self.input_exhausted() && self.in_flight().is_empty()),
    {
        self.input_eof && self.in_flight.is_empty()
    }

    /// Nothing is in flight but input remains.
    pub fn no_tasks_running_and_input_available(&self) -> (r: bool)
        ensures
            r == (self.in_flight().is_empty() && !self.input_exhausted()),
    {
        self.in_flight.is_empty() && !self.input_eof
    }

    /// All input is consumed, nothing is in flight and nothing waits in the reorder buffer.
    pub fn is_all_work_truly_done(&self) -> (r: bool)
        ensures
            r == (self.input_exhausted() && self.in_flight().is_empty() && self.buffered().is_empty()),
    {
        self.input_eof && self.in_flight.is_empty() && self.received_results.is_empty()
    }
}


impl ProcessingContext {
    /// The invariant as it stands between storing a result and releasing payloads:
    /// the next expected id may have arrived and then sits in the buffer.
    closed spec fn ready_to_flush(&self) -> bool {
        &&& self.buffer_matches()
        &&& self.worker_limit() >= 1
        &&& self.in_flight().finite()
        &&& self.in_flight().len() <= self.worker_limit()
        &&& forall|id: usize| #[trigger] self.in_flight().contains(id)
            ==> id < self.chunks_dispatched() && !self.arrived().contains_key(id)
        &&& forall|id: usize| #[trigger] self.arrived().contains_key(id) ==> id < self.chunks_dispatched()
        &&& forall|id: usize| id < self.chunks_dispatched()
            ==> #[trigger] self.in_flight().contains(id) || self.arrived().contains_key(id)
        &&& self.next_expected() <= self.chunks_dispatched()
        &&& forall|id: usize| id < self.next_expected()
            ==> #[trigger] self.arrived().contains_key(id) && self.arrived()[id] is Ok
        &&& forall|id: usize| #[trigger] self.buffered().contains(id)
            ==> self.arrived().contains_key(id) && id >= self.next_expected()
        &&& forall|id: usize| #[trigger] self.arrived().contains_key(id) && id >= self.next_expected()
            ==> self.buffered().contains(id)
        &&& !self.has_failed()
        &&& self.emitted() == ordered_output(self.arrived(), self.next_expected())
    }

    /// Releases, in id order, the buffered payloads from the next expected id on,
    /// up to the first id that has not arrived or whose result is an error.
    fn write_ordered_results(&mut self) -> (r: (Vec<Vec<u8>>, Option<ChunkError>))
        requires
            old(self).ready_to_flush(),
        ensures
            final(self).wf(),
            final(self).worker_limit() == old(self).worker_limit(),
            final(self).chunks_dispatched() == old(self).chunks_dispatched(),
            final(self).in_flight() == old(self).in_flight(),
            final(self).arrived() == old(self).arrived(),
            final(self).input_exhausted() == old(self).input_exhausted(),
            final(self).emitted() == old(self).emitted() + joined(r.0@),
            old(self).next_expected() <= final(self).next_expected(),
            r.0@.map_values(|v: Vec<u8>| v@)
                == payloads_between(final(self).arrived(), old(self).next_expected(), final(self).next_expected()),
            r.1 is Some <==> final(self).has_failed(),
            r.1 matches Some(e) ==> final(self).arrived()[final(self).next_expected() as usize] == Err::<Seq<u8>, ChunkError>(e),
    {
        let mut ready: Vec<Vec<u8>> = Vec::new();
        proof {
            assert(ready@.map_values(|v: Vec<u8>| v@) =~= Seq::<Seq<u8>>::empty());
            assert(self.emitted() =~= old(self).emitted() + joined(ready@));
            assert(payloads_between(self.arrived(), old(self).next_expected(), self.next_expected())
                =~= Seq::<Seq<u8>>::empty());
        }
        loop
            invariant
                self.ready_to_flush(),
                self.worker_limit() == old(self).worker_limit(),
                self.chunks_dispatched() == old(self).chunks_dispatched(),
                self.in_flight() == old(self).in_flight(),
                self.arrived() == old(self).arrived(),
                self.input_exhausted() == old(self).input_exhausted(),
                self.emitted() == old(self).emitted() + joined(ready@),
                old(self).next_expected() <= self.next_expected(),
                ready@.map_values(|v: Vec<u8>| v@)
                    == payloads_between(self.arrived(), old(self).next_expected(), self.next_expected()),
            decreases self.next_chunk_id - self.current_expected_chunk_id,
        {
            let cur = self.current_expected_chunk_id;
            let ghost before = self.received_results@;
            let ghost s0 = *self;
            let removed = self.received_results.remove(&cur);
            proof {
                assert(self.received_results@ == before.remove(cur));
                if removed is Some {
                    assert(before.contains_key(cur));
                    assert(s0.buffered().contains(cur));
                    assert(self.arrived().contains_key(cur));
                    assert(cur < self.next_chunk_id);
                } else {
                    assert(!before.contains_key(cur));
                    assert(!self.arrived().contains_key(cur));
                }
            }
            match removed {
                Some(Ok(data)) => {
                    proof {
                        assert(self.arrived@[cur] == Ok::<Seq<u8>, ChunkError>(data@));
                        assert(ready@.push(data).map_values(|v: Vec<u8>| v@)
                            =~= ready@.map_values(|v: Vec<u8>| v@).push(data@));
                        ready@.map_values(|v: Vec<u8>| v@).lemma_flatten_push(data@);
                        assert(ordered_output(self.arrived@, (cur + 1) as nat)
                            == ordered_output(self.arrived@, cur as nat) + data@);
                    }
                    self.emitted = Ghost(self.emitted@ + data@);
                    self.current_expected_chunk_id = cur + 1;
                    ready.push(data);
                    proof {
                        assert(ready@.map_values(|v: Vec<u8>| v@)
                            =~= payloads_between(self.arrived(), old(self).next_expected(), self.next_expected()));
                        assert forall|id: usize| #[trigger] self.arrived().contains_key(id) && id >= self.next_expected()
                            implies self.buffered().contains(id) by {
                            assert(before.contains_key(id));
                        }
                        assert forall|id: usize| id < self.next_expected()
                            implies #[trigger] self.arrived().contains_key(id) && self.arrived()[id] is Ok by {
                            if id < cur {
                            } else {
                                assert(id == cur);
                            }
                        }
                    }
                },
                Some(Err(e)) => {
                    proof {
                        assert(self.arrived@[cur] == Err::<Seq<u8>, ChunkError>(e));
                    }
                    self.failed = true;
                    proof {
                        assert forall|id: usize| #[trigger] self.arrived().contains_key(id) && id > self.next_expected()
                            implies self.buffered().contains(id) by {
                            assert(before.contains_key(id));
                        }
                        assert forall|id: usize| #[trigger] self.buffered().contains(id)
                            implies self.arrived().contains_key(id) && id > self.next_expected() by {
                            assert(before.contains_key(id));
                            assert(s0.buffered().contains(id));
                        }
                    }
                    return (ready, Some(e));
                },
                None => {
                    proof {
                        assert forall|id: usize| #[trigger] self.arrived().contains_key(id) && id > self.next_expected()
                            implies self.buffered().contains(id) by {
                            assert(before.contains_key(id));
                        }
                        assert forall|id: usize| #[trigger] self.buffered().contains(id)
                            implies self.arrived().contains_key(id) && id > self.next_expected() by {
                            assert(before.contains_key(id));
                            assert(s0.buffered().contains(id));
                        }
                    }
                    return (ready, None);
                },
            }
        }
    }

    /// Takes the result that a worker reported for chunk `task_id`, stores it, and
    /// releases every payload that is now next in id order. The second part is the
    /// error of the next expected chunk, if that chunk failed: the run is then over.
    pub fn accept_result(&mut self, task_id: usize, result: Result<Vec<u8>, ChunkError>) -> (r: (
        Vec<Vec<u8>>,
        Option<ChunkError>,
    ))
        requires
            old(self).wf(),
            !old(self).has_failed(),
            old(self).in_flight().contains(task_id),
        ensures
            final(self).wf(),
            final(self).worker_limit() == old(self).worker_limit(),
            final(self).chunks_dispatched() == old(self).chunks_dispatched(),
            final(self).in_flight() == old(self).in_flight().remove(task_id),
            final(self).arrived() == old(self).arrived().insert(task_id, outcome_view(result)),
            final(self).input_exhausted() == old(self).input_exhausted(),
            final(self).emitted() == old(self).emitted() + joined(r.0@),
            old(self).next_expected() <= final(self).next_expected(),
            r.0@.map_values(|v: Vec<u8>| v@)
                == payloads_between(final(self).arrived(), old(self).next_expected(), final(self).next_expected()),
            r.1 is Some <==> final(self).has_failed(),
            r.1 matches Some(e) ==> final(self).arrived()[final(self).next_expected() as usize] == Err::<Seq<u8>, ChunkError>(e),
    {
        let ghost o = outcome_view(result);
        let ghost before = self.received_results@;
        self.in_flight.remove(&task_id);
        self.arrived = Ghost(self.arrived@.insert(task_id, o));
        self.received_results.insert(task_id, result);
        proof {
            assert(self.received_results@.dom() == before.dom().insert(task_id));
            assert(before.dom() == old(self).buffered());
            assert(task_id >= self.current_expected_chunk_id);
            assert forall|id: usize| #[trigger] self.buffered().contains(id)
                implies self.arrived().contains_key(id) && id >= self.next_expected() by {
                if id != task_id {
                    assert(before.contains_key(id));
                }
            }
            assert forall|id: usize| #[trigger] self.arrived().contains_key(id) && id >= self.next_expected()
                implies self.buffered().contains(id) by {
                if id != task_id {
                    assert(old(self).arrived().contains_key(id));
                    assert(id != old(self).next_expected());
                    assert(old(self).buffered().contains(id));
                }
            }
            assert forall|id: usize| #[trigger] self.received_results@.contains_key(id)
                implies outcome_view(self.received_results@[id]) == self.arrived@[id] by {
                if id != task_id {
                    assert(before.contains_key(id));
                }
            }
            assert forall|id: usize| id < self.next_expected()
                implies #[trigger] self.arrived().contains_key(id) && self.arrived()[id] is Ok by {
                assert(old(self).arrived().contains_key(id));
            }
            lemma_ordered_output_frame(old(self).arrived(), self.arrived(), self.next_expected());
        }
        self.write_ordered_results()
    }
}

/// The released prefix only reads the results of the ids below it.
proof fn lemma_ordered_output_frame(
    a: Map<usize, Result<Seq<u8>, ChunkError>>,
    b: Map<usize, Result<Seq<u8>, ChunkError>>,
    k: nat,
)
    requires
        forall|id: usize| id < k ==> #[trigger] a[id] == b[id],
    ensures
        ordered_output(a, k) == ordered_output(b, k),
    decreases k,
{
    if k > 0 {
        lemma_ordered_output_frame(a, b, (k - 1) as nat);
    }
}


/// Once nothing is in flight and the run has not failed, every dispatched chunk has
/// come back successfully and been released, the reorder buffer is empty, and the
/// released bytes are the payloads of all chunks concatenated in id order.
pub proof fn lemma_all_released(ctx: &ProcessingContext)
    requires
        ctx.wf(),
        !ctx.has_failed(),
        ctx.in_flight().is_empty(),
    ensures
        ctx.next_expected() == ctx.chunks_dispatched(),
        ctx.buffered().is_empty(),
        forall|id: usize| id < ctx.chunks_dispatched()
            ==> #[trigger] ctx.arrived().contains_key(id) && ctx.arrived()[id] is Ok,
        ctx.emitted() == ordered_output(ctx.arrived(), ctx.chunks_dispatched()),
{
    if ctx.next_expected() < ctx.chunks_dispatched() {
        let id = ctx.next_expected() as usize;
        assert(!ctx.in_flight().contains(id));
        assert(ctx.arrived().contains_key(id));
    }
    assert forall|id: usize| id < ctx.chunks_dispatched()
        implies #[trigger] ctx.arrived().contains_key(id) && ctx.arrived()[id] is Ok by {
        assert(!ctx.in_flight().contains(id));
    }
    assert forall|id: usize| !ctx.buffered().contains(id) by {
        if ctx.buffered().contains(id) {
            assert(ctx.arrived().contains_key(id));
        }
    }
    assert(ctx.buffered() =~= Set::<usize>::empty());
}

/// The first `k` released payloads are the first `k` chunks, each transformed.
proof fn lemma_ordered_output_is_sequential<S: TokenizationStrategy>(
    arrived: Map<usize, Result<Seq<u8>, ChunkError>>,
    strategy: S,
    chunks: Seq<Seq<u8>>,
    k: nat,
)
    requires
        k <= chunks.len(),
        chunks.len() <= usize::MAX + 1,
        forall|i: int| 0 <= i < chunks.len()
            ==> #[trigger] arrived[i as usize] == Ok::<Seq<u8>, ChunkError>(strategy.transform(chunks[i])),
    ensures
        ordered_output(arrived, k) == sequential_output(strategy, chunks.take(k as int)),
    decreases k,
{
    let f = |c: Seq<u8>| strategy.transform(c);
    if k == 0 {
        assert(chunks.take(0).map_values(f) =~= Seq::<Seq<u8>>::empty());
    } else {
        let j = (k - 1) as int;
        lemma_ordered_output_is_sequential(arrived, strategy, chunks, (k - 1) as nat);
        assert(arrived[j as usize] == Ok::<Seq<u8>, ChunkError>(strategy.transform(chunks[j])));
        assert(chunks.take(k as int).map_values(f) =~= chunks.take(j).map_values(f).push(strategy.transform(chunks[j])));
        chunks.take(j).map_values(f).lemma_flatten_push(strategy.transform(chunks[j]));
    }
}

/// Order preservation: when a run ends without failure, the released bytes are what a
/// strictly sequential run produces (each chunk transformed, in input order), whatever
/// the worker bound and whatever order the workers finished in.
pub proof fn lemma_order_preserved<S: TokenizationStrategy>(
    ctx: &ProcessingContext,
    strategy: S,
    chunks: Seq<Seq<u8>>,
)
    requires
        ctx.wf(),
        !ctx.has_failed(),
        ctx.input_exhausted(),
        ctx.in_flight().is_empty(),
        chunks.len() == ctx.chunks_dispatched(),
        forall|i: int| 0 <= i < chunks.len()
            ==> #[trigger] ctx.arrived()[i as usize] == Ok::<Seq<u8>, ChunkError>(strategy.transform(chunks[i])),
    ensures
        ctx.emitted() == sequential_output(strategy, chunks),
{
    lemma_all_released(ctx);
    lemma_ordered_output_is_sequential(ctx.arrived(), strategy, chunks, chunks.len());
    assert(chunks.take(chunks.len() as int) =~= chunks);
}

} // verus!
