use blt_core::io_handler::chunk_ranges;
use blt_core::merges::BpeMerges;
use blt_core::pipeline::{PipelineAction, ProcessingContext};
use blt_core::tokenizer::{
    BasicTokenizationStrategy, BpeStrategy, ChunkError, PassthroughStrategy, TokenizationStrategy,
};
use blt_core::{prepend_content_type_token, ContentType, Strategy};
use std::sync::Arc;

struct Lcg(u64);

impl Lcg {
    fn next(&mut self) -> u64 {
        self.0 = self.0.wrapping_mul(6364136223846793005).wrapping_add(1442695040888963407);
        self.0 >> 33
    }
}

fn random_bytes(len: usize, seed: u64) -> Vec<u8> {
    let mut g = Lcg(seed);
    // A small alphabet makes merge rules fire often.
    (0..len).map(|_| b"abcdefgh"[(g.next() % 8) as usize]).collect()
}

fn table_37() -> BpeMerges {
    let mut m = BpeMerges::new();
    let mut next = 256u16;
    for a in b"abcdefgh" {
        for b in b"abcd" {
            if next < 256 + 32 {
                m.insert(*a as u16, *b as u16, next);
                next += 1;
            }
        }
    }
    m.insert(256, 257, next);
    m.insert(258, 259, next + 1);
    m.insert(260, 261, next + 2);
    m.insert(262, 263, next + 3);
    m.insert(next, next + 1, next + 4);
    assert_eq!(m.len(), 37);
    m
}

/// Drives the ordering core over mapped chunks, completing them in a pseudo-random
/// order, and returns what was released.
fn run_mapped<S: TokenizationStrategy>(
    input: &[u8],
    chunk_size: usize,
    workers: usize,
    strategy: &S,
    seed: u64,
    fail_at: Option<usize>,
) -> (Vec<u8>, Option<ChunkError>) {
    let ranges = chunk_ranges(input.len(), chunk_size);
    let mut ctx = ProcessingContext::new(workers);
    let mut g = Lcg(seed);
    let mut next = 0usize;
    let mut pending: Vec<(usize, Result<Vec<u8>, ChunkError>)> = Vec::new();
    let mut out = Vec::new();
    loop {
        match ctx.next_action() {
            PipelineAction::Fill => {
                if next < ranges.len() {
                    let id = ctx.dispatch_next();
                    let (start, len) = ranges[next];
                    next += 1;
                    let result = if fail_at == Some(id) {
                        Err(ChunkError { message: format!("chunk {id} failed") })
                    } else {
                        strategy.process_chunk(&input[start..start + len])
                    };
                    pending.push((id, result));
                    assert!(pending.len() <= workers);
                } else {
                    ctx.mark_input_exhausted();
                }
                continue;
            }
            PipelineAction::Finish => {
                assert!(ctx.is_work_done());
                assert!(ctx.is_all_work_truly_done());
                break;
            }
            PipelineAction::Abort => panic!("unexpected abort"),
            PipelineAction::Drain => {}
        }
        let k = (g.next() as usize) % pending.len();
        let (id, result) = pending.swap_remove(k);
        assert!(ctx.is_in_flight(id));
        let (ready, error) = ctx.accept_result(id, result);
        for chunk in ready {
            out.extend_from_slice(&chunk);
        }
        if error.is_some() {
            assert_eq!(ctx.next_action(), PipelineAction::Abort);
            return (out, error);
        }
    }
    (out, None)
}

/// Drives the ordering core over a stream whose reads return the given sizes.
fn run_streamed<S: TokenizationStrategy>(
    input: &[u8],
    chunk_size: usize,
    read_sizes: &[usize],
    workers: usize,
    strategy: &S,
) -> Vec<u8> {
    let mut ctx = ProcessingContext::new(workers);
    let mut pos = 0usize;
    let mut r = 0usize;
    let mut pending: Vec<(usize, Result<Vec<u8>, ChunkError>)> = Vec::new();
    let mut out = Vec::new();
    loop {
        while ctx.can_dispatch() {
            let mut buffer = vec![0u8; chunk_size];
            let want = read_sizes[r % read_sizes.len()].min(chunk_size);
            r += 1;
            let n = want.min(input.len() - pos);
            buffer[..n].copy_from_slice(&input[pos..pos + n]);
            pos += n;
            if let Some((id, chunk)) = ctx.admit_read(buffer, n) {
                assert_eq!(chunk.len(), n);
                pending.push((id, strategy.process_chunk(&chunk)));
            }
        }
        if ctx.is_work_done() {
            break;
        }
        // Complete the newest first: the reverse of dispatch order.
        let (id, result) = pending.pop().unwrap();
        let (ready, error) = ctx.accept_result(id, result);
        assert!(error.is_none());
        for chunk in ready {
            out.extend_from_slice(&chunk);
        }
    }
    out
}

fn sequential<S: TokenizationStrategy>(input: &[u8], chunk_size: usize, strategy: &S) -> Vec<u8> {
    let mut out = Vec::new();
    for (start, len) in chunk_ranges(input.len(), chunk_size) {
        out.extend_from_slice(&strategy.process_chunk(&input[start..start + len]).unwrap());
    }
    out
}

#[test]
fn chunk_ranges_cover_input() {
    assert_eq!(chunk_ranges(0, 4), vec![]);
    assert_eq!(chunk_ranges(3, 4), vec![(0, 3)]);
    assert_eq!(chunk_ranges(8, 4), vec![(0, 4), (4, 4)]);
    assert_eq!(chunk_ranges(10, 4), vec![(0, 4), (4, 4), (8, 2)]);
    assert_eq!(chunk_ranges(usize::MAX, usize::MAX - 1), vec![(0, usize::MAX - 1), (usize::MAX - 1, 1)]);
}

#[test]
fn order_preserved_for_any_worker_count() {
    let input = random_bytes(20_000, 7);
    let strategy = BpeStrategy::new(Arc::new(table_37()));
    let expected = sequential(&input, 64, &strategy);
    for workers in [1usize, 2, 3, 8, 64] {
        for seed in 0..4u64 {
            let (out, err) = run_mapped(&input, 64, workers, &strategy, seed, None);
            assert!(err.is_none());
            assert_eq!(out, expected, "workers {workers}, seed {seed}");
        }
    }
}

#[test]
fn scenario_d_one_worker_against_sixty_four() {
    // 2 MB instead of 50 MB keeps the test quick; chunks are the 256 KiB floor.
    let input = random_bytes(2 * 1024 * 1024, 42);
    let strategy = BpeStrategy::new(Arc::new(table_37()));
    let (one, e1) = run_mapped(&input, 256 * 1024, 1, &strategy, 1, None);
    let (many, e2) = run_mapped(&input, 256 * 1024, 64, &strategy, 2, None);
    assert!(e1.is_none() && e2.is_none());
    assert_eq!(one, many);
    assert!(one.len() < 2 * input.len());
}

#[test]
fn scenario_e_mapped_against_streaming() {
    let input = random_bytes(10_000, 3);
    // Full reads: the same chunks as the mapped path, for every strategy.
    let bpe = BpeStrategy::new(Arc::new(table_37()));
    assert_eq!(run_streamed(&input, 512, &[512], 4, &bpe), sequential(&input, 512, &bpe));
    // Short reads: byte widening and passthrough do not depend on the cut.
    let reads = [1usize, 300, 17, 512, 2];
    assert_eq!(
        run_streamed(&input, 512, &reads, 3, &BasicTokenizationStrategy),
        sequential(&input, 512, &BasicTokenizationStrategy)
    );
    assert_eq!(run_streamed(&input, 512, &reads, 3, &PassthroughStrategy), input);
}

#[test]
fn passthrough_pipeline_round_trip() {
    for len in [0usize, 1, 999, 1000, 1001] {
        let input = random_bytes(len, len as u64);
        let (out, err) = run_mapped(&input, 100, 4, &PassthroughStrategy, 9, None);
        assert!(err.is_none());
        assert_eq!(out, input);
    }
}

#[test]
fn scenario_c_empty_input_with_tag() {
    let mut output = prepend_content_type_token(Some(ContentType::Text));
    let strategy = Strategy::Bpe(BpeStrategy::new(Arc::new(table_37())));
    let (body, err) = run_mapped(b"", 1024, 4, &strategy, 0, None);
    assert!(err.is_none());
    output.extend_from_slice(&body);
    assert_eq!(output, vec![0xFF, 0x01]);
}

#[test]
fn failed_chunk_stops_output_at_its_turn() {
    let input = random_bytes(1000, 5);
    let expected = sequential(&input, 100, &PassthroughStrategy);
    for seed in 0..6u64 {
        let (out, err) = run_mapped(&input, 100, 4, &PassthroughStrategy, seed, Some(3));
        assert_eq!(err.unwrap().message, "chunk 3 failed");
        assert_eq!(out, expected[..300].to_vec());
    }
}

#[test]
fn reorder_buffer_holds_early_results() {
    let mut ctx = ProcessingContext::new(3);
    let a = ctx.dispatch_next();
    let b = ctx.dispatch_next();
    let c = ctx.dispatch_next();
    assert_eq!((a, b, c), (0, 1, 2));
    assert!(!ctx.can_dispatch());
    let (ready, err) = ctx.accept_result(2, Ok(vec![3]));
    assert!(ready.is_empty() && err.is_none());
    assert!(ctx.can_dispatch());
    let (ready, err) = ctx.accept_result(1, Ok(vec![2]));
    assert!(ready.is_empty() && err.is_none());
    let (ready, err) = ctx.accept_result(0, Ok(vec![1]));
    assert!(err.is_none());
    assert_eq!(ready, vec![vec![1], vec![2], vec![3]]);
    assert!(!ctx.is_work_done());
    assert!(ctx.no_tasks_running_and_input_available());
    assert_eq!(ctx.admit_read(vec![9, 9, 9], 0), None);
    assert!(ctx.is_work_done());
    assert!(ctx.is_all_work_truly_done());
    assert!(!ctx.can_dispatch());
}

#[test]
fn admit_read_truncates_to_bytes_read() {
    let mut ctx = ProcessingContext::new(1);
    assert!(ctx.no_tasks_running_and_input_available());
    assert_eq!(ctx.admit_read(vec![5, 6, 7, 8], 2), Some((0, vec![5, 6])));
    assert!(!ctx.can_dispatch());
    assert!(ctx.is_in_flight(0));
    assert!(!ctx.is_in_flight(1));
}
