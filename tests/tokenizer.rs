use blt_core::merges::BpeMerges;
use blt_core::tokenizer::{
    BasicTokenizationStrategy, BpeStrategy, PassthroughStrategy, TokenizationStrategy,
};
use std::sync::Arc;

fn u8_slice_to_u16_vec(slice: &[u8]) -> Vec<u16> {
    slice.iter().map(|&b| b as u16).collect()
}

fn u16_vec_to_byte_vec(tokens: &[u16]) -> Vec<u8> {
    tokens.iter().flat_map(|&t| t.to_be_bytes()).collect()
}

fn create_bpe_strategy(pairs: Vec<((u16, u16), u16)>) -> BpeStrategy {
    let mut merges = BpeMerges::new();
    for ((a, b), t) in pairs {
        merges.insert(a, b, t);
    }
    BpeStrategy::new(Arc::new(merges))
}

#[test]
fn test_bpe_strategy_no_merges() {
    let strategy = create_bpe_strategy(vec![]);
    let chunk = b"abcdef";
    let expected_tokens = u8_slice_to_u16_vec(b"abcdef");

    let result = strategy.process_chunk(chunk).unwrap();
    assert_eq!(result, u16_vec_to_byte_vec(&expected_tokens));
}

#[test]
fn test_bpe_strategy_simple_merge() {
    let strategy = create_bpe_strategy(vec![((97, 98), 256)]);
    let chunk = b"abcab";
    let expected_tokens = vec![256, 99, 256];

    let result = strategy.process_chunk(chunk).unwrap();
    assert_eq!(result, u16_vec_to_byte_vec(&expected_tokens));
}

#[test]
fn scenario_a_exact_bytes() {
    let strategy = create_bpe_strategy(vec![((97, 98), 256)]);
    let result = strategy.process_chunk(b"abcab").unwrap();
    assert_eq!(result, vec![0x01, 0x00, 0x00, 0x63, 0x01, 0x00]);
}

#[test]
fn test_bpe_strategy_multiple_merges() {
    let strategy = create_bpe_strategy(vec![((97, 98), 256), ((99, 100), 257)]);
    let chunk = b"abcdab";
    let expected_tokens = vec![256, 257, 256];

    let result = strategy.process_chunk(chunk).unwrap();
    assert_eq!(result, u16_vec_to_byte_vec(&expected_tokens));
}

#[test]
fn test_bpe_strategy_iterative_merging() {
    let strategy = create_bpe_strategy(vec![((97, 98), 256), ((256, 99), 257)]);
    let chunk = b"abcde";
    let expected_tokens = vec![257, 100, 101];

    let result = strategy.process_chunk(chunk).unwrap();
    assert_eq!(result, u16_vec_to_byte_vec(&expected_tokens));
}

#[test]
fn test_bpe_strategy_no_possible_merges() {
    let strategy = create_bpe_strategy(vec![((97, 98), 256)]);
    let chunk = b"xyz123";
    let expected_tokens = u8_slice_to_u16_vec(b"xyz123");

    let result = strategy.process_chunk(chunk).unwrap();
    assert_eq!(result, u16_vec_to_byte_vec(&expected_tokens));
}

#[test]
fn test_bpe_strategy_empty_input() {
    let strategy = create_bpe_strategy(vec![((97, 98), 256)]);
    let chunk = b"";
    let expected_tokens: Vec<u16> = vec![];

    let result = strategy.process_chunk(chunk).unwrap();
    assert_eq!(result, u16_vec_to_byte_vec(&expected_tokens));
}

#[test]
fn test_bpe_strategy_single_byte_input_cannot_merge() {
    let strategy = create_bpe_strategy(vec![((97, 98), 256)]);
    let chunk = b"a";
    let expected_tokens = vec![97u16];

    let result = strategy.process_chunk(chunk).unwrap();
    assert_eq!(result, u16_vec_to_byte_vec(&expected_tokens));
}

#[test]
fn test_basic_tokenization_strategy() {
    let strategy = BasicTokenizationStrategy;
    let chunk = b"abc";
    // 'a' = 97, 'b' = 98, 'c' = 99
    // As u16 big-endian bytes: [0, 97, 0, 98, 0, 99]
    let expected_bytes = vec![0, 97, 0, 98, 0, 99];

    let result = strategy.process_chunk(chunk).unwrap();
    assert_eq!(result, expected_bytes);
}

#[test]
fn test_basic_tokenization_strategy_empty() {
    let strategy = BasicTokenizationStrategy;
    let chunk = b"";
    let expected_bytes: Vec<u8> = vec![];

    let result = strategy.process_chunk(chunk).unwrap();
    assert_eq!(result, expected_bytes);
}

#[test]
fn test_passthrough_strategy() {
    let strategy = PassthroughStrategy;
    let chunk = b"ab c";
    let expected_bytes = chunk.to_vec();

    let result = strategy.process_chunk(chunk).unwrap();
    assert_eq!(result, expected_bytes);
}

#[test]
fn passthrough_round_trip_all_bytes_and_empty() {
    let all: Vec<u8> = (0u8..=255).collect();
    assert_eq!(PassthroughStrategy.process_chunk(&all).unwrap(), all);
    assert_eq!(PassthroughStrategy.process_chunk(b"").unwrap(), Vec::<u8>::new());
}

#[test]
fn test_bpe_strategy_merge_produces_byte_value() {
    let strategy = create_bpe_strategy(vec![((120, 121), 90)]);
    let chunk = b"axyza";
    let expected_tokens = vec![97, 90, 122, 97];

    let result = strategy.process_chunk(chunk).unwrap();
    assert_eq!(result, u16_vec_to_byte_vec(&expected_tokens));
}

#[test]
fn bpe_pass_is_greedy_and_non_overlapping() {
    // "aaa" with (a,a) -> 300: the first pass merges positions 0-1 only.
    let strategy = create_bpe_strategy(vec![((97, 97), 300)]);
    let result = strategy.process_chunk(b"aaa").unwrap();
    assert_eq!(result, u16_vec_to_byte_vec(&[300, 97]));
    // "aaaa": two merges in pass one, then (300,300) has no rule.
    let result = strategy.process_chunk(b"aaaa").unwrap();
    assert_eq!(result, u16_vec_to_byte_vec(&[300, 300]));
}

#[test]
fn bpe_no_rule_applies_gives_widened_input() {
    let strategy = create_bpe_strategy(vec![((1, 2), 400), ((255, 0), 401)]);
    let chunk = [2u8, 1, 0, 255, 7];
    let result = strategy.process_chunk(&chunk).unwrap();
    let widened = BasicTokenizationStrategy.process_chunk(&chunk).unwrap();
    assert_eq!(result, widened);
    assert_eq!(result, vec![0, 2, 0, 1, 0, 0, 0, 255, 0, 7]);
}

#[test]
fn bpe_high_token_serialized_big_endian() {
    let strategy = create_bpe_strategy(vec![((0, 1), 0xABCD)]);
    let result = strategy.process_chunk(&[0, 1, 1]).unwrap();
    assert_eq!(result, vec![0xAB, 0xCD, 0x00, 0x01]);
}

#[test]
fn merge_table_operations() {
    let mut m = BpeMerges::new();
    assert_eq!(m.len(), 0);
    m.insert(97, 98, 256);
    m.insert(65535, 65535, 7);
    assert_eq!(m.get(97, 98), Some(256));
    assert_eq!(m.get(98, 97), None);
    assert_eq!(m.get(65535, 65535), Some(7));
    m.insert(97, 98, 300);
    assert_eq!(m.get(97, 98), Some(300));
    assert_eq!(m.len(), 2);
}
