use blt_core::utils::{determine_thread_count, parse_chunk_size_str, ChunkSizeError};

#[test]
fn test_parse_chunk_size_str_valid() {
    assert_eq!(parse_chunk_size_str("1024"), Ok(1024));
    assert_eq!(parse_chunk_size_str("1kb"), Ok(1024));
    assert_eq!(parse_chunk_size_str("1KB"), Ok(1024));
    assert_eq!(parse_chunk_size_str("2mb"), Ok(2 * 1024 * 1024));
    assert_eq!(parse_chunk_size_str("2MB"), Ok(2 * 1024 * 1024));
    assert_eq!(parse_chunk_size_str("10MB "), Ok(10 * 1024 * 1024)); // With space
}

#[test]
fn test_parse_chunk_size_str_invalid() {
    assert!(parse_chunk_size_str("1gb").is_err());
    assert!(parse_chunk_size_str("mb1").is_err());
    assert!(parse_chunk_size_str("1024b").is_err());
    assert!(parse_chunk_size_str("").is_err());
    assert!(parse_chunk_size_str("abc").is_err());
    assert!(parse_chunk_size_str("10.5MB").is_err());
    assert!(parse_chunk_size_str("KB").is_err()); // Unit only
    assert!(parse_chunk_size_str(" MB").is_err()); // Unit only with space
}

#[test]
fn parse_chunk_size_error_kinds() {
    assert_eq!(parse_chunk_size_str("   "), Err(ChunkSizeError::Empty));
    assert_eq!(parse_chunk_size_str("1gb"), Err(ChunkSizeError::InvalidFormat));
    assert_eq!(parse_chunk_size_str(" MB"), Err(ChunkSizeError::MissingNumber));
    assert_eq!(parse_chunk_size_str("10.5MB"), Err(ChunkSizeError::InvalidNumber));
    assert_eq!(
        parse_chunk_size_str("99999999999999999999"),
        Err(ChunkSizeError::InvalidNumber)
    );
    assert_eq!(
        parse_chunk_size_str("18446744073709551615MB"),
        Err(ChunkSizeError::TooLarge)
    );
}

#[test]
fn parse_chunk_size_edge_forms() {
    assert_eq!(parse_chunk_size_str("+4KB"), Ok(4096));
    assert_eq!(parse_chunk_size_str("+4"), Err(ChunkSizeError::InvalidFormat));
    assert_eq!(parse_chunk_size_str("\t256kB\n"), Ok(256 * 1024));
    assert_eq!(parse_chunk_size_str("\u{3000}3Mb\u{a0}"), Ok(3 * 1024 * 1024));
    assert_eq!(parse_chunk_size_str("0"), Ok(0));
    assert_eq!(parse_chunk_size_str("18446744073709551615"), Ok(usize::MAX));
}

#[test]
fn test_determine_thread_count_override() {
    assert_eq!(determine_thread_count(Some(4)), 4);
    assert_eq!(determine_thread_count(Some(1)), 1);
    assert_eq!(
        determine_thread_count(Some(0)),
        1,
        "Should default to 1 if 0 is specified"
    );
}

#[test]
fn test_determine_thread_count_auto() {
    let cores = num_cpus::get();
    let expected_cores = if cores > 0 { cores } else { 1 };
    assert_eq!(determine_thread_count(None), expected_cores);
}
