use blt_core::chunking::{
    get_effective_chunk_size, plan_chunk_size, ABSOLUTE_MAX_CHUNK_SIZE, ABSOLUTE_MIN_CHUNK_SIZE,
    DEFAULT_MAX_CHUNK_SIZE_BYTES, DEFAULT_MIN_CHUNK_SIZE_BYTES,
};
use blt_core::CoreConfig;

fn create_test_config(
    cli_chunk_size: Option<usize>,
    num_threads: usize,
    mem_cap_percent: u8,
) -> CoreConfig {
    CoreConfig {
        input: None,
        output: None,
        merges_file: None,
        content_type: None,
        num_threads,
        cli_chunk_size,
        mem_cap_percent,
        bpe_data: None,
        passthrough: false,
    }
}

#[test]
fn test_get_effective_chunk_size_cli_override() {
    let config = create_test_config(Some(5 * 1024 * 1024), 4, 80);
    assert_eq!(get_effective_chunk_size(&config), 5 * 1024 * 1024);

    // Test clamping with CLI override
    let config_too_small = create_test_config(Some(10 * 1024), 4, 80); // 10KB
    assert_eq!(
        get_effective_chunk_size(&config_too_small),
        ABSOLUTE_MIN_CHUNK_SIZE
    );

    let config_too_large = create_test_config(Some(200 * 1024 * 1024), 4, 80); // 200MB
    assert_eq!(
        get_effective_chunk_size(&config_too_large),
        ABSOLUTE_MAX_CHUNK_SIZE
    );
}

#[test]
fn test_get_effective_chunk_size_dynamic() {
    // Depends on the host's RAM: only the bounds can be checked.
    let config = create_test_config(None, 4, 80); // Auto, 4 threads, 80% mem cap
    let dynamic_size = get_effective_chunk_size(&config);

    println!("Dynamic chunk size calculated: {} bytes", dynamic_size);

    assert!(dynamic_size >= DEFAULT_MIN_CHUNK_SIZE_BYTES.min(ABSOLUTE_MIN_CHUNK_SIZE));
    assert!(dynamic_size <= DEFAULT_MAX_CHUNK_SIZE_BYTES.max(ABSOLUTE_MAX_CHUNK_SIZE));
    assert!(dynamic_size >= ABSOLUTE_MIN_CHUNK_SIZE);
    assert!(dynamic_size <= ABSOLUTE_MAX_CHUNK_SIZE);

    let config_low_mem_cap = create_test_config(None, 4, 1); // 1% mem cap
    let dynamic_size_low_mem = get_effective_chunk_size(&config_low_mem_cap);
    println!(
        "Dynamic chunk size (low mem cap): {} bytes",
        dynamic_size_low_mem
    );
    assert!(dynamic_size_low_mem <= DEFAULT_MAX_CHUNK_SIZE_BYTES);
    assert!(dynamic_size_low_mem >= ABSOLUTE_MIN_CHUNK_SIZE);

    let config_many_threads = create_test_config(None, 128, 80); // 128 threads
    let dynamic_size_many_threads = get_effective_chunk_size(&config_many_threads);
    println!(
        "Dynamic chunk size (many threads): {} bytes",
        dynamic_size_many_threads
    );
    assert!(dynamic_size_many_threads <= DEFAULT_MAX_CHUNK_SIZE_BYTES);
    assert!(dynamic_size_many_threads >= ABSOLUTE_MIN_CHUNK_SIZE);
}

#[test]
fn clamping_of_explicit_sizes() {
    assert_eq!(plan_chunk_size(Some(1), 1, 80, 0), 256 * 1024);
    assert_eq!(plan_chunk_size(Some(256 * 1024 - 1), 1, 80, 0), 256 * 1024);
    assert_eq!(plan_chunk_size(Some(256 * 1024), 1, 80, 0), 256 * 1024);
    assert_eq!(plan_chunk_size(Some(5 * 1024 * 1024), 1, 80, 0), 5 * 1024 * 1024);
    assert_eq!(plan_chunk_size(Some(128 * 1024 * 1024), 7, 3, 9), 128 * 1024 * 1024);
    assert_eq!(plan_chunk_size(Some(128 * 1024 * 1024 + 1), 1, 80, 0), 128 * 1024 * 1024);
    assert_eq!(plan_chunk_size(Some(usize::MAX), 1, 80, 0), 128 * 1024 * 1024);
}

#[test]
fn planned_size_from_memory() {
    let gib: u64 = 1024 * 1024 * 1024;
    // 16 GiB * 80% / 4 workers / 4 = 858993459 bytes, held to 16 MiB.
    assert_eq!(plan_chunk_size(None, 4, 80, 16 * gib), 16 * 1024 * 1024);
    // 1 GiB * 50% / 64 / 4 = 2 MiB, inside the default range.
    assert_eq!(plan_chunk_size(None, 64, 50, gib), 2 * 1024 * 1024);
    // 1 GiB * 10% / 8 / 4 = 3355443 bytes (integer division).
    assert_eq!(plan_chunk_size(None, 8, 10, gib), 3355443);
    // No memory reported: the default floor of 1 MiB.
    assert_eq!(plan_chunk_size(None, 4, 80, 0), 1024 * 1024);
    // Largest memory and cap: no overflow, held to 16 MiB.
    assert_eq!(plan_chunk_size(None, 1, 255, u64::MAX), 16 * 1024 * 1024);
}

#[test]
fn planner_repeats_itself() {
    let a = plan_chunk_size(None, 3, 70, 12345678901);
    let b = plan_chunk_size(None, 3, 70, 12345678901);
    assert_eq!(a, b);
    let config = create_test_config(None, 2, 80);
    assert_eq!(get_effective_chunk_size(&config), get_effective_chunk_size(&config));
}
