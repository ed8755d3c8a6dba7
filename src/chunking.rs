//! The chunk-size planner: one chunk size for the whole run, from an explicit
//! request or from the installed memory, the memory cap and the worker count.

use crate::CoreConfig;
use vstd::prelude::*;

verus! {

/// Lower end of the range a computed size is first held to (1 MiB).
pub const DEFAULT_MIN_CHUNK_SIZE_BYTES: usize = 1048576;
/// Upper end of the range a computed size is first held to (16 MiB).
pub const DEFAULT_MAX_CHUNK_SIZE_BYTES: usize = 16777216;
/// No chunk size is ever below this (256 KiB).
pub const ABSOLUTE_MIN_CHUNK_SIZE: usize = 262144;
/// No chunk size is ever above this (128 MiB).
pub const ABSOLUTE_MAX_CHUNK_SIZE: usize = 134217728;

/// `x` held to `[lo, hi]`.
pub open spec fn clamp(x: int, lo: int, hi: int) -> int {
    if x < lo {
        lo
    } else if x > hi {
        hi
    } else {
        x
    }
}

/// The size computed from memory: the capped share of `total_memory`, split among
/// the workers and divided by 4, held to the default range and then to the
/// absolute one.
pub open spec fn memory_chunk_size(total_memory: nat, mem_cap_percent: nat, workers: nat) -> int {
    let usable = total_memory * mem_cap_percent / 100;
    let per_worker = usable / workers;
    clamp(
        clamp(
            (per_worker / 4) as int,
            DEFAULT_MIN_CHUNK_SIZE_BYTES as int,
            DEFAULT_MAX_CHUNK_SIZE_BYTES as int,
        ),
        ABSOLUTE_MIN_CHUNK_SIZE as int,
        ABSOLUTE_MAX_CHUNK_SIZE as int,
    )
}

/// The planned chunk size: an explicit request held to the absolute range, else the
/// size computed from memory.
pub open spec fn planned_chunk_size(
    cli_chunk_size: Option<usize>,
    workers: nat,
    mem_cap_percent: nat,
    total_memory: nat,
) -> int {
    match cli_chunk_size {
        Some(size) => clamp(size as int, ABSOLUTE_MIN_CHUNK_SIZE as int, ABSOLUTE_MAX_CHUNK_SIZE as int),
        None => memory_chunk_size(total_memory, mem_cap_percent, workers),
    }
}

fn clamp_usize(x: u128, lo: usize, hi: usize) -> (r: usize)
    requires
        lo <= hi,
    ensures
        r as int == clamp(x as int, lo as int, hi as int),
{
    if x < lo as u128 {
        lo
    } else if x > hi as u128 {
        hi
    } else {
        x as usize
    }
}

/// The chunk size for a run, given the installed memory in bytes.
pub fn plan_chunk_size(
    cli_chunk_size: Option<usize>,
    num_threads: usize,
    mem_cap_percent: u8,
    total_memory: u64,
) -> (r: usize)
    requires
        num_threads >= 1,
    ensures
        r as int == planned_chunk_size(cli_chunk_size, num_threads as nat, mem_cap_percent as nat, total_memory as nat),
        ABSOLUTE_MIN_CHUNK_SIZE <= r <= ABSOLUTE_MAX_CHUNK_SIZE,
{
    match cli_chunk_size {
        Some(size) => clamp_usize(size as u128, ABSOLUTE_MIN_CHUNK_SIZE, ABSOLUTE_MAX_CHUNK_SIZE),
        None => {
            let total = total_memory as u128;
            let cap = mem_cap_percent as u128;
            assert(total * cap <= 18446744073709551615u128 * 255) by (nonlinear_arith)
                requires total <= 18446744073709551615u128, cap <= 255;
            let usable = total * cap / 100;
            let per_worker = usable / (num_threads as u128);
            let computed = clamp_usize(per_worker / 4, DEFAULT_MIN_CHUNK_SIZE_BYTES, DEFAULT_MAX_CHUNK_SIZE_BYTES);
            clamp_usize(computed as u128, ABSOLUTE_MIN_CHUNK_SIZE, ABSOLUTE_MAX_CHUNK_SIZE)
        },
    }
}

/// Relies on sysinfo's `System::new_all`, `System::refresh_memory` and
/// `System::total_memory`: the installed RAM in bytes, as the host reports it.
#[verifier::external_body]
fn installed_memory_bytes() -> (r: u64) {
    let mut sys = sysinfo::System::new_all();
    sys.refresh_memory();
    sys.total_memory()
}

/// The chunk size for a run with this configuration. Without an explicit size it
/// reads the host's installed memory; whatever that reads, the size is the planned
/// one for some memory amount and lies in `[256 KiB, 128 MiB]`.
pub fn get_effective_chunk_size(config: &CoreConfig) -> (r: usize)
    requires
        config.num_threads >= 1,
    ensures
        ABSOLUTE_MIN_CHUNK_SIZE <= r <= ABSOLUTE_MAX_CHUNK_SIZE,
        config.cli_chunk_size is Some ==> r as int == planned_chunk_size(
            config.cli_chunk_size,
            config.num_threads as nat,
            config.mem_cap_percent as nat,
            0,
        ),
        exists|m: u64| r as int == planned_chunk_size(
            config.cli_chunk_size,
            config.num_threads as nat,
            config.mem_cap_percent as nat,
            m as nat,
        ),
{
    let total_memory: u64 = match config.cli_chunk_size {
        Some(_) => 0,
        None => installed_memory_bytes(),
    };
    plan_chunk_size(config.cli_chunk_size, config.num_threads, config.mem_cap_percent, total_memory)
}

/// Clamping of an explicit request: below 256 KiB it is raised to 256 KiB, above
/// 128 MiB it is lowered to 128 MiB, and in between (5 MiB, say) it is kept.
pub proof fn lemma_explicit_size_clamped(size: usize, workers: nat, mem_cap_percent: nat, total_memory: nat)
    ensures
        size < ABSOLUTE_MIN_CHUNK_SIZE ==> planned_chunk_size(Some(size), workers, mem_cap_percent, total_memory)
            == ABSOLUTE_MIN_CHUNK_SIZE,
        size > ABSOLUTE_MAX_CHUNK_SIZE ==> planned_chunk_size(Some(size), workers, mem_cap_percent, total_memory)
            == ABSOLUTE_MAX_CHUNK_SIZE,
        ABSOLUTE_MIN_CHUNK_SIZE <= size <= ABSOLUTE_MAX_CHUNK_SIZE ==> planned_chunk_size(
            Some(size),
            workers,
            mem_cap_percent,
            total_memory,
        ) == size,
        planned_chunk_size(Some(5242880), workers, mem_cap_percent, total_memory) == 5242880,
{
}

/// The planner is a function of the configuration and the installed memory alone:
/// the same configuration on a host with the same memory gets the same chunk size.
pub proof fn lemma_plan_repeatable(a: CoreConfig, b: CoreConfig, memory_a: nat, memory_b: nat)
    requires
        a.cli_chunk_size == b.cli_chunk_size,
        a.num_threads == b.num_threads,
        a.mem_cap_percent == b.mem_cap_percent,
        memory_a == memory_b,
    ensures
        planned_chunk_size(a.cli_chunk_size, a.num_threads as nat, a.mem_cap_percent as nat, memory_a)
            == planned_chunk_size(b.cli_chunk_size, b.num_threads as nat, b.mem_cap_percent as nat, memory_b),
{
}

} // verus!
