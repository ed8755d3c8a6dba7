//! Parsing of human-readable sizes and of decimal numbers, and the worker count.

use vstd::prelude::*;
use vstd::utf8::encode_utf8;

verus! {

/// An ASCII decimal digit.
pub open spec fn is_digit(b: u8) -> bool {
    48 <= b && b <= 57
}

/// Every byte is a decimal digit.
pub open spec fn all_digits(t: Seq<u8>) -> bool {
    forall|i: int| 0 <= i < t.len() ==> is_digit(#[trigger] t[i])
}

/// The value of a string of decimal digits.
pub open spec fn digits_value(t: Seq<u8>) -> nat
    decreases t.len(),
{
    if t.len() == 0 {
        0
    } else {
        digits_value(t.drop_last()) * 10 + (t.last() - 48) as nat
    }
}

/// The digits of an unsigned number: the text without one leading `+`.
pub open spec fn unsigned_digits(t: Seq<u8>) -> Seq<u8> {
    if t.len() > 0 && t[0] == 43 {
        t.drop_first()
    } else {
        t
    }
}

/// An unsigned decimal number no larger than `max`, as Rust's integer parsing reads
/// it: an optional `+`, then one or more digits.
pub open spec fn parsed_number(t: Seq<u8>, max: nat) -> Option<nat> {
    let d = unsigned_digits(t);
    if d.len() > 0 && all_digits(d) && digits_value(d) <= max {
        Some(digits_value(d))
    } else {
        None
    }
}

/// A value only grows as digits are appended.
proof fn lemma_digits_value_prefix(t: Seq<u8>, j: int)
    requires
        0 <= j <= t.len(),
        all_digits(t),
    ensures
        digits_value(t.subrange(0, j)) <= digits_value(t),
    decreases t.len() - j,
{
    if j < t.len() {
        lemma_digits_value_prefix(t, j + 1);
        let p = t.subrange(0, j + 1);
        assert(p.drop_last() =~= t.subrange(0, j));
    } else {
        assert(t.subrange(0, j) =~= t);
    }
}

/// Reads `t[start..end]` as an unsigned decimal number no larger than `max`.
pub fn parse_unsigned(t: &[u8], start: usize, end: usize, max: usize) -> (r: Option<usize>)
    requires
        start <= end <= t@.len(),
    ensures
        r matches Some(v) ==> parsed_number(t@.subrange(start as int, end as int), max as nat) == Some(v as nat),
        r is None ==> parsed_number(t@.subrange(start as int, end as int), max as nat) is None,
{
    let ghost whole = t@.subrange(start as int, end as int);
    let mut i = start;
    if start < end && t[start] == 43 {
        i = start + 1;
    }
    let ghost d = unsigned_digits(whole);
    assert(d =~= t@.subrange(i as int, end as int));
    if i == end {
        return None;
    }
    let mut k = i;
    while k < end
        invariant
            i <= k <= end <= t@.len(),
            d == t@.subrange(i as int, end as int),
            d == unsigned_digits(whole),
            whole == t@.subrange(start as int, end as int),
            forall|j: int| i <= j < k ==> is_digit(#[trigger] t@[j]),
        decreases end - k,
    {
        if t[k] < 48 || t[k] > 57 {
            assert(d[k - i] == t@[k as int]);
            assert(!is_digit(d[k - i]));
            assert(!all_digits(d));
            return None;
        }
        k = k + 1;
    }
    assert forall|j: int| 0 <= j < d.len() implies is_digit(#[trigger] d[j]) by {
        assert(d[j] == t@[i + j]);
    }
    let mut value: usize = 0;
    let mut k = i;
    assert(d.subrange(0, 0) =~= Seq::<u8>::empty());
    while k < end
        invariant
            i <= k <= end <= t@.len(),
            d == t@.subrange(i as int, end as int),
            d == unsigned_digits(whole),
            whole == t@.subrange(start as int, end as int),
            all_digits(d),
            value as nat == digits_value(d.subrange(0, k - i)),
            value <= max,
        decreases end - k,
    {
        proof {
            assert(d[k - i] == t@[k as int]);
            assert(is_digit(d[k - i]));
        }
        let digit = (t[k] - 48) as usize;
        proof {
            let p = d.subrange(0, k - i + 1);
            assert(p.drop_last() =~= d.subrange(0, k - i));
            assert(p.last() == t@[k as int]);
        }
        if digit > max || value > (max - digit) / 10 {
            proof {
                assert(value * 10 + digit > max) by (nonlinear_arith)
                    requires digit > max || value > (max - digit) / 10, value >= 0;
                lemma_digits_value_prefix(d, k - i + 1);
                let p = d.subrange(0, k - i + 1);
                assert(digits_value(p) == digits_value(p.drop_last()) * 10 + (p.last() - 48) as nat);
                assert(digits_value(d) > max);
            }
            return None;
        }
        proof {
            assert(value * 10 + digit <= max) by (nonlinear_arith)
                requires value <= (max - digit) / 10, digit <= 9, value <= max;
        }
        value = value * 10 + digit;
        k = k + 1;
    }
    assert(d.subrange(0, end - i) =~= d);
    Some(value)
}


/// A character with Unicode's White_Space property, as `char::is_whitespace` reads it.
pub open spec fn is_white_space(c: char) -> bool {
    ('\u{9}' <= c && c <= '\u{d}') || c == ' ' || c == '\u{85}' || c == '\u{a0}' || c == '\u{1680}'
        || ('\u{2000}' <= c && c <= '\u{200a}') || c == '\u{2028}' || c == '\u{2029}'
        || c == '\u{202f}' || c == '\u{205f}' || c == '\u{3000}'
}

/// The text without its leading white space.
pub open spec fn trim_start_ws(s: Seq<char>) -> Seq<char>
    decreases s.len(),
{
    if s.len() > 0 && is_white_space(s[0]) {
        trim_start_ws(s.drop_first())
    } else {
        s
    }
}

/// The text without its trailing white space.
pub open spec fn trim_end_ws(s: Seq<char>) -> Seq<char>
    decreases s.len(),
{
    if s.len() > 0 && is_white_space(s.last()) {
        trim_end_ws(s.drop_last())
    } else {
        s
    }
}

/// The text without leading and trailing white space.
pub open spec fn trim_ws(s: Seq<char>) -> Seq<char> {
    trim_end_ws(trim_start_ws(s))
}

/// Relies on `str::trim`: the slice without leading and trailing characters that
/// have the White_Space property.
#[verifier::external_body]
fn trim_str(s: &str) -> (r: &str)
    ensures
        r@ == trim_ws(s@),
{
    s.trim()
}

/// Why a chunk-size text was refused.
#[derive(Clone, Copy, Debug, PartialEq, Eq, Structural)]
pub enum ChunkSizeError {
    /// Nothing but white space.
    Empty,
    /// Neither digits alone nor a number followed by `KB` or `MB`.
    InvalidFormat,
    /// A unit with no number before it.
    MissingNumber,
    /// The part before the unit is not an unsigned number that fits in `usize`.
    InvalidNumber,
    /// The size in bytes does not fit in `usize`.
    TooLarge,
}

impl ChunkSizeError {
    /// A description of the problem, for messages.
    pub fn message(&self) -> &'static str {
        match self {
            ChunkSizeError::Empty => "Input string is empty",
            ChunkSizeError::InvalidFormat => "Invalid unit or format: a number must be followed by KB, MB, or be raw bytes",
            ChunkSizeError::MissingNumber => "Number part missing before the unit",
            ChunkSizeError::InvalidNumber => "Invalid number",
            ChunkSizeError::TooLarge => "Chunk size does not fit in memory addresses",
        }
    }
}

/// `KB` or `MB` at the end, in any letter case: the number of bytes per unit; else 0.
pub open spec fn unit_multiplier(t: Seq<u8>) -> nat {
    if t.len() >= 2 && (t[t.len() - 1] == 66 || t[t.len() - 1] == 98) {
        let u = t[t.len() - 2];
        if u == 75 || u == 107 {
            1024
        } else if u == 77 || u == 109 {
            1048576
        } else {
            0
        }
    } else {
        0
    }
}

/// The size in bytes that a trimmed, UTF-8 encoded text denotes: raw digits are
/// bytes; a number followed by `KB` or `MB` (any case) counts units of 1024 or
/// 1024 * 1024 bytes.
pub open spec fn chunk_size_value(t: Seq<u8>) -> Result<usize, ChunkSizeError> {
    let mult = unit_multiplier(t);
    if t.len() == 0 {
        Err(ChunkSizeError::Empty)
    } else if mult > 0 {
        if t.len() == 2 {
            Err(ChunkSizeError::MissingNumber)
        } else {
            match parsed_number(t.subrange(0, t.len() - 2), usize::MAX as nat) {
                None => Err(ChunkSizeError::InvalidNumber),
                Some(n) => if n * mult <= usize::MAX {
                    Ok((n * mult) as usize)
                } else {
                    Err(ChunkSizeError::TooLarge)
                },
            }
        }
    } else if all_digits(t) {
        match parsed_number(t, usize::MAX as nat) {
            None => Err(ChunkSizeError::InvalidNumber),
            Some(n) => Ok(n as usize),
        }
    } else {
        Err(ChunkSizeError::InvalidFormat)
    }
}

fn unit_of(t: &[u8]) -> (r: usize)
    ensures
        r as nat == unit_multiplier(t@),
{
    let n = t.len();
    if n >= 2 && (t[n - 1] == 66 || t[n - 1] == 98) {
        let u = t[n - 2];
        if u == 75 || u == 107 {
            1024
        } else if u == 77 || u == 109 {
            1048576
        } else {
            0
        }
    } else {
        0
    }
}

fn is_all_digits(t: &[u8]) -> (r: bool)
    ensures
        r == all_digits(t@),
{
    let mut i: usize = 0;
    while i < t.len()
        invariant
            i <= t@.len(),
            forall|j: int| 0 <= j < i ==> is_digit(#[trigger] t@[j]),
        decreases t.len() - i,
    {
        if t[i] < 48 || t[i] > 57 {
            return false;
        }
        i = i + 1;
    }
    true
}

/// Parses a chunk size such as `1024`, `512KB` or `16mb` (white space around it is
/// ignored) into bytes.
pub fn parse_chunk_size_str(s: &str) -> (r: Result<usize, ChunkSizeError>)
    ensures
        r == chunk_size_value(encode_utf8(trim_ws(s@))),
{
    let trimmed = trim_str(s);
    let t = trimmed.as_bytes();
    let n = t.len();
    let ghost spec_t = encode_utf8(trim_ws(s@));
    assert(t@ == spec_t);
    if n == 0 {
        return Err(ChunkSizeError::Empty);
    }
    let mult = unit_of(t);
    if mult > 0 {
        if n == 2 {
            return Err(ChunkSizeError::MissingNumber);
        }
        match parse_unsigned(t, 0, n - 2, usize::MAX) {
            None => {
                assert(chunk_size_value(spec_t) == Err::<usize, ChunkSizeError>(ChunkSizeError::InvalidNumber));
                Err(ChunkSizeError::InvalidNumber)
            },
            Some(v) => {
                if v > usize::MAX / mult {
                    assert(v * mult > usize::MAX) by (nonlinear_arith)
                        requires v > usize::MAX / mult, mult > 0;
                    Err(ChunkSizeError::TooLarge)
                } else {
                    assert(v * mult <= usize::MAX) by (nonlinear_arith)
                        requires v <= usize::MAX / mult, mult > 0;
                    Ok(v * mult)
                }
            },
        }
    } else if is_all_digits(t) {
        match parse_unsigned(t, 0, n, usize::MAX) {
            None => {
                assert(t@.subrange(0, n as int) =~= t@);
                Err(ChunkSizeError::InvalidNumber)
            },
            Some(v) => {
                assert(t@.subrange(0, n as int) =~= t@);
                Ok(v)
            },
        }
    } else {
        Err(ChunkSizeError::InvalidFormat)
    }
}

/// Relies on `num_cpus::get`: the number of logical CPUs available to this process.
#[verifier::external_body]
fn available_cpus() -> (r: usize) {
    num_cpus::get()
}

/// The number of workers: an explicit request, raised to 1 if it is 0; otherwise
/// the number of available CPUs, and 1 if that reads as 0.
pub fn determine_thread_count(cli_threads_override: Option<usize>) -> (r: usize)
    ensures
        r >= 1,
        cli_threads_override matches Some(t) ==> r == (if t == 0 { 1 } else { t }),
{
    match cli_threads_override {
        Some(threads) => {
            if threads == 0 {
                1
            } else {
                threads
            }
        },
        None => {
            let cores = available_cpus();
            if cores > 0 {
                cores
            } else {
                1
            }
        },
    }
}

} // verus!
