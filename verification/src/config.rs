//! Run configuration and parsing of numeric flag arguments.
//!
//! The orchestrator is configured by a handful of numeric flags (buffer
//! capacity, producer count, consumer count, items per producer) and two
//! boolean flags (simulated delays).  Each numeric flag accepts a decimal
//! integer, optionally preceded by `+`; a missing flag falls back to its
//! default, and a malformed argument is reported together with the flag it
//! belongs to.

use vstd::prelude::*;

verus! {

/// Default channel capacity, in items.
pub const DEFAULT_BUFFER_SIZE: usize = 100;

/// Default number of producer tasks.
pub const DEFAULT_PRODUCERS: u32 = 5;

/// Default number of consumer tasks.
pub const DEFAULT_CONSUMERS: u32 = 5;

/// Default number of items each producer emits.
pub const DEFAULT_ELEMS_PER_PRODUCER: u32 = 100;

/// The run configuration gathered from the command line.
pub struct Config {
    pub producer_count: u32,
    pub consumer_count: u32,
    pub buffer_size: usize,
    pub elems_per_producer: u32,
    pub producer_sleep: bool,
    pub consumer_sleep: bool,
}

impl Config {
    /// The configuration used when no flag overrides anything.
    pub fn with_defaults() -> (c: Config)
        ensures
            c.producer_count == DEFAULT_PRODUCERS,
            c.consumer_count == DEFAULT_CONSUMERS,
            c.buffer_size == DEFAULT_BUFFER_SIZE,
            c.elems_per_producer == DEFAULT_ELEMS_PER_PRODUCER,
            !c.producer_sleep,
            !c.consumer_sleep,
    {
        Config {
            producer_count: DEFAULT_PRODUCERS,
            consumer_count: DEFAULT_CONSUMERS,
            buffer_size: DEFAULT_BUFFER_SIZE,
            elems_per_producer: DEFAULT_ELEMS_PER_PRODUCER,
            producer_sleep: false,
            consumer_sleep: false,
        }
    }
}

/// A numeric flag whose argument was not a number of the expected type.
/// `flag` is the short flag name (a single ASCII letter).
#[derive(Debug, PartialEq, Eq, Structural, Clone, Copy)]
pub struct BadFlagArg {
    pub flag: u8,
}

/// Whether `b` is an ASCII decimal digit.
pub open spec fn is_ascii_digit(b: u8) -> bool {
    48 <= b <= 57
}

/// Whether every byte of `s` is an ASCII decimal digit.
pub open spec fn all_digits(s: Seq<u8>) -> bool {
    forall|i: int| 0 <= i < s.len() ==> is_ascii_digit(s[i])
}

/// The number denoted by a sequence of decimal digits, most significant first.
pub open spec fn digits_value(s: Seq<u8>) -> nat
    decreases s.len(),
{
    if s.len() == 0 {
        0
    } else {
        (digits_value(s.drop_last()) * 10 + s.last() - 48) as nat
    }
}

/// The digit part of a numeric argument: the text with one optional
/// leading `+` sign stripped.
pub open spec fn digits_of(s: Seq<u8>) -> Seq<u8> {
    if s.len() > 0 && s[0] == 43 {
        s.subrange(1, s.len() as int)
    } else {
        s
    }
}

/// Whether `s` is a well-formed unsigned decimal number: an optional `+`
/// followed by at least one digit.
pub open spec fn is_number_text(s: Seq<u8>) -> bool {
    digits_of(s).len() > 0 && all_digits(digits_of(s))
}

/// The value a well-formed numeric argument denotes.
pub open spec fn number_value(s: Seq<u8>) -> nat {
    digits_value(digits_of(s))
}

/// The value of a digit string is monotone in its digits: any prefix
/// denotes at most what the whole string denotes.
proof fn lemma_digits_prefix_le(s: Seq<u8>, j: int)
    requires
        all_digits(s),
        0 <= j <= s.len(),
    ensures
        digits_value(s.subrange(0, j)) <= digits_value(s),
    decreases s.len(),
{
    if j == s.len() {
        assert(s.subrange(0, j) =~= s);
    } else {
        assert(s.drop_last() =~= s.subrange(0, s.len() - 1));
        assert(all_digits(s.drop_last()));
        lemma_digits_prefix_le(s.drop_last(), j);
        assert(s.subrange(0, j) =~= s.drop_last().subrange(0, j));
    }
}

/// Parse the digits of `s` starting at `start` as a decimal number.
/// Returns `None` when a non-digit occurs, when there is no digit at all,
/// or when the value does not fit in `u64`.
fn parse_digits(s: &[u8], start: usize) -> (r: Option<u64>)
    requires
        start <= s@.len(),
    ensures
        ({
            let d = s@.subrange(start as int, s@.len() as int);
            match r {
                Some(v) => d.len() > 0 && all_digits(d) && v == digits_value(d),
                None => !(d.len() > 0 && all_digits(d) && digits_value(d) <= u64::MAX),
            }
        }),
{
    let ghost d = s@.subrange(start as int, s@.len() as int);
    let n = s.len();
    if start == n {
        return None;
    }
    let mut acc: u64 = 0;
    let mut i = start;
    while i < n
        invariant
            start <= i <= n,
            n == s@.len(),
            d == s@.subrange(start as int, n as int),
            all_digits(s@.subrange(start as int, i as int)),
            acc == digits_value(s@.subrange(start as int, i as int)),
        decreases n - i,
    {
        let b = s[i];
        if !(48 <= b && b <= 57) {
            assert(!all_digits(d)) by {
                assert(d[i - start] == b);
            }
            return None;
        }
        let digit = (b - 48) as u64;
        if acc > (u64::MAX - digit) / 10 {
            // The value of the digits read so far already exceeds u64::MAX,
            // and appending further digits can only increase it.
            assert(acc * 10 + digit > u64::MAX) by {
                let m = (u64::MAX - digit) as int;
                assert(m == 10 * (m / 10) + m % 10);
            };
            let ghost pre = s@.subrange(start as int, i + 1 as int);
            assert(pre.drop_last() =~= s@.subrange(start as int, i as int));
            assert(pre.last() == b);
            assert(digits_value(pre) == acc * 10 + digit);
            proof {
                if all_digits(d) {
                    lemma_digits_prefix_le(d, i + 1 - start);
                    assert(d.subrange(0, i + 1 - start) =~= pre);
                    assert(digits_value(d) > u64::MAX);
                }
            }
            return None;
        }
        assert(acc * 10 + digit <= u64::MAX) by {
            let m = (u64::MAX - digit) as int;
            assert(m == 10 * (m / 10) + m % 10);
        };
        let ghost pre = s@.subrange(start as int, i + 1 as int);
        proof {
            assert(pre.drop_last() =~= s@.subrange(start as int, i as int));
            assert(pre.last() == b);
        }
        acc = acc * 10 + digit;
        i = i + 1;
    }
    assert(s@.subrange(start as int, i as int) =~= d);
    Some(acc)
}

/// Parse `s` as an unsigned decimal `u64`: an optional `+` followed by at
/// least one digit, whose value fits in `u64`.
pub fn parse_u64(s: &[u8]) -> (r: Option<u64>)
    ensures
        match r {
            Some(v) => is_number_text(s@) && v == number_value(s@) && number_value(s@) <= u64::MAX,
            None => !(is_number_text(s@) && number_value(s@) <= u64::MAX),
        },
{
    let n = s.len();
    let start: usize = if n > 0 && s[0] == 43 {
        1
    } else {
        0
    };
    assert(s@.subrange(start as int, n as int) =~= digits_of(s@));
    parse_digits(s, start)
}

/// Parse `s` as a decimal `u32`, as a numeric flag argument requires.
pub fn parse_u32(s: &[u8]) -> (r: Option<u32>)
    ensures
        match r {
            Some(v) => is_number_text(s@) && v == number_value(s@) && number_value(s@) <= u32::MAX,
            None => !(is_number_text(s@) && number_value(s@) <= u32::MAX),
        },
{
    match parse_u64(s) {
        Some(v) => {
            if v <= u32::MAX as u64 {
                Some(v as u32)
            } else {
                None
            }
        },
        None => None,
    }
}

/// Parse `s` as a decimal `usize`, as the buffer-size flag requires.
pub fn parse_usize(s: &[u8]) -> (r: Option<usize>)
    ensures
        match r {
            Some(v) => is_number_text(s@) && v == number_value(s@) && number_value(s@) <= usize::MAX,
            None => !(is_number_text(s@) && number_value(s@) <= usize::MAX),
        },
{
    match parse_u64(s) {
        Some(v) => {
            if v <= usize::MAX as u64 {
                Some(v as usize)
            } else {
                None
            }
        },
        None => None,
    }
}

/// Resolve the numeric argument of flag `flag`: a missing argument yields
/// the default, a well-formed argument yields its value, and anything else
/// is an error naming the flag.
pub fn resolve_u32_flag(flag: u8, arg: Option<&[u8]>, default: u32) -> (r: Result<
    u32,
    BadFlagArg,
>)
    ensures
        match arg {
            None => r == Ok::<u32, BadFlagArg>(default),
            Some(s) => {
                if is_number_text(s@) && number_value(s@) <= u32::MAX {
                    r == Ok::<u32, BadFlagArg>(number_value(s@) as u32)
                } else {
                    r == Err::<u32, BadFlagArg>(BadFlagArg { flag })
                }
            },
        },
{
    match arg {
        None => Ok(default),
        Some(s) => match parse_u32(s) {
            Some(v) => Ok(v),
            None => Err(BadFlagArg { flag }),
        },
    }
}

/// Resolve the buffer-size flag, whose argument is a `usize`.
pub fn resolve_usize_flag(flag: u8, arg: Option<&[u8]>, default: usize) -> (r: Result<
    usize,
    BadFlagArg,
>)
    ensures
        match arg {
            None => r == Ok::<usize, BadFlagArg>(default),
            Some(s) => {
                if is_number_text(s@) && number_value(s@) <= usize::MAX {
                    r == Ok::<usize, BadFlagArg>(number_value(s@) as usize)
                } else {
                    r == Err::<usize, BadFlagArg>(BadFlagArg { flag })
                }
            },
        },
{
    match arg {
        None => Ok(default),
        Some(s) => match parse_usize(s) {
            Some(v) => Ok(v),
            None => Err(BadFlagArg { flag }),
        },
    }
}

} // verus!
