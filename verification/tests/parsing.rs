use prodcon::config::BadFlagArg;
use prodcon::config::Config;
use prodcon::config::DEFAULT_BUFFER_SIZE;
use prodcon::config::DEFAULT_CONSUMERS;
use prodcon::config::DEFAULT_ELEMS_PER_PRODUCER;
use prodcon::config::DEFAULT_PRODUCERS;
use prodcon::config::parse_u32;
use prodcon::config::parse_u64;
use prodcon::config::parse_usize;
use prodcon::config::resolve_u32_flag;
use prodcon::config::resolve_usize_flag;

#[test]
fn parse_u32_plain_numbers() {
    assert_eq!(parse_u32(b"0"), Some(0));
    assert_eq!(parse_u32(b"5"), Some(5));
    assert_eq!(parse_u32(b"100"), Some(100));
    assert_eq!(parse_u32(b"007"), Some(7));
    assert_eq!(parse_u32(b"4294967295"), Some(u32::MAX));
}

#[test]
fn parse_u32_accepts_leading_plus() {
    assert_eq!(parse_u32(b"+42"), Some(42));
    assert_eq!(parse_u32(b"+0"), Some(0));
}

#[test]
fn parse_u32_rejects_malformed_text() {
    assert_eq!(parse_u32(b"abc"), None);
    assert_eq!(parse_u32(b""), None);
    assert_eq!(parse_u32(b"+"), None);
    assert_eq!(parse_u32(b"12a"), None);
    assert_eq!(parse_u32(b"-5"), None);
    assert_eq!(parse_u32(b"1 2"), None);
    assert_eq!(parse_u32(b"++1"), None);
}

#[test]
fn parse_u32_rejects_overflow() {
    assert_eq!(parse_u32(b"4294967296"), None);
    assert_eq!(parse_u32(b"99999999999999999999999999"), None);
}

#[test]
fn parse_u64_bounds() {
    assert_eq!(parse_u64(b"18446744073709551615"), Some(u64::MAX));
    assert_eq!(parse_u64(b"18446744073709551616"), None);
}

#[test]
fn parse_usize_plain_numbers() {
    assert_eq!(parse_usize(b"100"), Some(100));
    assert_eq!(parse_usize(b"1"), Some(1));
    assert_eq!(parse_usize(b"zz"), None);
}

#[test]
fn missing_flag_argument_yields_default() {
    assert_eq!(resolve_u32_flag(b'p', None, 5), Ok(5));
    assert_eq!(resolve_u32_flag(b'e', None, 100), Ok(100));
    assert_eq!(resolve_usize_flag(b'b', None, 100), Ok(100));
}

#[test]
fn well_formed_flag_argument_yields_its_value() {
    assert_eq!(resolve_u32_flag(b'p', Some(b"3"), 5), Ok(3));
    assert_eq!(resolve_u32_flag(b'c', Some(b"+8"), 5), Ok(8));
    assert_eq!(resolve_usize_flag(b'b', Some(b"10"), 100), Ok(10));
}

#[test]
fn malformed_flag_argument_names_the_flag() {
    // `-p abc` is rejected with an error naming flag `p`
    assert_eq!(resolve_u32_flag(b'p', Some(b"abc"), 5), Err(BadFlagArg { flag: b'p' }));
    assert_eq!(resolve_u32_flag(b'e', Some(b"1e3"), 100), Err(BadFlagArg { flag: b'e' }));
    assert_eq!(resolve_usize_flag(b'b', Some(b"-1"), 100), Err(BadFlagArg { flag: b'b' }));
}

#[test]
fn defaults_match_the_documented_configuration() {
    let c: Config = Config::with_defaults();
    assert_eq!(c.producer_count, 5);
    assert_eq!(c.consumer_count, 5);
    assert_eq!(c.buffer_size, 100);
    assert_eq!(c.elems_per_producer, 100);
    assert!(!c.producer_sleep);
    assert!(!c.consumer_sleep);
    assert_eq!(DEFAULT_PRODUCERS, 5);
    assert_eq!(DEFAULT_CONSUMERS, 5);
    assert_eq!(DEFAULT_BUFFER_SIZE, 100);
    assert_eq!(DEFAULT_ELEMS_PER_PRODUCER, 100);
}
