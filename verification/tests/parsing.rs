use vcat_cli::shared::SampleFormat;
use vcat_cli::util::decimal::FixedDecimalU64;
use vcat_cli::util::parse_hertz;

#[test]
fn hertz_khz_integer() {
    assert_eq!(parse_hertz("48khz"), Some(48000));
}

#[test]
fn hertz_mhz_fractional() {
    assert_eq!(parse_hertz("1.5mhz"), Some(1500000));
}

#[test]
fn hertz_plain() {
    assert_eq!(parse_hertz("44100"), Some(44100));
}

#[test]
fn hertz_whitespace_and_case_ignored() {
    assert_eq!(parse_hertz("48 kHz"), Some(48000));
    assert_eq!(parse_hertz(" 44 100 "), Some(44100));
}

#[test]
fn hertz_grouping_separators_ignored() {
    assert_eq!(parse_hertz("48_000"), Some(48000));
    assert_eq!(parse_hertz("48,000 Hz"), Some(48000));
    assert_eq!(parse_hertz("48'000"), Some(48000));
}

#[test]
fn hertz_invalid() {
    assert_eq!(parse_hertz("abc"), None);
    assert_eq!(parse_hertz(""), None);
    assert_eq!(parse_hertz("hz"), None);
    assert_eq!(parse_hertz("-48khz"), None);
    assert_eq!(parse_hertz("48x00"), None);
}

#[test]
fn hertz_fractional_khz() {
    assert_eq!(parse_hertz("44.1khz"), Some(44100));
    assert_eq!(parse_hertz("1.5khz"), Some(1500));
    assert_eq!(parse_hertz("0.048mhz"), Some(48000));
}

#[test]
fn hertz_bare_hz_suffix() {
    assert_eq!(parse_hertz("48000hz"), Some(48000));
    // The bare-hertz form takes no fractional part.
    assert_eq!(parse_hertz("1.5hz"), None);
}

#[test]
fn hertz_overflow_fails() {
    assert_eq!(parse_hertz("99999999999999999999999"), None);
    assert_eq!(parse_hertz("99999999999999999999mhz"), None);
}

#[test]
fn fixed_decimal_scales_whole_and_fraction() {
    let d = FixedDecimalU64::<3>::from_str("1.5").unwrap();
    assert_eq!(d.get(), 1500);
    let d = FixedDecimalU64::<6>::from_str("1.5").unwrap();
    assert_eq!(d.get(), 1500000);
    let d = FixedDecimalU64::<3>::from_str("44.1").unwrap();
    assert_eq!(d.get(), 44100);
}

#[test]
fn fixed_decimal_from_chars() {
    let cs: Vec<char> = vec!['4', '4', '.', '1'];
    let d = FixedDecimalU64::<3>::from_chars(&cs).unwrap();
    assert_eq!(d.get(), 44100);
    let none: Vec<char> = vec!['4', '4'];
    assert!(FixedDecimalU64::<3>::from_chars(&none).is_none());
}

#[test]
fn fixed_decimal_truncates_extra_places() {
    // Only the first three fractional digits count.
    let d = FixedDecimalU64::<3>::from_str("1.23456").unwrap();
    assert_eq!(d.get(), 1234);
}

#[test]
fn fixed_decimal_requires_separator() {
    assert!(FixedDecimalU64::<3>::from_str("48").is_none());
    assert!(FixedDecimalU64::<3>::from_str("").is_none());
}

#[test]
fn fixed_decimal_rejects_bad_parts() {
    assert!(FixedDecimalU64::<3>::from_str("1.2.3").is_none());
    assert!(FixedDecimalU64::<3>::from_str(".5").is_none());
    assert!(FixedDecimalU64::<3>::from_str("5.").is_none());
    assert!(FixedDecimalU64::<3>::from_str("a.5").is_none());
    assert!(FixedDecimalU64::<3>::from_str("5.b").is_none());
}

#[test]
fn fixed_decimal_overflow_is_failure() {
    assert!(FixedDecimalU64::<3>::from_str("99999999999999999999.0").is_none());
    let d = FixedDecimalU64::<3>::from_str("18446744073709551.615").unwrap();
    assert_eq!(d.get(), u64::MAX);
    assert!(FixedDecimalU64::<3>::from_str("18446744073709551.616").is_none());
}

#[test]
fn sample_format_plain_names() {
    assert_eq!(SampleFormat::from_str("s16"), Some(SampleFormat::s16));
    assert_eq!(SampleFormat::from_str("32"), Some(SampleFormat::s32));
    assert_eq!(SampleFormat::from_str("flt"), Some(SampleFormat::flt));
    assert_eq!(SampleFormat::from_str("float"), Some(SampleFormat::flt));
}

#[test]
fn sample_format_prefixes_and_suffixes() {
    assert_eq!(SampleFormat::from_str("u16"), Some(SampleFormat::s16));
    assert_eq!(SampleFormat::from_str("i32"), Some(SampleFormat::s32));
    assert_eq!(SampleFormat::from_str("s16p"), Some(SampleFormat::s16));
    assert_eq!(SampleFormat::from_str("fltp"), Some(SampleFormat::flt));
    assert_eq!(SampleFormat::from_str("S 16"), Some(SampleFormat::s16));
    assert_eq!(SampleFormat::from_str("FLOAT"), Some(SampleFormat::flt));
}

#[test]
fn sample_format_tags_are_stable() {
    assert_eq!(SampleFormat::s16.tag(), 0);
    assert_eq!(SampleFormat::s32.tag(), 1);
    assert_eq!(SampleFormat::flt.tag(), 2);
}

#[test]
fn sample_format_invalid() {
    assert_eq!(SampleFormat::from_str("xyz"), None);
    assert_eq!(SampleFormat::from_str(""), None);
    assert_eq!(SampleFormat::from_str("ss16"), None);
    assert_eq!(SampleFormat::from_str("24"), None);
}
