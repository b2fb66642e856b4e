use aegis_disk::error::SentinelError;
use aegis_disk::utils::format::{bytes, parse_size};

#[test]
fn parses_megabytes() {
    assert_eq!(parse_size("2MB").unwrap(), 2_000_000);
}

#[test]
fn size_parser_supports_decimal_units() {
    assert_eq!(parse_size("100MB").unwrap(), 100_000_000);
    assert_eq!(parse_size("1KiB").unwrap(), 1024);
}

#[test]
fn size_parser_handles_case_spaces_and_fractions() {
    assert_eq!(parse_size("  1.5 kb ").unwrap(), 1500);
    assert_eq!(parse_size("1GiB").unwrap(), 1_073_741_824);
    assert_eq!(parse_size("2mi").unwrap(), 2_097_152);
    assert_eq!(parse_size("42").unwrap(), 42);
    assert_eq!(parse_size("3t").unwrap(), 3_000_000_000_000);
    assert_eq!(parse_size("0.5B").unwrap(), 0);
    assert_eq!(parse_size("99999999999TB").unwrap(), u64::MAX);
    assert_eq!(parse_size("7KB").unwrap(), parse_size(" 7kb\t").unwrap());
}

#[test]
fn size_parser_reports_bad_numbers_and_units() {
    match parse_size("abc") {
        Err(SentinelError::InvalidSize(s)) => assert_eq!(s, "abc"),
        other => panic!("unexpected {:?}", other),
    }
    match parse_size("1.2.3MB") {
        Err(SentinelError::InvalidSize(s)) => assert_eq!(s, "1.2.3MB"),
        other => panic!("unexpected {:?}", other),
    }
    match parse_size("10 parsecs") {
        Err(SentinelError::InvalidSize(s)) => assert_eq!(s, "parsecs"),
        other => panic!("unexpected {:?}", other),
    }
    let e = parse_size("5XB").unwrap_err();
    assert_eq!(e.message(), "invalid size expression: xb");
}

#[test]
fn bytes_renders_decimal_units() {
    assert_eq!(bytes(0), "0 B");
    assert_eq!(bytes(999), "999 B");
    assert_eq!(bytes(1000), "1 kB");
    assert_eq!(bytes(2_620_000), "2.62 MB");
}

#[test]
fn error_messages() {
    assert_eq!(SentinelError::MissingCleanMode.message(), "clean requires either --dry-run or --execute");
    assert_eq!(
        SentinelError::ConflictingCleanMode.message(),
        "--dry-run and --execute cannot be used together"
    );
    assert_eq!(
        SentinelError::ProtectedPath("/usr".to_owned()).message(),
        "path is protected and cannot be cleaned: /usr"
    );
    assert_eq!(
        SentinelError::Io { path: "p".to_owned(), message: "denied".to_owned() }.message(),
        "io error at p: denied"
    );
}
