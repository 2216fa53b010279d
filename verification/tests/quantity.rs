use kuboard::quantity::kuboard_format_memory;
use kuboard::quantity::kuboard_parse_memory_string;
use kuboard::quantity::parse_memory_capacity;
use kuboard::quantity::parse_memory_quantity;

#[test]
fn parses_binary_suffixes() {
    assert_eq!(kuboard_parse_memory_string("8Gi").unwrap(), 8 * 1024 * 1024 * 1024);
    assert_eq!(kuboard_parse_memory_string("8192Mi").unwrap(), 8192 * 1024 * 1024);
    assert_eq!(kuboard_parse_memory_string("1024Ki").unwrap(), 1024 * 1024);
    assert_eq!(kuboard_parse_memory_string("123456").unwrap(), 123456);
}

#[test]
fn parses_fractional_quantities_rounding_down() {
    assert_eq!(kuboard_parse_memory_string("1.5Gi").unwrap(), 1610612736);
    assert_eq!(kuboard_parse_memory_string("0.5Ki").unwrap(), 512);
    // 0.1 Ki is 102.4 bytes: rounded down to whole bytes.
    assert_eq!(kuboard_parse_memory_string("0.1Ki").unwrap(), 102);
    // A trailing or leading decimal point is still a numeral.
    assert_eq!(kuboard_parse_memory_string("2.Ki").unwrap(), 2048);
    assert_eq!(kuboard_parse_memory_string(".5Ki").unwrap(), 512);
}

#[test]
fn trims_surrounding_whitespace() {
    assert_eq!(kuboard_parse_memory_string("  10Gi \n").unwrap(), 10737418240);
}

#[test]
fn rejects_malformed_quantities() {
    assert!(kuboard_parse_memory_string("abc").is_err());
    assert!(kuboard_parse_memory_string("").is_err());
    assert!(kuboard_parse_memory_string("1.2.3Gi").is_err());
    assert!(kuboard_parse_memory_string(".Gi").is_err());
    assert!(kuboard_parse_memory_string("-5Gi").is_err());
    // A bare byte count must be representable.
    assert!(kuboard_parse_memory_string("99999999999999999999999").is_err());
}

#[test]
fn capacity_parser_agrees_on_the_binary_suffixes() {
    assert_eq!(parse_memory_capacity("16Gi").unwrap(), 16 * 1024 * 1024 * 1024);
    assert_eq!(parse_memory_capacity("131072Ki").unwrap(), 131072 * 1024);
    assert_eq!(parse_memory_capacity("512").unwrap(), 512);
    assert!(parse_memory_capacity("16GiB").is_err());
}

#[test]
fn metrics_parser_takes_decimal_and_tera_suffixes_too() {
    assert_eq!(parse_memory_quantity("123Mi").unwrap(), 123 * 1024 * 1024);
    assert_eq!(parse_memory_quantity("1Ti").unwrap(), 1024u64 * 1024 * 1024 * 1024);
    assert_eq!(parse_memory_quantity("5K").unwrap(), 5000);
    assert_eq!(parse_memory_quantity("2.5M").unwrap(), 2500000);
    assert_eq!(parse_memory_quantity("3G").unwrap(), 3000000000);
    assert_eq!(parse_memory_quantity(" 129542Ki ").unwrap(), 129542 * 1024);
    assert!(parse_memory_quantity("12Q").is_err());
}

#[test]
fn huge_suffixed_quantities_saturate() {
    assert_eq!(
        parse_memory_quantity("99999999999999999999999Ti").unwrap(),
        u64::MAX
    );
}

#[test]
fn formats_whole_bytes_below_one_kilobyte() {
    assert_eq!(kuboard_format_memory(0), "0 B");
    assert_eq!(kuboard_format_memory(1), "1 B");
    assert_eq!(kuboard_format_memory(1023), "1023 B");
}

#[test]
fn formats_scaled_sizes_with_one_decimal() {
    assert_eq!(kuboard_format_memory(1024), "1.0 KB");
    assert_eq!(kuboard_format_memory(1536), "1.5 KB");
    assert_eq!(kuboard_format_memory(1024 * 1024), "1.0 MB");
    assert_eq!(kuboard_format_memory(8 * 1024 * 1024 * 1024), "8.0 GB");
    assert_eq!(kuboard_format_memory(1024u64 * 1024 * 1024 * 1024), "1.0 TB");
    // 2.5 TB exactly.
    assert_eq!(
        kuboard_format_memory(2560u64 * 1024 * 1024 * 1024),
        "2.5 TB"
    );
}

#[test]
fn format_rounds_half_to_even() {
    // 1280 bytes is exactly 1.25 KB: the tie rounds to the even digit.
    assert_eq!(kuboard_format_memory(1280), "1.2 KB");
    // 1331.2 bytes cannot occur; 1332 bytes is 1.30078 KB.
    assert_eq!(kuboard_format_memory(1332), "1.3 KB");
}
