use alveograph_exporter::config::{ConfigStore, CurveLayout, ReadRowMode, ReadStartMode};
use alveograph_exporter::decimal::{avg5, normalize, parse_value, sub_values, Value};
use alveograph_exporter::text::{
    find_sub, format_milliseconds, remove_all, split_lines, starts_with_str, str_eq, trim_cr,
    trim_ws, u64_to_dec,
};

fn val(num: i128, scale: u32) -> Value {
    Value { num, scale }
}

#[test]
fn parse_plain_integers_and_decimals() {
    assert_eq!(parse_value("12"), Some(val(12, 0)));
    assert_eq!(parse_value("1.50"), Some(val(150, 2)));
    assert_eq!(parse_value("-3.25"), Some(val(-325, 2)));
    assert_eq!(parse_value("+7"), Some(val(7, 0)));
    assert_eq!(parse_value(".5"), Some(val(5, 1)));
    assert_eq!(parse_value("5."), Some(val(5, 0)));
    assert_eq!(parse_value("0"), Some(val(0, 0)));
}

#[test]
fn parse_rejects_junk() {
    assert_eq!(parse_value(""), None);
    assert_eq!(parse_value("."), None);
    assert_eq!(parse_value("-"), None);
    assert_eq!(parse_value("abc"), None);
    assert_eq!(parse_value("1.2.3"), None);
    assert_eq!(parse_value("1 2"), None);
    assert_eq!(parse_value(" 5"), None);
}

#[test]
fn parse_rejects_oversized_numbers() {
    // nineteen significant digits, and a fraction of nineteen digits
    assert_eq!(parse_value("1234567890123456789"), None);
    assert_eq!(parse_value("0.1234567890123456789"), None);
    // eighteen of either are still fine
    assert_eq!(
        parse_value("123456789012345678"),
        Some(val(123456789012345678, 0))
    );
    assert_eq!(
        parse_value("0.123456789012345678"),
        Some(val(123456789012345678, 18))
    );
}

#[test]
fn mean_of_five_is_exact() {
    let r = avg5(&val(2, 0), &val(4, 0), &val(6, 0), &val(8, 0), &val(10, 0));
    assert_eq!(r, val(6, 0));
    let r2 = avg5(&val(1, 0), &val(1, 0), &val(1, 0), &val(1, 0), &val(1, 0));
    assert_eq!(r2, val(1, 0));
    // mixed scales: 0.5 + 1.25 + 2 + 3 + 4 = 10.75, over five = 2.15
    let r3 = avg5(&val(5, 1), &val(125, 2), &val(2, 0), &val(3, 0), &val(4, 0));
    assert_eq!(r3, val(215, 2));
}

#[test]
fn difference_is_exact() {
    assert_eq!(sub_values(&val(6, 0), &val(5, 0)), val(1, 0));
    assert_eq!(sub_values(&val(215, 2), &val(3, 0)), val(-85, 2));
    assert_eq!(sub_values(&val(5, 1), &val(5, 1)), val(0, 0));
}

#[test]
fn normalize_strips_trailing_zeros() {
    assert_eq!(normalize(val(1500, 2)), val(15, 0));
    assert_eq!(normalize(val(1050, 3)), val(105, 2));
    assert_eq!(normalize(val(0, 7)), val(0, 0));
    assert_eq!(normalize(val(-30, 1)), val(-3, 0));
}

#[test]
fn trimming_and_prefixes() {
    assert_eq!(trim_ws("  \tP/L \r\n"), "P/L");
    assert_eq!(trim_ws(""), "");
    assert_eq!(trim_cr("\r\rline\r"), "line");
    assert!(starts_with_str("P\t1", "P"));
    assert!(!starts_with_str("Q\t1", "P"));
    assert!(str_eq("same", "same"));
    assert!(!str_eq("same", "Same"));
}

#[test]
fn searching_and_removing() {
    assert_eq!(find_sub("a\tb\tc", "\t", 0), Some(1));
    assert_eq!(find_sub("a\tb\tc", "\t", 2), Some(3));
    assert_eq!(find_sub("abc", "\t", 0), None);
    assert_eq!(remove_all("Test name\t:\tSample", "Test name\t:\t"), "Sample");
    assert_eq!(remove_all("aXbXc", "X"), "abc");
    assert_eq!(remove_all("aaa", "aa"), "a");
}

#[test]
fn line_splitting_strips_carriage_returns() {
    let lines = split_lines("one\r\ntwo\nthree\r");
    assert_eq!(lines, vec!["one".to_string(), "two".to_string(), "three".to_string()]);
    assert_eq!(split_lines(""), vec!["".to_string()]);
    assert_eq!(split_lines("a\n"), vec!["a".to_string(), "".to_string()]);
}

#[test]
fn decimal_rendering() {
    assert_eq!(u64_to_dec(0), "0".to_string());
    assert_eq!(u64_to_dec(907), "907".to_string());
    assert_eq!(format_milliseconds(1234567), "1234.57".to_string());
    assert_eq!(format_milliseconds(0), "0.00".to_string());
    assert_eq!(format_milliseconds(999), "1.00".to_string());
    assert_eq!(format_milliseconds(45000), "45.00".to_string());
}

#[test]
fn mode_labels_round_trip() {
    assert_eq!(ReadStartMode::Header.to_string(), "Header".to_string());
    assert_eq!(ReadStartMode::Index.to_string(), "Index".to_string());
    assert_eq!(ReadStartMode::from_str("Header"), Some(ReadStartMode::Header));
    assert_eq!(ReadStartMode::from_str("Index"), Some(ReadStartMode::Index));
    assert_eq!(ReadStartMode::from_str("Other"), None);
    assert_eq!(ReadRowMode::Header.to_string(), "Header".to_string());
    assert_eq!(ReadRowMode::Max.to_string(), "Max".to_string());
    assert_eq!(ReadRowMode::from_str("Max"), Some(ReadRowMode::Max));
    assert_eq!(ReadRowMode::from_str("max"), None);
}

#[test]
fn default_configuration_values() {
    let c = ConfigStore::default();
    assert_eq!(c.read_start_header, "Standard\t : \tAverage".to_string());
    assert_eq!(c.read_start_idx, 105);
    assert_eq!(c.read_max_rows, 11);
    assert_eq!(c.read_start_mode, ReadStartMode::Header);
    assert_eq!(c.read_row_mode, ReadRowMode::Header);
    assert_eq!(c.read_row_split_char, "\t".to_string());
    assert_eq!(c.read_test_name_prefix, "Test name\t:\t".to_string());
    let labels: Vec<String> = vec!["P", "L", "G", "W", "P/L", "Ie", "K", "SH", "Dmin", "Dmax", "H2O"]
        .iter()
        .map(|s| s.to_string())
        .collect();
    assert_eq!(c.read_row_headers, labels);
    assert_eq!(c.row_order_preference, labels);
    let ranges = CurveLayout::default().ranges;
    assert_eq!(ranges, vec![(41, 51), (54, 64), (67, 77), (80, 90), (93, 103)]);
}
