use alveograph_exporter::config::{ConfigStore, CurveLayout, ReadRowMode, ReadStartMode};
use alveograph_exporter::data::{
    get_header_idx_from_lines, get_test_name_from_lines, parse_row, read_data_from_file,
    scan_labels, scan_rows, Row,
};
use alveograph_exporter::decimal::Value;
use alveograph_exporter::order::sort_row_data;

/// Sample lines from a made-up file, to be used for testing.
fn sample_file_lines() -> Vec<String> {
    vec![
        "wigejewg ignore eikgubeg",
        "Test name\t:\tSample001-1234567",
        "iwuefjwef eoiwnfgw oewifnwe",
        "ewgonwegw\tewiugbwegiw\tewoiugnweg",
        "wejignwe\twefoinwg\twkjegngweg",
        "",
        "weigunweg woe fwef\toignweognw",
        "Standard\t : \tAverage",
        "P\t1",
        "L\t2",
        "G\t3",
        "wiuuebwfw fwefwef",
        "oigwefnw woeifnwf",
        "12345671",
    ]
    .iter()
    .map(|s| s.to_string())
    .collect()
}

/// Sample configuration settings, matching the sample file.
fn sample_config() -> ConfigStore {
    ConfigStore {
        read_start_header: "Standard\t : \tAverage".to_string(),
        read_start_idx: 7,
        read_row_headers: vec!["P", "L", "G"].iter().map(|s| s.to_string()).collect(),
        read_max_rows: 3,
        read_start_mode: ReadStartMode::Header,
        read_row_mode: ReadRowMode::Header,
        row_order_preference: vec!["G", "L", "P"].iter().map(|s| s.to_string()).collect(),
        read_row_split_char: "\t".to_string(),
        read_test_name_prefix: "Test name\t:\t".to_string(),
    }
}

fn val(num: i128, scale: u32) -> Value {
    Value { num, scale }
}

#[test]
fn data_get_test_name_from_lines1() {
    let file_lines = sample_file_lines();
    let config = sample_config();
    let test_name = get_test_name_from_lines(&file_lines, &config).unwrap();
    assert_eq!(test_name, "Sample001-1234567".to_string());
}

#[test]
fn data_get_header_idx_from_lines1() {
    let file_lines = sample_file_lines();
    let config = sample_config();
    let header_idx = get_header_idx_from_lines("sample-filename", &file_lines, &config).unwrap();
    assert_eq!(header_idx, 7);
}

#[test]
fn data_sort_row_data1() {
    let row_data = vec![
        Row::new("P".to_string(), val(1, 0)),
        Row::new("H2O".to_string(), val(4, 0)),
        Row::new("L".to_string(), val(2, 0)),
        Row::new("G".to_string(), val(3, 0)),
    ];
    let correct_sorted_row_data = vec![
        Row::new("G".to_string(), val(3, 0)),
        Row::new("L".to_string(), val(2, 0)),
        Row::new("P".to_string(), val(1, 0)),
        Row::new("H2O".to_string(), val(4, 0)),
    ];
    let sorted_row_data = sort_row_data(row_data, &sample_config());
    assert_eq!(correct_sorted_row_data, sorted_row_data);
}

// The round trip over the sample file: the name, the header index and
// the ordered rows come out right, with no warnings.
#[test]
fn round_trip_sample_file() {
    let file_lines = sample_file_lines();
    let config = sample_config();
    let test_name = get_test_name_from_lines(&file_lines, &config).unwrap();
    assert_eq!(test_name, "Sample001-1234567".to_string());
    let header_idx = get_header_idx_from_lines("sample-filename", &file_lines, &config).unwrap();
    assert_eq!(header_idx, 7);
    let (rows, warns) = scan_labels(
        &file_lines,
        header_idx + 1,
        &config.read_row_headers,
        config.read_row_split_char.as_str(),
    );
    assert_eq!(warns.len(), 0);
    let ordered = sort_row_data(rows, &config);
    let correct = vec![
        Row::new("G".to_string(), val(3, 0)),
        Row::new("L".to_string(), val(2, 0)),
        Row::new("P".to_string(), val(1, 0)),
    ];
    assert_eq!(ordered, correct);
}

// A full read of a file long enough for the default curve ranges.
#[test]
fn read_data_from_full_file() {
    let mut lines: Vec<String> = Vec::new();
    for i in 0..110usize {
        lines.push(format!("pad{}\tnote", i));
    }
    lines[1] = "Test name\t:\tSample042-7654321".to_string();
    lines[20] = "Standard\t : \tAverage".to_string();
    lines[21] = "P\t61".to_string();
    lines[22] = "L\t88.5".to_string();
    lines[23] = "G\t21.3".to_string();
    for k in 0..5usize {
        let start = 41 + 13 * k;
        for (j, v) in ["1.5", "2.5", "3.5"].iter().enumerate() {
            lines[start + j] = format!("c{}\t{}", j, v);
        }
    }
    let mut config = sample_config();
    config.read_start_idx = 20;
    let contents = lines.join("\n");
    let curves = CurveLayout {
        ranges: vec![(41, 43), (54, 56), (67, 69), (80, 82), (93, 95)],
    };
    let (data, warns) =
        read_data_from_file("full-file", &contents, &config, &curves).unwrap();
    assert_eq!(warns.len(), 0);
    assert_eq!(data.test_name, "Sample042-7654321".to_string());
    let correct_rows = vec![
        Row::new("G".to_string(), val(213, 1)),
        Row::new("L".to_string(), val(885, 1)),
        Row::new("P".to_string(), val(61, 0)),
    ];
    assert_eq!(data.row_data, correct_rows);
    for curve in [
        &data.curve_data1,
        &data.curve_data2,
        &data.curve_data3,
        &data.curve_data4,
        &data.curve_data5,
    ] {
        let correct = vec![
            Row::new("c0".to_string(), val(15, 1)),
            Row::new("c1".to_string(), val(25, 1)),
            Row::new("c2".to_string(), val(35, 1)),
        ];
        assert_eq!(*curve, correct);
    }
}

// A label-sequence run that breaks at the third expected label: one
// warning, and only the first two rows.
#[test]
fn label_break_keeps_two_rows() {
    let lines: Vec<String> = vec!["hdr", "P\t1", "L\t2", "X\t3", "G\t4"]
        .iter()
        .map(|s| s.to_string())
        .collect();
    let labels: Vec<String> = vec!["P", "L", "G"].iter().map(|s| s.to_string()).collect();
    let (rows, warns) = scan_labels(&lines, 1, &labels, "\t");
    assert_eq!(rows.len(), 2);
    assert_eq!(rows[0], Row::new("P".to_string(), val(1, 0)));
    assert_eq!(rows[1], Row::new("L".to_string(), val(2, 0)));
    assert_eq!(warns.len(), 1);
    assert_eq!(warns[0].render(), "X\t3 breaks row pattern".to_string());
}

// A value field that is no number: one warning citing the parse
// failure, and no row for that line.
#[test]
fn malformed_number_warns_and_skips() {
    let (row, warn) = parse_row("P\t<not-a-number>", "\t");
    assert!(row.is_none());
    let text = warn.unwrap().render();
    assert_eq!(
        text,
        "Failed to parse \"<not-a-number>\" in line \"P\t<not-a-number>\" as a number".to_string()
    );
}

// A line with no separator: the split warning, and no row.
#[test]
fn short_split_warns_and_skips() {
    let (row, warn) = parse_row("loneline", "\t");
    assert!(row.is_none());
    assert_eq!(
        warn.unwrap().render(),
        "Couldn't find a proper split for \"loneline\", len < 2".to_string()
    );
}

// The fixed-count mode reads exactly the configured rows.
#[test]
fn count_mode_reads_exactly() {
    let lines: Vec<String> = vec!["hdr", "A\t1", "B\t2", "C\t3", "D\t4"]
        .iter()
        .map(|s| s.to_string())
        .collect();
    let (rows, warns) = scan_rows(&lines, 1, 3, "\t");
    assert_eq!(warns.len(), 0);
    assert_eq!(rows.len(), 3);
    assert_eq!(rows[2], Row::new("C".to_string(), val(3, 0)));
}

// The index mode hands the configured index back even out of bounds.
#[test]
fn index_mode_is_unchecked() {
    let lines: Vec<String> = vec!["only line".to_string()];
    let mut config = sample_config();
    config.read_start_mode = ReadStartMode::Index;
    config.read_start_idx = 105;
    let header_idx = get_header_idx_from_lines("f", &lines, &config).unwrap();
    assert_eq!(header_idx, 105);
}

// A header text on no line fails with a message naming it and the file.
#[test]
fn missing_header_is_fatal() {
    let lines: Vec<String> = vec!["nothing here".to_string()];
    let config = sample_config();
    let err = get_header_idx_from_lines("report7", &lines, &config).unwrap_err();
    assert_eq!(
        err,
        "Could not find the header str \"Standard\t : \tAverage\" in file \"report7\"".to_string()
    );
}

// A file too short for the curve ranges fails with the range message.
#[test]
fn short_file_fails_on_curves() {
    let lines = sample_file_lines();
    let config = sample_config();
    let contents = lines.join("\n");
    let err =
        read_data_from_file("short-file", &contents, &config, &CurveLayout::default()).unwrap_err();
    assert_eq!(
        err,
        "Curve block range falls outside available lines in file \"short-file\"".to_string()
    );
}

// A row range past the end of the file fails with the range message.
#[test]
fn row_range_past_end_is_fatal() {
    let mut lines: Vec<String> = Vec::new();
    for _ in 0..104 {
        lines.push("x\t1".to_string());
    }
    let mut config = sample_config();
    config.read_row_mode = ReadRowMode::Max;
    config.read_start_mode = ReadStartMode::Index;
    config.read_start_idx = 102;
    config.read_max_rows = 5;
    let contents = lines.join("\n");
    let err =
        read_data_from_file("deep-file", &contents, &config, &CurveLayout::default()).unwrap_err();
    assert_eq!(
        err,
        "Row range falls outside available lines in file \"deep-file\"".to_string()
    );
}

// Lines without the test-name prefix fall back to the unknown name.
#[test]
fn unknown_test_name_fallback() {
    let mut lines: Vec<String> = Vec::new();
    for _ in 0..104 {
        lines.push("x\t1".to_string());
    }
    let mut config = sample_config();
    config.read_start_mode = ReadStartMode::Index;
    config.read_start_idx = 0;
    let (data, _) = read_data_from_file(
        "mystery.txt",
        &lines.join("\n"),
        &config,
        &CurveLayout::default(),
    )
    .unwrap();
    assert_eq!(
        data.test_name,
        "Unknown test name from \"mystery.txt\"".to_string()
    );
}

// Duplicate labels all move to the matching preference position, in
// their input order, and nothing is duplicated or lost.
#[test]
fn duplicate_labels_stay_together() {
    let row_data = vec![
        Row::new("L".to_string(), val(1, 0)),
        Row::new("G".to_string(), val(2, 0)),
        Row::new("L".to_string(), val(3, 0)),
    ];
    let sorted = sort_row_data(row_data, &sample_config());
    let correct = vec![
        Row::new("G".to_string(), val(2, 0)),
        Row::new("L".to_string(), val(1, 0)),
        Row::new("L".to_string(), val(3, 0)),
    ];
    assert_eq!(sorted, correct);
}

// Applying the orderer twice gives what one application gives.
#[test]
fn sorting_twice_changes_nothing() {
    let config = sample_config();
    let row_data = vec![
        Row::new("P".to_string(), val(1, 0)),
        Row::new("H2O".to_string(), val(4, 0)),
        Row::new("L".to_string(), val(2, 0)),
    ];
    let once = sort_row_data(row_data, &config);
    let again: Vec<Row> = once
        .iter()
        .map(|r| Row::new(r.header.clone(), r.value))
        .collect();
    let twice = sort_row_data(again, &config);
    assert_eq!(once, twice);
}

// The curve blocks split on the configured separator, like the main
// data block: with a comma separator a comma line parses and a tab
// line yields the too-few-fields warning.
#[test]
fn curve_blocks_use_configured_separator() {
    let mut lines: Vec<String> = Vec::new();
    for _ in 0..110usize {
        lines.push("c,5".to_string());
    }
    lines[42] = "B\t7".to_string();
    let mut config = sample_config();
    config.read_start_mode = ReadStartMode::Index;
    config.read_start_idx = 0;
    config.read_row_mode = ReadRowMode::Max;
    config.read_max_rows = 1;
    config.read_row_split_char = ",".to_string();
    let curves = CurveLayout {
        ranges: vec![(41, 43), (54, 56), (67, 69), (80, 82), (93, 95)],
    };
    let (data, warns) =
        read_data_from_file("comma-file", &lines.join("\n"), &config, &curves).unwrap();
    assert_eq!(data.curve_data1.len(), 2);
    assert_eq!(data.curve_data1[0], Row::new("c".to_string(), val(5, 0)));
    assert_eq!(warns.len(), 1);
    assert_eq!(
        warns[0],
        "Couldn't find a proper split for \"B\t7\", len < 2".to_string()
    );
}
