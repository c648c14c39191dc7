use alveograph_exporter::data::{Data, Row};
use alveograph_exporter::decimal::Value;
use alveograph_exporter::layout::{
    build_sheet_layout, data_fits_check, layout_input_check, Cell, CellFormat, CellValue,
    HEADER_START_ROW,
};

fn val(num: i128, scale: u32) -> Value {
    Value { num, scale }
}

fn one_row(label: &str, v: Value) -> Vec<Row> {
    vec![Row::new(label.to_string(), v)]
}

fn find_cell<'a>(cells: &'a [Cell], row: u32, col: u16) -> &'a Cell {
    cells
        .iter()
        .find(|c| c.row == row && c.col == col)
        .expect("no cell at that position")
}

// One file with curve values 2, 4, 6, 8, 10 at the first column and a
// reported average of 5: the computed average is 6 and the difference 1.
#[test]
fn average_and_difference_cells() {
    let data = vec![Data::new1(
        "T1".to_string(),
        one_row("P", val(5, 0)),
        one_row("P", val(2, 0)),
        one_row("P", val(4, 0)),
        one_row("P", val(6, 0)),
        one_row("P", val(8, 0)),
        one_row("P", val(10, 0)),
    )];
    assert!(layout_input_check(&data));
    let sheet = build_sheet_layout(&data, "out");
    let base = HEADER_START_ROW + 1;
    let avg = find_cell(&sheet.cells, base + 5, 2);
    assert_eq!(avg.value, CellValue::Number(val(6, 0)));
    assert_eq!(avg.format, CellFormat::Numeric);
    let diff = find_cell(&sheet.cells, base + 8, 2);
    assert_eq!(diff.value, CellValue::Number(val(1, 0)));
}

// The average stays exact where a float would round: the mean of
// 0.1, 0.1, 0.1, 0.1 and 0.2 is exactly 0.12.
#[test]
fn average_is_exact() {
    let data = vec![Data::new1(
        "T1".to_string(),
        one_row("P", val(12, 2)),
        one_row("P", val(1, 1)),
        one_row("P", val(1, 1)),
        one_row("P", val(1, 1)),
        one_row("P", val(1, 1)),
        one_row("P", val(2, 1)),
    )];
    let sheet = build_sheet_layout(&data, "out");
    let base = HEADER_START_ROW + 1;
    let avg = find_cell(&sheet.cells, base + 5, 2);
    assert_eq!(avg.value, CellValue::Number(val(12, 2)));
    let diff = find_cell(&sheet.cells, base + 8, 2);
    assert_eq!(diff.value, CellValue::Number(val(0, 0)));
}

// The header row and the block labels stand where the layout says.
#[test]
fn header_and_labels_in_place() {
    let data = vec![Data::new1(
        "Sample009".to_string(),
        one_row("P", val(5, 0)),
        one_row("P", val(2, 0)),
        one_row("P", val(4, 0)),
        one_row("P", val(6, 0)),
        one_row("P", val(8, 0)),
        one_row("P", val(10, 0)),
    )];
    let sheet = build_sheet_layout(&data, "alveograph-exporter-output");
    assert_eq!(sheet.sheet_name, "alveograph-exporter-output".to_string());
    let hdr0 = find_cell(&sheet.cells, HEADER_START_ROW, 0);
    assert_eq!(hdr0.value, CellValue::Text("Test Name".to_string()));
    assert_eq!(hdr0.format, CellFormat::Heading);
    let hdr1 = find_cell(&sheet.cells, HEADER_START_ROW, 1);
    assert_eq!(hdr1.value, CellValue::Text("Curve".to_string()));
    let hdr2 = find_cell(&sheet.cells, HEADER_START_ROW, 2);
    assert_eq!(hdr2.value, CellValue::Text("P".to_string()));
    let base = HEADER_START_ROW + 1;
    assert_eq!(
        find_cell(&sheet.cells, base, 0).value,
        CellValue::Text("Sample009".to_string())
    );
    for (off, label) in [
        (0, "1"),
        (1, "2"),
        (2, "3"),
        (3, "4"),
        (4, "5"),
        (5, "calcAVG"),
        (7, "AVG"),
        (8, "Diff"),
    ] {
        let c = find_cell(&sheet.cells, base + off, 1);
        assert_eq!(c.value, CellValue::Text(label.to_string()));
        assert_eq!(c.format, CellFormat::Label);
    }
    assert_eq!(sheet.column_widths, vec![(0u16, 145u32)]);
}

// No files: only the sheet shell, no cells and no widths.
#[test]
fn empty_input_gives_shell_only() {
    let data: Vec<Data> = Vec::new();
    let sheet = build_sheet_layout(&data, "empty");
    assert_eq!(sheet.sheet_name, "empty".to_string());
    assert_eq!(sheet.cells.len(), 0);
    assert_eq!(sheet.column_widths.len(), 0);
}

// A second file's block starts ten rows below the first one's.
#[test]
fn blocks_step_by_ten_rows() {
    let mk = |name: &str, v: i128| {
        Data::new1(
            name.to_string(),
            one_row("P", val(v, 0)),
            one_row("P", val(v, 0)),
            one_row("P", val(v, 0)),
            one_row("P", val(v, 0)),
            one_row("P", val(v, 0)),
            one_row("P", val(v, 0)),
        )
    };
    let data = vec![mk("A", 1), mk("B", 2)];
    let sheet = build_sheet_layout(&data, "two");
    let base = HEADER_START_ROW + 1;
    assert_eq!(
        find_cell(&sheet.cells, base, 0).value,
        CellValue::Text("A".to_string())
    );
    assert_eq!(
        find_cell(&sheet.cells, base + 10, 0).value,
        CellValue::Text("B".to_string())
    );
}

// A curve shorter than the reported row yields no average at the
// missing column, and the other columns still get theirs.
#[test]
fn short_curve_skips_missing_columns() {
    let two = |a: i128, b: i128| {
        vec![
            Row::new("P".to_string(), val(a, 0)),
            Row::new("L".to_string(), val(b, 0)),
        ]
    };
    let data = vec![Data::new1(
        "T".to_string(),
        two(5, 7),
        two(2, 7),
        two(4, 7),
        two(6, 7),
        two(8, 7),
        one_row("P", val(10, 0)),
    )];
    let sheet = build_sheet_layout(&data, "s");
    let base = HEADER_START_ROW + 1;
    let avg = find_cell(&sheet.cells, base + 5, 2);
    assert_eq!(avg.value, CellValue::Number(val(6, 0)));
    assert!(sheet
        .cells
        .iter()
        .all(|c| !(c.row == base + 5 && c.col == 3)));
    assert!(sheet
        .cells
        .iter()
        .all(|c| !(c.row == base + 8 && c.col == 3)));
}

// The bound check turns away a value too large for the averaging.
#[test]
fn bound_check_refuses_huge_values() {
    let big = val(1_000_000_000_000_000_000, 0);
    let d = Data::new1(
        "T".to_string(),
        one_row("P", big),
        one_row("P", big),
        one_row("P", big),
        one_row("P", big),
        one_row("P", big),
        one_row("P", big),
    );
    assert!(!data_fits_check(&d));
    assert!(layout_input_check(&Vec::new()));
}
