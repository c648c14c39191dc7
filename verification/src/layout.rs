//! The aggregation and layout engine: lays the results of many files
//! out as one table of cells.  A header row names the columns; each
//! file then occupies ten rows holding its five curves, the computed
//! cross-curve mean, the reported average, and the difference of the
//! two, with two spacer rows.  A generic table writer can render the
//! cells without knowing any of this.
use crate::data::{Data, DataModel, Row, RowModel, rows_bounded, rows_model};
use crate::decimal::{avg5, spec_avg5, spec_sub, sub_values, val_bounded, Value};
use vstd::prelude::*;

verus! {

/// The row of the header line in the sheet: a vertical offset for the
/// whole output.
pub const HEADER_START_ROW: u32 = 2;

/// What a cell shows.
#[derive(PartialEq, Debug)]
pub enum CellValue {
    /// A text.
    Text(String),
    /// An exact decimal number.
    Number(Value),
}

/// What a cell shows, in the model.
pub enum CellValueModel {
    /// A text.
    Text(Seq<char>),
    /// An exact decimal number.
    Number(Value),
}

impl View for CellValue {
    type V = CellValueModel;

    open spec fn view(&self) -> CellValueModel {
        match self {
            CellValue::Text(s) => CellValueModel::Text(s@),
            CellValue::Number(v) => CellValueModel::Number(*v),
        }
    }
}

/// The presentation tag of a cell; what it means visually is the
/// table writer's business.
#[derive(Clone, Copy, PartialEq, Eq, Structural, Debug)]
pub enum CellFormat {
    /// A column heading.
    Heading,
    /// A test name or row-kind label.
    Label,
    /// A numeric data cell.
    Numeric,
}

/// One fully specified cell.
#[derive(PartialEq, Debug)]
pub struct Cell {
    /// The 0-based sheet row.
    pub row: u32,
    /// The 0-based sheet column.
    pub col: u16,
    /// What the cell shows.
    pub value: CellValue,
    /// How the cell is presented.
    pub format: CellFormat,
}

/// What a cell is.
pub struct CellModel {
    /// The 0-based sheet row.
    pub row: int,
    /// The 0-based sheet column.
    pub col: int,
    /// What the cell shows.
    pub value: CellValueModel,
    /// How the cell is presented.
    pub format: CellFormat,
}

impl View for Cell {
    type V = CellModel;

    open spec fn view(&self) -> CellModel {
        CellModel {
            row: self.row as int,
            col: self.col as int,
            value: self.value@,
            format: self.format,
        }
    }
}

/// The cell view, as a function value.
pub open spec fn cell_view_fn() -> spec_fn(Cell) -> CellModel {
    |c: Cell| c@
}

/// The models of a sequence of cells.
pub open spec fn cells_model(v: Seq<Cell>) -> Seq<CellModel> {
    v.map_values(cell_view_fn())
}

/// A text cell.
pub open spec fn text_cell(row: int, col: int, t: Seq<char>, f: CellFormat) -> CellModel {
    CellModel { row, col, value: CellValueModel::Text(t), format: f }
}

/// A number cell.
pub open spec fn num_cell(row: int, col: int, v: Value) -> CellModel {
    CellModel { row, col, value: CellValueModel::Number(v), format: CellFormat::Numeric }
}

/// A full sheet: its name, its cells, and the column widths it asks
/// for, each width in tenths of a character.
pub struct SheetLayout {
    /// The sheet's name.
    pub sheet_name: String,
    /// Every cell to write.
    pub cells: Vec<Cell>,
    /// Pairs of a column and its width in tenths of a character.
    pub column_widths: Vec<(u16, u32)>,
}

/// The header row: the two fixed headings, then one heading for each
/// label of the first file's reported rows.
pub open spec fn spec_header_cells(first_rows: Seq<RowModel>) -> Seq<CellModel> {
    seq![
        text_cell(HEADER_START_ROW as int, 0, "Test Name"@, CellFormat::Heading),
        text_cell(HEADER_START_ROW as int, 1, "Curve"@, CellFormat::Heading),
    ] + Seq::new(
        first_rows.len(),
        |i: int| text_cell(HEADER_START_ROW as int, 2 + i, first_rows[i].label, CellFormat::Heading),
    )
}

/// One row of numbers, from column 2 on.
pub open spec fn num_row_cells(rows: Seq<RowModel>, row: int) -> Seq<CellModel> {
    Seq::new(rows.len(), |i: int| num_cell(row, 2 + i, rows[i].value))
}

/// Whether all five curves carry a value at column index `i`.
pub open spec fn curves_have(d: DataModel, i: int) -> bool {
    i < d.curve1.len() && i < d.curve2.len() && i < d.curve3.len() && i < d.curve4.len() && i
        < d.curve5.len()
}

/// The computed mean of the five curve values at column index `i`.
pub open spec fn spec_mean_at(d: DataModel, i: int) -> Value {
    spec_avg5(d.curve1[i].value, d.curve2[i].value, d.curve3[i].value, d.curve4[i].value, d.curve5[i].value)
}

/// The mean and difference cells of one block, walking the reported
/// row's column indices: where all five curves carry a value, the
/// mean goes to the block's sixth row and the mean minus the reported
/// value to its ninth; other indices yield nothing.
pub open spec fn avg_diff_cells(d: DataModel, base: int, i: int) -> Seq<CellModel>
    decreases d.rows.len() - i,
{
    if i < 0 || i >= d.rows.len() {
        Seq::empty()
    } else {
        (if curves_have(d, i) {
            seq![
                num_cell(base + 5, 2 + i, spec_mean_at(d, i)),
                num_cell(base + 8, 2 + i, spec_sub(spec_mean_at(d, i), d.rows[i].value)),
            ]
        } else {
            Seq::empty()
        }) + avg_diff_cells(d, base, i + 1)
    }
}

/// The ten-row block of one file, in emission order: the test name,
/// the row-kind labels in column 1, the five curve rows, the reported
/// average row, then the mean and difference cells.
pub open spec fn spec_block_cells(d: DataModel, base: int) -> Seq<CellModel> {
    seq![
        text_cell(base, 0, d.test_name, CellFormat::Label),
        text_cell(base, 1, "1"@, CellFormat::Label),
        text_cell(base + 1, 1, "2"@, CellFormat::Label),
        text_cell(base + 2, 1, "3"@, CellFormat::Label),
        text_cell(base + 3, 1, "4"@, CellFormat::Label),
        text_cell(base + 4, 1, "5"@, CellFormat::Label),
        text_cell(base + 5, 1, "calcAVG"@, CellFormat::Label),
        text_cell(base + 7, 1, "AVG"@, CellFormat::Label),
        text_cell(base + 8, 1, "Diff"@, CellFormat::Label),
    ] + num_row_cells(d.curve1, base) + num_row_cells(d.curve2, base + 1) + num_row_cells(
        d.curve3,
        base + 2,
    ) + num_row_cells(d.curve4, base + 3) + num_row_cells(d.curve5, base + 4) + num_row_cells(
        d.rows,
        base + 7,
    ) + avg_diff_cells(d, base, 0)
}

/// The sheet row where the block of file `k` starts.
pub open spec fn block_base(k: int) -> int {
    HEADER_START_ROW + 1 + 10 * k
}

/// The blocks of the files from `k` on, each ten rows below the one
/// before.
pub open spec fn spec_blocks(ds: Seq<DataModel>, k: int) -> Seq<CellModel>
    decreases ds.len() - k,
{
    if k < 0 || k >= ds.len() {
        Seq::empty()
    } else {
        spec_block_cells(ds[k], block_base(k)) + spec_blocks(ds, k + 1)
    }
}

/// Every cell of the sheet: nothing for no files; else the header row
/// and one block per file, in input order.
pub open spec fn spec_layout_cells(ds: Seq<DataModel>) -> Seq<CellModel> {
    if ds.len() == 0 {
        Seq::empty()
    } else {
        spec_header_cells(ds[0].rows) + spec_blocks(ds, 0)
    }
}

/// The data view, as a function value.
pub open spec fn data_view_fn() -> spec_fn(Data) -> DataModel {
    |d: Data| d@
}

/// The models of a sequence of results.
pub open spec fn datas_model(v: Seq<Data>) -> Seq<DataModel> {
    v.map_values(data_view_fn())
}

/// One file's rows are short enough for the sheet's columns, and its
/// values lie within the parser's bounds.
pub open spec fn data_fits(d: DataModel) -> bool {
    &&& d.rows.len() <= 65533
    &&& d.curve1.len() <= 65533
    &&& d.curve2.len() <= 65533
    &&& d.curve3.len() <= 65533
    &&& d.curve4.len() <= 65533
    &&& d.curve5.len() <= 65533
    &&& rows_bounded(d.rows)
    &&& rows_bounded(d.curve1)
    &&& rows_bounded(d.curve2)
    &&& rows_bounded(d.curve3)
    &&& rows_bounded(d.curve4)
    &&& rows_bounded(d.curve5)
}

/// The collection fits the sheet: few enough files for its rows, and
/// each file fit on its own.
pub open spec fn layout_input_ok(ds: Seq<DataModel>) -> bool {
    ds.len() <= 400_000_000 && forall|k: int| 0 <= k < ds.len() ==> data_fits(#[trigger] ds[k])
}

/// Decides `data_fits` for one file.
pub fn data_fits_check(d: &Data) -> (r: bool)
    ensures
        r == data_fits(d@),
{
    let ok = d.row_data.len() <= 65533 && d.curve_data1.len() <= 65533 && d.curve_data2.len()
        <= 65533 && d.curve_data3.len() <= 65533 && d.curve_data4.len() <= 65533
        && d.curve_data5.len() <= 65533;
    if !ok {
        return false;
    }
    rows_bounded_check(&d.row_data) && rows_bounded_check(&d.curve_data1) && rows_bounded_check(
        &d.curve_data2,
    ) && rows_bounded_check(&d.curve_data3) && rows_bounded_check(&d.curve_data4)
        && rows_bounded_check(&d.curve_data5)
}

/// Decides `layout_input_ok` for a collection of files.
#[verifier::loop_isolation(false)]
pub fn layout_input_check(data: &Vec<Data>) -> (r: bool)
    ensures
        r == layout_input_ok(datas_model(data@)),
{
    let ghost ds = datas_model(data@);
    if data.len() > 400_000_000 {
        return false;
    }
    let mut k: usize = 0;
    while k < data.len()
        invariant
            k <= ds.len(),
            ds == datas_model(data@),
            ds.len() <= 400_000_000,
            forall|t: int| 0 <= t < k ==> data_fits(#[trigger] ds[t]),
        decreases ds.len() - k,
    {
        if !data_fits_check(&data[k]) {
            proof {
                assert(!data_fits(ds[k as int]));
                assert(!layout_input_ok(ds));
            }
            return false;
        }
        k = k + 1;
    }
    true
}

/// Decides the value bound of every row.
#[verifier::loop_isolation(false)]
fn rows_bounded_check(v: &Vec<Row>) -> (r: bool)
    ensures
        r == rows_bounded(rows_model(v@)),
{
    let ghost rs = rows_model(v@);
    let mut i: usize = 0;
    while i < v.len()
        invariant
            i <= rs.len(),
            rs == rows_model(v@),
            forall|t: int| 0 <= t < i ==> val_bounded((#[trigger] rs[t]).value, 18, 18),
        decreases rs.len() - i,
    {
        if !crate::decimal::val_bounded_check(&v[i].value) {
            proof {
                assert(!val_bounded(rs[i as int].value, 18, 18));
                assert(!rows_bounded(rs));
            }
            return false;
        }
        i = i + 1;
    }
    true
}

fn push_text_cell(out: &mut Vec<Cell>, row: u32, col: u16, t: String, f: CellFormat)
    ensures
        cells_model(final(out)@) == cells_model(old(out)@).push(
            text_cell(row as int, col as int, t@, f),
        ),
{
    let ghost prev = cells_model(out@);
    out.push(Cell { row, col, value: CellValue::Text(t), format: f });
    proof {
        assert(cells_model(out@) =~= prev.push(
            text_cell(row as int, col as int, t@, f),
        ));
    }
}

/// Appends one row of numbers, from column 2 on.
#[verifier::loop_isolation(false)]
fn push_num_row(out: &mut Vec<Cell>, rows: &Vec<Row>, row: u32)
    requires
        rows@.len() <= 65533,
    ensures
        cells_model(final(out)@) == cells_model(old(out)@) + num_row_cells(
            rows_model(rows@),
            row as int,
        ),
{
    let ghost rs = rows_model(rows@);
    let mut i: usize = 0;
    proof {
        assert(cells_model(out@) + num_row_cells(rs, row as int).take(0) =~= cells_model(out@));
    }
    while i < rows.len()
        invariant
            i <= rs.len(),
            rs == rows_model(rows@),
            rs.len() <= 65533,
            cells_model(out@) == cells_model(old(out)@) + num_row_cells(rs, row as int).take(
                i as int,
            ),
        decreases rs.len() - i,
    {
        let ghost prev = cells_model(out@);
        out.push(
            Cell {
                row,
                col: 2 + (i as u16),
                value: CellValue::Number(rows[i].value),
                format: CellFormat::Numeric,
            },
        );
        proof {
            assert(cells_model(out@) =~= prev.push(num_cell(row as int, 2 + i, rs[i as int].value)));
            assert(num_row_cells(rs, row as int).take(i + 1) =~= num_row_cells(
                rs,
                row as int,
            ).take(i as int).push(num_cell(row as int, 2 + i, rs[i as int].value)));
            assert(cells_model(old(out)@) + num_row_cells(rs, row as int).take(i as int).push(
                num_cell(row as int, 2 + i, rs[i as int].value),
            ) =~= cells_model(out@));
        }
        i = i + 1;
    }
    proof {
        assert(num_row_cells(rs, row as int).take(rs.len() as int) =~= num_row_cells(
            rs,
            row as int,
        ));
    }
}

/// Appends one file's block.
#[verifier::loop_isolation(false)]
#[verifier::rlimit(100)]
#[verifier::spinoff_prover]
fn push_block(out: &mut Vec<Cell>, d: &Data, base: u32)
    requires
        data_fits(d@),
        base + 8 <= u32::MAX,
    ensures
        cells_model(final(out)@) == cells_model(old(out)@) + spec_block_cells(d@, base as int),
{
    let ghost dm = d@;
    push_text_cell(out, base, 0, d.test_name.clone(), CellFormat::Label);
    push_text_cell(out, base, 1, "1".to_owned(), CellFormat::Label);
    push_text_cell(out, base + 1, 1, "2".to_owned(), CellFormat::Label);
    push_text_cell(out, base + 2, 1, "3".to_owned(), CellFormat::Label);
    push_text_cell(out, base + 3, 1, "4".to_owned(), CellFormat::Label);
    push_text_cell(out, base + 4, 1, "5".to_owned(), CellFormat::Label);
    push_text_cell(out, base + 5, 1, "calcAVG".to_owned(), CellFormat::Label);
    push_text_cell(out, base + 7, 1, "AVG".to_owned(), CellFormat::Label);
    push_text_cell(out, base + 8, 1, "Diff".to_owned(), CellFormat::Label);
    push_num_row(out, &d.curve_data1, base);
    push_num_row(out, &d.curve_data2, base + 1);
    push_num_row(out, &d.curve_data3, base + 2);
    push_num_row(out, &d.curve_data4, base + 3);
    push_num_row(out, &d.curve_data5, base + 4);
    push_num_row(out, &d.row_data, base + 7);
    let ghost before_avg = cells_model(out@);
    let mut i: usize = 0;
    proof {
        assert(cells_model(out@) + Seq::<CellModel>::empty() =~= cells_model(out@));
    }
    while i < d.row_data.len()
        invariant
            i <= dm.rows.len(),
            dm == d@,
            data_fits(dm),
            base + 8 <= u32::MAX,
            avg_diff_cells(dm, base as int, 0) == cells_model(out@).skip(
                before_avg.len() as int,
            ) + avg_diff_cells(dm, base as int, i as int),
            cells_model(out@).take(before_avg.len() as int) == before_avg,
            cells_model(out@).len() >= before_avg.len(),
        decreases dm.rows.len() - i,
    {
        let ghost prev = cells_model(out@);
        let have = i < d.curve_data1.len() && i < d.curve_data2.len() && i < d.curve_data3.len()
            && i < d.curve_data4.len() && i < d.curve_data5.len();
        proof {
            assert(curves_have(dm, i as int) == have);
        }
        let ghost piece: Seq<CellModel> = if curves_have(dm, i as int) {
            seq![
                num_cell(base + 5, 2 + i, spec_mean_at(dm, i as int)),
                num_cell(
                    base + 8,
                    2 + i,
                    spec_sub(spec_mean_at(dm, i as int), dm.rows[i as int].value),
                ),
            ]
        } else {
            Seq::empty()
        };
        if have {
            let mean = avg5(
                &d.curve_data1[i].value,
                &d.curve_data2[i].value,
                &d.curve_data3[i].value,
                &d.curve_data4[i].value,
                &d.curve_data5[i].value,
            );
            let diff = sub_values(&mean, &d.row_data[i].value);
            proof {
                assert(val_bounded(dm.rows[i as int].value, 18, 19)) by {
                    crate::decimal::lemma_bound_widen(dm.rows[i as int].value);
                }
                assert(mean == spec_mean_at(dm, i as int));
                assert(diff == spec_sub(spec_mean_at(dm, i as int), dm.rows[i as int].value));
            }
            out.push(
                Cell {
                    row: base + 5,
                    col: 2 + (i as u16),
                    value: CellValue::Number(mean),
                    format: CellFormat::Numeric,
                },
            );
            out.push(
                Cell {
                    row: base + 8,
                    col: 2 + (i as u16),
                    value: CellValue::Number(diff),
                    format: CellFormat::Numeric,
                },
            );
            proof {
                assert(cells_model(out@) =~= prev + piece);
            }
        } else {
            proof {
                assert(cells_model(out@) =~= prev + piece);
            }
        }
        proof {
            assert(avg_diff_cells(dm, base as int, i as int) == piece + avg_diff_cells(
                dm,
                base as int,
                i + 1,
            ));
            assert(cells_model(out@).take(before_avg.len() as int) =~= before_avg);
            assert(cells_model(out@).skip(before_avg.len() as int) =~= prev.skip(
                before_avg.len() as int,
            ) + piece);
            assert(prev.skip(before_avg.len() as int) + piece + avg_diff_cells(
                dm,
                base as int,
                i + 1,
            ) =~= prev.skip(before_avg.len() as int) + (piece + avg_diff_cells(
                dm,
                base as int,
                i + 1,
            )));
        }
        i = i + 1;
    }
    proof {
        assert(cells_model(out@) =~= cells_model(out@).take(before_avg.len() as int) + cells_model(
            out@,
        ).skip(before_avg.len() as int));
        assert(cells_model(out@) =~= before_avg + avg_diff_cells(dm, base as int, 0));
        assert(before_avg + avg_diff_cells(dm, base as int, 0) =~= cells_model(old(out)@)
            + spec_block_cells(dm, base as int));
    }
}

/// Lays the files out as one sheet: nothing but the named shell for
/// no files; else the header row from the first file's labels, one
/// ten-row block per file in input order, and a width for the first
/// column.
#[verifier::loop_isolation(false)]
pub fn build_sheet_layout(data: &Vec<Data>, sheet_name: &str) -> (r: SheetLayout)
    requires
        layout_input_ok(datas_model(data@)),
    ensures
        r.sheet_name@ == sheet_name@,
        cells_model(r.cells@) == spec_layout_cells(datas_model(data@)),
        data@.len() == 0 ==> r.column_widths@ == Seq::<(u16, u32)>::empty(),
        data@.len() > 0 ==> r.column_widths@ == seq![(0u16, 145u32)],
{
    let ghost ds = datas_model(data@);
    let mut cells: Vec<Cell> = Vec::new();
    let mut widths: Vec<(u16, u32)> = Vec::new();
    if data.len() == 0 {
        proof {
            assert(cells_model(cells@) =~= spec_layout_cells(ds));
        }
        return SheetLayout { sheet_name: sheet_name.to_owned(), cells, column_widths: widths };
    }
    // the header row
    push_text_cell(&mut cells, HEADER_START_ROW, 0, "Test Name".to_owned(), CellFormat::Heading);
    push_text_cell(&mut cells, HEADER_START_ROW, 1, "Curve".to_owned(), CellFormat::Heading);
    let first = &data[0];
    let ghost hdr = spec_header_cells(ds[0].rows);
    let mut i: usize = 0;
    proof {
        assert(cells_model(cells@) =~= hdr.take(2));
    }
    while i < first.row_data.len()
        invariant
            i <= ds[0].rows.len(),
            ds == datas_model(data@),
            data@.len() > 0,
            first == &data@[0],
            hdr == spec_header_cells(ds[0].rows),
            layout_input_ok(ds),
            cells_model(cells@) == hdr.take(2 + i),
        decreases ds[0].rows.len() - i,
    {
        let ghost prev = cells_model(cells@);
        let label = first.row_data[i].header.clone();
        push_text_cell(&mut cells, HEADER_START_ROW, 2 + (i as u16), label, CellFormat::Heading);
        proof {
            assert(hdr.take(2 + i + 1) =~= hdr.take(2 + i).push(
                text_cell(
                    HEADER_START_ROW as int,
                    2 + i,
                    ds[0].rows[i as int].label,
                    CellFormat::Heading,
                ),
            ));
        }
        i = i + 1;
    }
    proof {
        assert(hdr.take(2 + ds[0].rows.len() as int) =~= hdr);
    }
    // one block per file
    let mut k: usize = 0;
    proof {
        assert(cells_model(cells@) + spec_blocks(ds, 0) =~= hdr + spec_blocks(ds, 0));
    }
    while k < data.len()
        invariant
            k <= ds.len(),
            ds == datas_model(data@),
            data@.len() > 0,
            layout_input_ok(ds),
            spec_layout_cells(ds) == cells_model(cells@) + spec_blocks(ds, k as int),
        decreases ds.len() - k,
    {
        let ghost prev = cells_model(cells@);
        let base: u32 = HEADER_START_ROW + 1 + 10 * (k as u32);
        proof {
            assert(base == block_base(k as int));
            assert(data_fits(ds[k as int]));
        }
        push_block(&mut cells, &data[k], base);
        proof {
            assert(prev + (spec_block_cells(ds[k as int], block_base(k as int)) + spec_blocks(
                ds,
                k + 1,
            )) =~= cells_model(cells@) + spec_blocks(ds, k + 1));
        }
        k = k + 1;
    }
    widths.push((0, 145));
    proof {
        assert(spec_blocks(ds, ds.len() as int) =~= Seq::<CellModel>::empty());
        assert(cells_model(cells@) + Seq::<CellModel>::empty() =~= cells_model(cells@));
        assert(widths@ =~= seq![(0u16, 145u32)]);
    }
    SheetLayout { sheet_name: sheet_name.to_owned(), cells, column_widths: widths }
}

} // verus!
