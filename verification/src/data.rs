//! Reading one report: find the test name and the header line, read
//! the labeled value rows under it, read the five fixed curve blocks,
//! and collect warnings for lines that do not parse.
use crate::config::{ConfigStore, CurveLayout, ReadRowMode, ReadStartMode};
use crate::decimal::{spec_parse_value, val_bounded, parse_value, Value};
use crate::text::{
    spec_find, spec_lines, spec_remove_all, spec_trim, lemma_find_bounds, find_sub, remove_all,
    split_lines, starts_with_str, trim_ws,
};
use vstd::prelude::*;

verus! {

/// One labeled value read from a report line.
#[derive(PartialEq, Debug)]
pub struct Row {
    /// The trimmed label before the separator.
    pub header: String,
    /// The value parsed from the text after the separator.
    pub value: Value,
}

/// What a row is: its label text and its exact value.
pub struct RowModel {
    /// The label.
    pub label: Seq<char>,
    /// The value.
    pub value: Value,
}

impl View for Row {
    type V = RowModel;

    open spec fn view(&self) -> RowModel {
        RowModel { label: self.header@, value: self.value }
    }
}

impl Clone for Row {
    /// An equal row.
    fn clone(&self) -> (r: Self)
        ensures
            r == *self,
    {
        Row { header: self.header.clone(), value: self.value }
    }
}

impl Row {
    /// A row with the given label and value.
    pub fn new(header: String, value: Value) -> (r: Row)
        ensures
            r@.label == header@,
            r@.value == value,
    {
        Row { header, value }
    }
}

/// The row view, as a function value.
pub open spec fn row_view_fn() -> spec_fn(Row) -> RowModel {
    |r: Row| r@
}

/// The models of a sequence of rows.
pub open spec fn rows_model(v: Seq<Row>) -> Seq<RowModel> {
    v.map_values(row_view_fn())
}

/// All values of the rows lie within the parser's bounds.
pub open spec fn rows_bounded(v: Seq<RowModel>) -> bool {
    forall|i: int| 0 <= i < v.len() ==> val_bounded((#[trigger] v[i]).value, 18, 18)
}

/// Everything read from one report file.
#[derive(PartialEq, Debug)]
pub struct Data {
    /// The name of the test the report records.
    pub test_name: String,
    /// The labeled values of the main data block.
    pub row_data: Vec<Row>,
    /// The first curve block.
    pub curve_data1: Vec<Row>,
    /// The second curve block.
    pub curve_data2: Vec<Row>,
    /// The third curve block.
    pub curve_data3: Vec<Row>,
    /// The fourth curve block.
    pub curve_data4: Vec<Row>,
    /// The fifth curve block.
    pub curve_data5: Vec<Row>,
}


/// What one file's results are.
pub struct DataModel {
    /// The test name.
    pub test_name: Seq<char>,
    /// The ordered rows of the main data block.
    pub rows: Seq<RowModel>,
    /// The first curve block.
    pub curve1: Seq<RowModel>,
    /// The second curve block.
    pub curve2: Seq<RowModel>,
    /// The third curve block.
    pub curve3: Seq<RowModel>,
    /// The fourth curve block.
    pub curve4: Seq<RowModel>,
    /// The fifth curve block.
    pub curve5: Seq<RowModel>,
}

impl View for Data {
    type V = DataModel;

    open spec fn view(&self) -> DataModel {
        DataModel {
            test_name: self.test_name@,
            rows: rows_model(self.row_data@),
            curve1: rows_model(self.curve_data1@),
            curve2: rows_model(self.curve_data2@),
            curve3: rows_model(self.curve_data3@),
            curve4: rows_model(self.curve_data4@),
            curve5: rows_model(self.curve_data5@),
        }
    }
}

impl Clone for Data {
    /// An equal collection of rows.
    fn clone(&self) -> (r: Self)
        ensures
            r.test_name == self.test_name,
            r.row_data@ == self.row_data@,
            r.curve_data1@ == self.curve_data1@,
            r.curve_data2@ == self.curve_data2@,
            r.curve_data3@ == self.curve_data3@,
            r.curve_data4@ == self.curve_data4@,
            r.curve_data5@ == self.curve_data5@,
    {
        Data {
            test_name: self.test_name.clone(),
            row_data: clone_rows(&self.row_data),
            curve_data1: clone_rows(&self.curve_data1),
            curve_data2: clone_rows(&self.curve_data2),
            curve_data3: clone_rows(&self.curve_data3),
            curve_data4: clone_rows(&self.curve_data4),
            curve_data5: clone_rows(&self.curve_data5),
        }
    }
}

fn clone_rows(v: &Vec<Row>) -> (r: Vec<Row>)
    ensures
        r@ == v@,
{
    let mut out: Vec<Row> = Vec::new();
    let mut i: usize = 0;
    while i < v.len()
        invariant
            i <= v@.len(),
            out@ == v@.take(i as int),
        decreases v@.len() - i,
    {
        out.push(v[i].clone());
        proof {
            assert(v@.take(i + 1) =~= v@.take(i as int).push(v@[i as int]));
        }
        i = i + 1;
    }
    proof {
        assert(v@.take(v@.len() as int) =~= v@);
    }
    out
}

impl Data {
    /// A result with the given test name and no rows yet.
    pub fn new(test_name: String) -> (r: Data)
        ensures
            r.test_name == test_name,
            r.row_data@.len() == 0,
            r.curve_data1@.len() == 0,
            r.curve_data2@.len() == 0,
            r.curve_data3@.len() == 0,
            r.curve_data4@.len() == 0,
            r.curve_data5@.len() == 0,
    {
        Data {
            test_name,
            row_data: Vec::new(),
            curve_data1: Vec::new(),
            curve_data2: Vec::new(),
            curve_data3: Vec::new(),
            curve_data4: Vec::new(),
            curve_data5: Vec::new(),
        }
    }

    /// A result with the given test name, rows and curves.
    pub fn new1(
        test_name: String,
        row_data: Vec<Row>,
        curve_data1: Vec<Row>,
        curve_data2: Vec<Row>,
        curve_data3: Vec<Row>,
        curve_data4: Vec<Row>,
        curve_data5: Vec<Row>,
    ) -> (r: Data)
        ensures
            r.test_name == test_name,
            r.row_data == row_data,
            r.curve_data1 == curve_data1,
            r.curve_data2 == curve_data2,
            r.curve_data3 == curve_data3,
            r.curve_data4 == curve_data4,
            r.curve_data5 == curve_data5,
    {
        Data { test_name, row_data, curve_data1, curve_data2, curve_data3, curve_data4, curve_data5 }
    }
}

/// The test name that the lines carry: the first line that starts
/// with the prefix, with every occurrence of the prefix removed.
pub open spec fn spec_test_name(ls: Seq<Seq<char>>, prefix: Seq<char>) -> Option<Seq<char>>
    decreases ls.len(),
{
    if ls.len() == 0 {
        None
    } else if prefix.is_prefix_of(ls[0]) {
        Some(spec_remove_all(ls[0], prefix))
    } else {
        spec_test_name(ls.skip(1), prefix)
    }
}

/// Finds the test name among the lines, by the configured prefix.
#[verifier::loop_isolation(false)]
pub fn get_test_name_from_lines(lines: &Vec<String>, config: &ConfigStore) -> (r: Option<String>)
    ensures
        match r {
            Some(t) => spec_test_name(lines.deep_view(), config.read_test_name_prefix@) == Some(
                t@,
            ),
            None => spec_test_name(lines.deep_view(), config.read_test_name_prefix@) is None,
        },
{
    let ghost ls = lines.deep_view();
    let ghost prefix = config.read_test_name_prefix@;
    let n = lines.len();
    let mut i: usize = 0;
    proof {
        assert(ls.skip(0) =~= ls);
    }
    while i < n
        invariant
            i <= n,
            n == ls.len(),
            spec_test_name(ls, prefix) == spec_test_name(ls.skip(i as int), prefix),
        decreases n - i,
    {
        proof {
            assert(ls.skip(i as int)[0] == ls[i as int]);
            assert(ls.skip(i as int).skip(1) =~= ls.skip(i as int + 1));
        }
        if starts_with_str(lines[i].as_str(), config.read_test_name_prefix.as_str()) {
            let t = remove_all(lines[i].as_str(), config.read_test_name_prefix.as_str());
            return Some(t);
        }
        i = i + 1;
    }
    proof {
        assert(ls.skip(n as int).len() == 0);
    }
    None
}

/// The index of the first line equal to `target`, from `from` on.
pub open spec fn spec_find_line(ls: Seq<Seq<char>>, target: Seq<char>, from: int) -> Option<int>
    decreases ls.len() - from,
{
    if from < 0 || from >= ls.len() {
        None
    } else if ls[from] == target {
        Some(from)
    } else {
        spec_find_line(ls, target, from + 1)
    }
}

/// The header locator returns the first full match: if the line at
/// `i` equals the header text and no earlier line does, the match is
/// at `i`.
pub proof fn lemma_header_first_match(ls: Seq<Seq<char>>, target: Seq<char>, i: int)
    requires
        0 <= i < ls.len(),
        ls[i] == target,
        forall|k: int| 0 <= k < i ==> ls[k] != target,
    ensures
        spec_find_line(ls, target, 0) == Some(i),
{
    lemma_find_line_step(ls, target, 0, i);
}

proof fn lemma_find_line_step(ls: Seq<Seq<char>>, target: Seq<char>, from: int, i: int)
    requires
        0 <= from <= i < ls.len(),
        ls[i] == target,
        forall|k: int| from <= k < i ==> ls[k] != target,
    ensures
        spec_find_line(ls, target, from) == Some(i),
    decreases i - from,
{
    if from < i {
        lemma_find_line_step(ls, target, from + 1, i);
    }
}

/// The text of the failure that names a header that no line holds.
pub open spec fn header_err_text(header: Seq<char>, filename: Seq<char>) -> Seq<char> {
    "Could not find the header str \""@ + header + "\" in file \""@ + filename + "\""@
}

/// Finds the 0-based index of the header line: the configured index
/// in the index mode, unchecked; the first line equal to the
/// configured header text in the header mode, or the failure text
/// when no line equals it.
#[verifier::loop_isolation(false)]
pub fn get_header_idx_from_lines(filename: &str, lines: &Vec<String>, config: &ConfigStore) -> (r:
    Result<usize, String>)
    ensures
        config.read_start_mode is Index ==> r == Ok::<usize, String>(
            config.read_start_idx as usize,
        ),
        config.read_start_mode is Header ==> match r {
            Ok(h) => spec_find_line(lines.deep_view(), config.read_start_header@, 0) == Some(
                h as int,
            ),
            Err(e) => spec_find_line(lines.deep_view(), config.read_start_header@, 0) is None
                && e@ == header_err_text(config.read_start_header@, filename@),
        },
{
    match config.read_start_mode {
        ReadStartMode::Index => Ok(config.read_start_idx as usize),
        ReadStartMode::Header => {
            let ghost ls = lines.deep_view();
            let ghost target = config.read_start_header@;
            let n = lines.len();
            let mut i: usize = 0;
            while i < n
                invariant
                    i <= n,
                    n == ls.len(),
                    spec_find_line(ls, target, 0) == spec_find_line(ls, target, i as int),
                decreases n - i,
            {
                if crate::text::str_eq(lines[i].as_str(), config.read_start_header.as_str()) {
                    return Ok(i);
                }
                i = i + 1;
            }
            let mut msg = String::new();
            msg.append("Could not find the header str \"");
            msg.append(config.read_start_header.as_str());
            msg.append("\" in file \"");
            msg.append(filename);
            msg.append("\"");
            proof {
                assert(msg@ =~= header_err_text(target, filename@));
            }
            Err(msg)
        },
    }
}

/// A non-fatal problem met while reading one line.
#[derive(PartialEq, Debug)]
pub enum ExtractWarning {
    /// The line did not split into at least two fields.
    SplitShort {
        /// The offending line.
        line: String,
    },
    /// The value field did not parse as a number.
    ParseFail {
        /// The field that failed to parse.
        field: String,
        /// The offending line.
        line: String,
    },
    /// The line did not start with the expected row header.
    BreaksPattern {
        /// The offending line.
        line: String,
    },
}

/// What a warning records.
pub enum WarnModel {
    /// The line did not split into at least two fields.
    SplitShort {
        /// The offending line.
        line: Seq<char>,
    },
    /// The value field did not parse as a number.
    ParseFail {
        /// The field that failed to parse.
        field: Seq<char>,
        /// The offending line.
        line: Seq<char>,
    },
    /// The line did not start with the expected row header.
    BreaksPattern {
        /// The offending line.
        line: Seq<char>,
    },
}

impl View for ExtractWarning {
    type V = WarnModel;

    open spec fn view(&self) -> WarnModel {
        match self {
            ExtractWarning::SplitShort { line } => WarnModel::SplitShort { line: line@ },
            ExtractWarning::ParseFail { field, line } => WarnModel::ParseFail {
                field: field@,
                line: line@,
            },
            ExtractWarning::BreaksPattern { line } => WarnModel::BreaksPattern { line: line@ },
        }
    }
}

/// The text of a warning, as the warning list carries it.
pub open spec fn warn_text(w: WarnModel) -> Seq<char> {
    match w {
        WarnModel::SplitShort { line } => "Couldn't find a proper split for \""@ + line
            + "\", len < 2"@,
        WarnModel::ParseFail { field, line } => "Failed to parse \""@ + field + "\" in line \""@
            + line + "\" as a number"@,
        WarnModel::BreaksPattern { line } => line + " breaks row pattern"@,
    }
}

impl ExtractWarning {
    /// The warning's text.
    pub fn render(&self) -> (r: String)
        ensures
            r@ == warn_text(self@),
    {
        let mut msg = String::new();
        match self {
            ExtractWarning::SplitShort { line } => {
                msg.append("Couldn't find a proper split for \"");
                msg.append(line.as_str());
                msg.append("\", len < 2");
            },
            ExtractWarning::ParseFail { field, line } => {
                msg.append("Failed to parse \"");
                msg.append(field.as_str());
                msg.append("\" in line \"");
                msg.append(line.as_str());
                msg.append("\" as a number");
            },
            ExtractWarning::BreaksPattern { line } => {
                msg.append(line.as_str());
                msg.append(" breaks row pattern");
            },
        }
        proof {
            assert(msg@ =~= warn_text(self@));
        }
        msg
    }
}

/// The first two fields of a line split by the separator, when the
/// split yields at least two; the empty separator splits as the
/// standard library does, an empty field before each character.
pub open spec fn spec_split_fields(line: Seq<char>, sep: Seq<char>) -> Option<
    (Seq<char>, Seq<char>),
> {
    if sep.len() == 0 {
        if line.len() > 0 {
            Some((Seq::empty(), seq![line[0]]))
        } else {
            Some((Seq::empty(), Seq::empty()))
        }
    } else {
        match spec_find(line, sep, 0) {
            None => None,
            Some(i) => {
                let rest_from = i + sep.len();
                match spec_find(line, sep, rest_from) {
                    None => Some((line.take(i), line.subrange(rest_from, line.len() as int))),
                    Some(j) => Some((line.take(i), line.subrange(rest_from, j))),
                }
            },
        }
    }
}

/// Splits a line at the separator and hands back the first two
/// fields, or nothing when there are fewer than two.
pub fn split_first_two(line: &str, sep: &str) -> (r: Option<(String, String)>)
    ensures
        match r {
            Some(p) => spec_split_fields(line@, sep@) == Some((p.0@, p.1@)),
            None => spec_split_fields(line@, sep@) is None,
        },
{
    let n: usize = line.unicode_len();
    let m: usize = sep.unicode_len();
    if m == 0 {
        let f0 = String::new();
        if n > 0 {
            let f1 = line.substring_char(0, 1).to_owned();
            proof {
                assert(f1@ =~= seq![line@[0]]);
            }
            return Some((f0, f1));
        } else {
            let f1 = String::new();
            return Some((f0, f1));
        }
    }
    match find_sub(line, sep, 0) {
        None => None,
        Some(i) => {
            proof {
                lemma_find_bounds(line@, sep@, 0);
            }
            let rest_from: usize = i + m;
            let f0 = line.substring_char(0, i).to_owned();
            match find_sub(line, sep, rest_from) {
                None => {
                    let f1 = line.substring_char(rest_from, n).to_owned();
                    Some((f0, f1))
                },
                Some(j) => {
                    proof {
                        lemma_find_bounds(line@, sep@, rest_from as int);
                    }
                    let f1 = line.substring_char(rest_from, j).to_owned();
                    Some((f0, f1))
                },
            }
        },
    }
}

/// What reading one line yields: a row when the line splits and its
/// value parses; otherwise the warning that says what failed.
pub open spec fn spec_parse_row(line: Seq<char>, sep: Seq<char>) -> (
    Option<RowModel>,
    Option<WarnModel>,
) {
    match spec_split_fields(line, sep) {
        None => (None, Some(WarnModel::SplitShort { line })),
        Some(f) => match spec_parse_value(spec_trim(f.1)) {
            Some(v) => (Some(RowModel { label: spec_trim(f.0), value: v }), None),
            None => (None, Some(WarnModel::ParseFail { field: f.1, line })),
        },
    }
}

/// Reads one line into a labeled value, or a warning.
pub fn parse_row(line: &str, sep: &str) -> (r: (Option<Row>, Option<ExtractWarning>))
    ensures
        match r.0 {
            Some(row) => spec_parse_row(line@, sep@).0 == Some(row@) && val_bounded(
                row.value,
                18,
                18,
            ),
            None => spec_parse_row(line@, sep@).0 is None,
        },
        match r.1 {
            Some(w) => spec_parse_row(line@, sep@).1 == Some(w@),
            None => spec_parse_row(line@, sep@).1 is None,
        },
        r.0 is Some <==> r.1 is None,
{
    match split_first_two(line, sep) {
        None => (None, Some(ExtractWarning::SplitShort { line: line.to_owned() })),
        Some(f) => {
            let (f0, f1) = f;
            let trimmed = trim_ws(f1.as_str());
            match parse_value(trimmed) {
                Some(v) => {
                    let label = trim_ws(f0.as_str()).to_owned();
                    (Some(Row { header: label, value: v }), None)
                },
                None => (
                    None,
                    Some(ExtractWarning::ParseFail { field: f1, line: line.to_owned() }),
                ),
            }
        },
    }
}

/// A single element, or nothing.
pub open spec fn opt_to_seq<T>(o: Option<T>) -> Seq<T> {
    match o {
        Some(x) => seq![x],
        None => Seq::empty(),
    }
}

/// The rows and warnings of `cnt` consecutive lines from `pos` on,
/// each line read by the split-and-parse rule.
pub open spec fn spec_scan_rows(
    ls: Seq<Seq<char>>,
    pos: int,
    cnt: nat,
    sep: Seq<char>,
) -> (Seq<RowModel>, Seq<WarnModel>)
    decreases cnt,
{
    if cnt == 0 {
        (Seq::empty(), Seq::empty())
    } else {
        let head = spec_parse_row(ls[pos], sep);
        let rest = spec_scan_rows(ls, pos + 1, (cnt - 1) as nat, sep);
        (opt_to_seq(head.0) + rest.0, opt_to_seq(head.1) + rest.1)
    }
}

/// Reads `cnt` consecutive lines from `pos` on into rows and
/// warnings.
#[verifier::loop_isolation(false)]
pub fn scan_rows(lines: &Vec<String>, pos: usize, cnt: usize, sep: &str) -> (r: (
    Vec<Row>,
    Vec<ExtractWarning>,
))
    requires
        pos + cnt <= lines@.len(),
    ensures
        rows_model(r.0@) == spec_scan_rows(lines.deep_view(), pos as int, cnt as nat, sep@).0,
        warns_model(r.1@) == spec_scan_rows(lines.deep_view(), pos as int, cnt as nat, sep@).1,
        rows_bounded(rows_model(r.0@)),
{
    let ghost ls = lines.deep_view();
    let n = lines.len();
    let mut rows: Vec<Row> = Vec::new();
    let mut warns: Vec<ExtractWarning> = Vec::new();
    let mut k: usize = 0;
    proof {
        assert(rows_model(rows@) + spec_scan_rows(ls, pos as int, cnt as nat, sep@).0
            =~= spec_scan_rows(ls, pos as int, cnt as nat, sep@).0);
        assert(warns_model(warns@) + spec_scan_rows(ls, pos as int, cnt as nat, sep@).1
            =~= spec_scan_rows(ls, pos as int, cnt as nat, sep@).1);
    }
    while k < cnt
        invariant
            k <= cnt,
            pos + cnt <= n,
            n == lines@.len(),
            pos + cnt <= ls.len(),
            ls == lines.deep_view(),
            spec_scan_rows(ls, pos as int, cnt as nat, sep@).0 == rows_model(rows@)
                + spec_scan_rows(ls, pos + k, (cnt - k) as nat, sep@).0,
            spec_scan_rows(ls, pos as int, cnt as nat, sep@).1 == warns_model(warns@)
                + spec_scan_rows(ls, pos + k, (cnt - k) as nat, sep@).1,
            rows_bounded(rows_model(rows@)),
        decreases cnt - k,
    {
        let ghost prev_rows = rows_model(rows@);
        let ghost prev_warns = warns_model(warns@);
        let (row, warn) = parse_row(lines[pos + k].as_str(), sep);
        proof {
            assert(ls[pos + k] == lines@[pos + k]@);
        }
        match row {
            Some(rw) => {
                rows.push(rw);
            },
            None => {},
        }
        match warn {
            Some(w) => {
                warns.push(w);
            },
            None => {},
        }
        proof {
            let head = spec_parse_row(ls[pos + k], sep@);
            assert(rows_model(rows@) =~= prev_rows + opt_to_seq(head.0));
            assert(warns_model(warns@) =~= prev_warns + opt_to_seq(head.1));
            assert(prev_rows + (opt_to_seq(head.0) + spec_scan_rows(
                ls,
                pos + k + 1,
                (cnt - k - 1) as nat,
                sep@,
            ).0) =~= rows_model(rows@) + spec_scan_rows(ls, pos + k + 1, (cnt - k - 1) as nat, sep@).0);
            assert(prev_warns + (opt_to_seq(head.1) + spec_scan_rows(
                ls,
                pos + k + 1,
                (cnt - k - 1) as nat,
                sep@,
            ).1) =~= warns_model(warns@) + spec_scan_rows(ls, pos + k + 1, (cnt - k - 1) as nat, sep@).1);
        }
        k = k + 1;
    }
    proof {
        assert(rows_model(rows@) + spec_scan_rows(ls, pos + cnt, 0, sep@).0 =~= rows_model(rows@));
        assert(warns_model(warns@) + spec_scan_rows(ls, pos + cnt, 0, sep@).1 =~= warns_model(
            warns@,
        ));
    }
    (rows, warns)
}

/// The warning view, as a function value.
pub open spec fn warn_view_fn() -> spec_fn(ExtractWarning) -> WarnModel {
    |w: ExtractWarning| w@
}

/// The models of a sequence of warnings.
pub open spec fn warns_model(v: Seq<ExtractWarning>) -> Seq<WarnModel> {
    v.map_values(warn_view_fn())
}

/// The rows and warnings of the label-sequence walk: lines from `pos`
/// on are read while each starts with the next expected label; a line
/// that does not ends the walk with one warning.
pub open spec fn spec_scan_labels(
    ls: Seq<Seq<char>>,
    pos: int,
    labels: Seq<Seq<char>>,
    li: int,
    sep: Seq<char>,
) -> (Seq<RowModel>, Seq<WarnModel>)
    decreases labels.len() - li,
{
    if li < 0 || li >= labels.len() || pos < 0 || pos >= ls.len() {
        (Seq::empty(), Seq::empty())
    } else if labels[li].is_prefix_of(ls[pos]) {
        let head = spec_parse_row(ls[pos], sep);
        let rest = spec_scan_labels(ls, pos + 1, labels, li + 1, sep);
        (opt_to_seq(head.0) + rest.0, opt_to_seq(head.1) + rest.1)
    } else {
        (Seq::empty(), seq![WarnModel::BreaksPattern { line: ls[pos] }])
    }
}

/// Reads lines from `pos` on while each starts with the next of the
/// configured row headers.
#[verifier::loop_isolation(false)]
pub fn scan_labels(lines: &Vec<String>, pos: usize, labels: &Vec<String>, sep: &str) -> (r: (
    Vec<Row>,
    Vec<ExtractWarning>,
))
    requires
        pos <= lines@.len(),
    ensures
        rows_model(r.0@) == spec_scan_labels(
            lines.deep_view(),
            pos as int,
            labels.deep_view(),
            0,
            sep@,
        ).0,
        warns_model(r.1@) == spec_scan_labels(
            lines.deep_view(),
            pos as int,
            labels.deep_view(),
            0,
            sep@,
        ).1,
        rows_bounded(rows_model(r.0@)),
{
    let ghost ls = lines.deep_view();
    let ghost lbs = labels.deep_view();
    let mut rows: Vec<Row> = Vec::new();
    let mut warns: Vec<ExtractWarning> = Vec::new();
    let mut i: usize = 0;
    proof {
        assert(rows_model(rows@) + spec_scan_labels(ls, pos as int, lbs, 0, sep@).0
            =~= spec_scan_labels(ls, pos as int, lbs, 0, sep@).0);
        assert(warns_model(warns@) + spec_scan_labels(ls, pos as int, lbs, 0, sep@).1
            =~= spec_scan_labels(ls, pos as int, lbs, 0, sep@).1);
    }
    while i < labels.len() && i < lines.len() - pos
        invariant
            i <= lbs.len(),
            pos <= lines@.len(),
            pos + i <= ls.len(),
            ls.len() == lines@.len(),
            ls == lines.deep_view(),
            lbs == labels.deep_view(),
            spec_scan_labels(ls, pos as int, lbs, 0, sep@).0 == rows_model(rows@)
                + spec_scan_labels(ls, pos + i, lbs, i as int, sep@).0,
            spec_scan_labels(ls, pos as int, lbs, 0, sep@).1 == warns_model(warns@)
                + spec_scan_labels(ls, pos + i, lbs, i as int, sep@).1,
            rows_bounded(rows_model(rows@)),
        decreases lbs.len() - i,
    {
        let ghost prev_rows = rows_model(rows@);
        let ghost prev_warns = warns_model(warns@);
        let line = &lines[pos + i];
        if starts_with_str(line.as_str(), labels[i].as_str()) {
            let (row, warn) = parse_row(line.as_str(), sep);
            match row {
                Some(rw) => {
                    rows.push(rw);
                },
                None => {},
            }
            match warn {
                Some(w) => {
                    warns.push(w);
                },
                None => {},
            }
            proof {
                let head = spec_parse_row(ls[pos + i], sep@);
                assert(rows_model(rows@) =~= prev_rows + opt_to_seq(head.0));
                assert(warns_model(warns@) =~= prev_warns + opt_to_seq(head.1));
                assert(prev_rows + (opt_to_seq(head.0) + spec_scan_labels(
                    ls,
                    pos + i + 1,
                    lbs,
                    i + 1,
                    sep@,
                ).0) =~= rows_model(rows@) + spec_scan_labels(ls, pos + i + 1, lbs, i + 1, sep@).0);
                assert(prev_warns + (opt_to_seq(head.1) + spec_scan_labels(
                    ls,
                    pos + i + 1,
                    lbs,
                    i + 1,
                    sep@,
                ).1) =~= warns_model(warns@) + spec_scan_labels(ls, pos + i + 1, lbs, i + 1, sep@).1);
            }
        } else {
            let w = ExtractWarning::BreaksPattern { line: line.clone() };
            warns.push(w);
            proof {
                assert(warns_model(warns@) =~= prev_warns + seq![
                    WarnModel::BreaksPattern { line: ls[pos + i] },
                ]);
                assert(rows_model(rows@) + Seq::<RowModel>::empty() =~= rows_model(rows@));
            }
            return (rows, warns);
        }
        i = i + 1;
    }
    proof {
        assert(rows_model(rows@) + spec_scan_labels(ls, pos + i, lbs, i as int, sep@).0
            =~= rows_model(rows@));
        assert(warns_model(warns@) + spec_scan_labels(ls, pos + i, lbs, i as int, sep@).1
            =~= warns_model(warns@));
    }
    (rows, warns)
}

/// The warning text, as a function value.
pub open spec fn warn_text_fn() -> spec_fn(WarnModel) -> Seq<char> {
    |w: WarnModel| warn_text(w)
}

/// The fallback test name when no line carries the prefix.
pub open spec fn unknown_name_text(filename: Seq<char>) -> Seq<char> {
    "Unknown test name from \""@ + filename + "\""@
}

/// The text of the failure when the row range leaves the lines.
pub open spec fn range_err_text(filename: Seq<char>) -> Seq<char> {
    "Row range falls outside available lines in file \""@ + filename + "\""@
}

/// The text of the failure when a curve block leaves the lines.
pub open spec fn curve_err_text(filename: Seq<char>) -> Seq<char> {
    "Curve block range falls outside available lines in file \""@ + filename + "\""@
}

/// The header index the extraction uses: the configured index in the
/// index mode, the first matching line in the header mode.
pub open spec fn spec_header_of(ls: Seq<Seq<char>>, config: &ConfigStore) -> Option<int> {
    match config.read_start_mode {
        ReadStartMode::Index => Some(config.read_start_idx as int),
        ReadStartMode::Header => spec_find_line(ls, config.read_start_header@, 0),
    }
}

/// Whether the row range after the header stays within the lines.
pub open spec fn spec_row_range_ok(ls: Seq<Seq<char>>, config: &ConfigStore, h: int) -> bool {
    match config.read_row_mode {
        ReadRowMode::Max => h + config.read_max_rows < ls.len(),
        ReadRowMode::Header => h + 1 <= ls.len(),
    }
}

/// The rows and warnings of the main data block, before ordering.
pub open spec fn spec_row_stage(ls: Seq<Seq<char>>, config: &ConfigStore, h: int) -> (
    Seq<RowModel>,
    Seq<WarnModel>,
) {
    match config.read_row_mode {
        ReadRowMode::Max => spec_scan_rows(
            ls,
            h + 1,
            config.read_max_rows as nat,
            config.read_row_split_char@,
        ),
        ReadRowMode::Header => spec_scan_labels(
            ls,
            h + 1,
            config.read_row_headers.deep_view(),
            0,
            config.read_row_split_char@,
        ),
    }
}

/// Whether every curve block range stays within the lines.
pub open spec fn spec_curves_ok(ls: Seq<Seq<char>>, curves: &CurveLayout) -> bool {
    forall|k: int| 0 <= k < 5 ==> (#[trigger] curves.ranges@[k]).1 < ls.len()
}

/// The rows and warnings of one curve block: its line range read by
/// the same split-and-parse rule as the main data block, with the
/// configured separator.
pub open spec fn spec_curve_scan(
    ls: Seq<Seq<char>>,
    curves: &CurveLayout,
    k: int,
    sep: Seq<char>,
) -> (Seq<RowModel>, Seq<WarnModel>) {
    let a = (curves.ranges@[k]).0 as int;
    let b = (curves.ranges@[k]).1 as int;
    spec_scan_rows(ls, a, (b + 1 - a) as nat, sep)
}

/// The fatal outcome of one extraction, if any: the header text found
/// on no line, the row range outside the lines, or a curve block
/// outside the lines, in that order.
pub open spec fn spec_extract_err(
    ls: Seq<Seq<char>>,
    config: &ConfigStore,
    curves: &CurveLayout,
    filename: Seq<char>,
) -> Option<Seq<char>> {
    match spec_header_of(ls, config) {
        None => Some(header_err_text(config.read_start_header@, filename)),
        Some(h) => if !spec_row_range_ok(ls, config, h) {
            Some(range_err_text(filename))
        } else if !spec_curves_ok(ls, curves) {
            Some(curve_err_text(filename))
        } else {
            None
        },
    }
}

/// Every warning of one successful extraction, in the order the run
/// meets them: the row stage first, then the five curve blocks.
pub open spec fn spec_all_warns(
    ls: Seq<Seq<char>>,
    config: &ConfigStore,
    curves: &CurveLayout,
    h: int,
) -> Seq<WarnModel> {
    let sep = config.read_row_split_char@;
    spec_row_stage(ls, config, h).1 + spec_curve_scan(ls, curves, 0, sep).1 + spec_curve_scan(
        ls,
        curves,
        1,
        sep,
    ).1 + spec_curve_scan(ls, curves, 2, sep).1 + spec_curve_scan(ls, curves, 3, sep).1
        + spec_curve_scan(ls, curves, 4, sep).1
}

/// Renders each warning into its text.
#[verifier::loop_isolation(false)]
fn render_warns(v: &Vec<ExtractWarning>) -> (r: Vec<String>)
    ensures
        r.deep_view() == warns_model(v@).map_values(warn_text_fn()),
{
    let mut out: Vec<String> = Vec::new();
    let mut i: usize = 0;
    proof {
        assert(out.deep_view() =~= warns_model(v@.take(0)).map_values(warn_text_fn()));
    }
    while i < v.len()
        invariant
            i <= v@.len(),
            out.deep_view() == warns_model(v@.take(i as int)).map_values(warn_text_fn()),
        decreases v@.len() - i,
    {
        let ghost prev = out.deep_view();
        let msg = v[i].render();
        out.push(msg);
        proof {
            assert(v@.take(i + 1) =~= v@.take(i as int).push(v@[i as int]));
            assert(out.deep_view() =~= prev.push(warn_text(v@[i as int]@)));
            assert(warns_model(v@.take(i + 1)).map_values(warn_text_fn()) =~= warns_model(
                v@.take(i as int),
            ).map_values(warn_text_fn()).push(warn_text(v@[i as int]@)));
        }
        i = i + 1;
    }
    proof {
        assert(v@.take(v@.len() as int) =~= v@);
    }
    out
}

/// Reads everything from one report file: the test name, the ordered
/// rows of the main data block, the five curve blocks, and the
/// warnings the run met.  A missing header, or a row or curve range
/// outside the lines, fails with a message naming the file; every
/// other problem becomes a warning beside a partial result.
#[verifier::loop_isolation(false)]
#[verifier::rlimit(100)]
pub fn read_data_from_file(
    filename: &str,
    file_contents: &str,
    config: &ConfigStore,
    curves: &CurveLayout,
) -> (r: Result<(Data, Vec<String>), String>)
    requires
        curves.wf(),
    ensures
        match r {
            Err(e) => spec_extract_err(
                spec_lines(file_contents@),
                config,
                curves,
                filename@,
            ) == Some(e@),
            Ok(p) => {
                let ls = spec_lines(file_contents@);
                &&& spec_extract_err(ls, config, curves, filename@) is None
                &&& spec_header_of(ls, config) matches Some(h) && {
                    &&& p.0.test_name@ == match spec_test_name(
                        ls,
                        config.read_test_name_prefix@,
                    ) {
                        Some(t) => t,
                        None => unknown_name_text(filename@),
                    }
                    &&& rows_model(p.0.row_data@) == crate::order::spec_sort(
                        spec_row_stage(ls, config, h).0,
                        config.row_order_preference.deep_view(),
                    )
                    &&& rows_model(p.0.curve_data1@) == spec_curve_scan(
                        ls,
                        curves,
                        0,
                        config.read_row_split_char@,
                    ).0
                    &&& rows_model(p.0.curve_data2@) == spec_curve_scan(
                        ls,
                        curves,
                        1,
                        config.read_row_split_char@,
                    ).0
                    &&& rows_model(p.0.curve_data3@) == spec_curve_scan(
                        ls,
                        curves,
                        2,
                        config.read_row_split_char@,
                    ).0
                    &&& rows_model(p.0.curve_data4@) == spec_curve_scan(
                        ls,
                        curves,
                        3,
                        config.read_row_split_char@,
                    ).0
                    &&& rows_model(p.0.curve_data5@) == spec_curve_scan(
                        ls,
                        curves,
                        4,
                        config.read_row_split_char@,
                    ).0
                    &&& p.1.deep_view() == spec_all_warns(ls, config, curves, h).map_values(
                        warn_text_fn(),
                    )
                    &&& rows_bounded(rows_model(p.0.row_data@))
                    &&& rows_bounded(rows_model(p.0.curve_data1@))
                    &&& rows_bounded(rows_model(p.0.curve_data2@))
                    &&& rows_bounded(rows_model(p.0.curve_data3@))
                    &&& rows_bounded(rows_model(p.0.curve_data4@))
                    &&& rows_bounded(rows_model(p.0.curve_data5@))
                }
            },
        },
{
    let ghost ls = spec_lines(file_contents@);
    let lines = split_lines(file_contents);
    let nl = lines.len();
    proof {
        assert(ls.len() == lines@.len());
    }
    // the test name, with its fallback
    let test_name: String = match get_test_name_from_lines(&lines, config) {
        Some(t) => t,
        None => {
            let mut m = String::new();
            m.append("Unknown test name from \"");
            m.append(filename);
            m.append("\"");
            proof {
                assert(m@ =~= unknown_name_text(filename@));
            }
            m
        },
    };
    // the header line
    let header_idx: usize = match get_header_idx_from_lines(filename, &lines, config) {
        Ok(h) => h,
        Err(e) => {
            return Err(e);
        },
    };
    // the main data block
    let row_stage: (Vec<Row>, Vec<ExtractWarning>) = match config.read_row_mode {
        ReadRowMode::Max => {
            let maxr = config.read_max_rows as usize;
            if header_idx >= nl || maxr >= nl - header_idx {
                let mut m = String::new();
                m.append("Row range falls outside available lines in file \"");
                m.append(filename);
                m.append("\"");
                proof {
                    assert(m@ =~= range_err_text(filename@));
                }
                return Err(m);
            }
            scan_rows(&lines, header_idx + 1, maxr, config.read_row_split_char.as_str())
        },
        ReadRowMode::Header => {
            if header_idx >= nl {
                let mut m = String::new();
                m.append("Row range falls outside available lines in file \"");
                m.append(filename);
                m.append("\"");
                proof {
                    assert(m@ =~= range_err_text(filename@));
                }
                return Err(m);
            }
            scan_labels(&lines, header_idx + 1, &config.read_row_headers,
                config.read_row_split_char.as_str())
        },
    };
    let (rows_raw, mut warns) = row_stage;
    let ghost raw_models = rows_model(rows_raw@);
    let row_data = crate::order::sort_row_data(rows_raw, config);
    proof {
        crate::order::lemma_sort_bounded(raw_models, config.row_order_preference.deep_view());
    }
    // the curve blocks lie within the lines, or nothing does
    let mut k: usize = 0;
    while k < 5
        invariant
            k <= 5,
            curves.wf(),
            nl == ls.len(),
            forall|t: int| 0 <= t < k ==> (#[trigger] curves.ranges@[t]).1 < nl,
        decreases 5 - k,
    {
        if curves.ranges[k].1 as usize >= nl {
            let mut m = String::new();
            m.append("Curve block range falls outside available lines in file \"");
            m.append(filename);
            m.append("\"");
            proof {
                assert(m@ =~= curve_err_text(filename@));
            }
            return Err(m);
        }
        k = k + 1;
    }
    let (c1, w1) = {
        let (a, b) = (curves.ranges[0].0 as usize, curves.ranges[0].1 as usize);
        scan_rows(&lines, a, b + 1 - a, config.read_row_split_char.as_str())
    };
    let (c2, w2) = {
        let (a, b) = (curves.ranges[1].0 as usize, curves.ranges[1].1 as usize);
        scan_rows(&lines, a, b + 1 - a, config.read_row_split_char.as_str())
    };
    let (c3, w3) = {
        let (a, b) = (curves.ranges[2].0 as usize, curves.ranges[2].1 as usize);
        scan_rows(&lines, a, b + 1 - a, config.read_row_split_char.as_str())
    };
    let (c4, w4) = {
        let (a, b) = (curves.ranges[3].0 as usize, curves.ranges[3].1 as usize);
        scan_rows(&lines, a, b + 1 - a, config.read_row_split_char.as_str())
    };
    let (c5, w5) = {
        let (a, b) = (curves.ranges[4].0 as usize, curves.ranges[4].1 as usize);
        scan_rows(&lines, a, b + 1 - a, config.read_row_split_char.as_str())
    };
    let ghost h = header_idx as int;
    let ghost rw0 = warns@;
    let ghost v1 = w1@;
    let ghost v2 = w2@;
    let ghost v3 = w3@;
    let ghost v4 = w4@;
    let ghost v5 = w5@;
    let mut w1 = w1;
    let mut w2 = w2;
    let mut w3 = w3;
    let mut w4 = w4;
    let mut w5 = w5;
    warns.append(&mut w1);
    warns.append(&mut w2);
    warns.append(&mut w3);
    warns.append(&mut w4);
    warns.append(&mut w5);
    proof {
        assert(warns@ =~= rw0 + v1 + v2 + v3 + v4 + v5);
        assert(warns_model(warns@) =~= warns_model(rw0) + warns_model(v1) + warns_model(v2)
            + warns_model(v3) + warns_model(v4) + warns_model(v5));
        assert(warns_model(warns@) =~= spec_all_warns(ls, config, curves, h));
    }
    let warn_texts = render_warns(&warns);
    let data = Data::new1(test_name, row_data, c1, c2, c3, c4, c5);
    Ok((data, warn_texts))
}

} // verus!
