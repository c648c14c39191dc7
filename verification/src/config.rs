//! The configuration of one extraction run: where the data block
//! starts, how rows under it are read, and how the result is ordered.
//! A configuration is a plain value; the reader only consults it.
use crate::text::str_eq;
use vstd::prelude::*;

verus! {

/// How the header line above the data rows is found.
#[derive(Clone, Copy, PartialEq, Eq, Structural, PartialOrd, Ord, Debug, Hash)]
pub enum ReadStartMode {
    /// Look for a line equal to the configured header text.
    Header,
    /// Treat the line at the configured index as the header.
    Index,
}

impl ReadStartMode {
    /// The label of the variant.
    pub fn to_string(&self) -> (r: String)
        ensures
            *self is Header ==> r@ == "Header"@,
            *self is Index ==> r@ == "Index"@,
    {
        match self {
            ReadStartMode::Header => "Header".to_owned(),
            ReadStartMode::Index => "Index".to_owned(),
        }
    }

    /// The variant with the given label, if any.
    pub fn from_str(str: &str) -> (r: Option<ReadStartMode>)
        ensures
            str@ == "Header"@ ==> r == Some(ReadStartMode::Header),
            str@ == "Index"@ ==> r == Some(ReadStartMode::Index),
            str@ != "Header"@ && str@ != "Index"@ ==> r is None,
    {
        proof {
            reveal_strlit("Header");
            reveal_strlit("Index");
            assert("Header"@.len() == 6);
            assert("Index"@.len() == 5);
        }
        if str_eq(str, "Header") {
            Some(ReadStartMode::Header)
        } else if str_eq(str, "Index") {
            Some(ReadStartMode::Index)
        } else {
            None
        }
    }
}

/// How the rows under the header are gathered.
#[derive(Clone, Copy, PartialEq, Eq, Structural, PartialOrd, Ord, Debug, Hash)]
pub enum ReadRowMode {
    /// Read rows while each starts with the next configured row header.
    Header,
    /// Read a fixed number of rows.
    Max,
}

impl ReadRowMode {
    /// The label of the variant.
    pub fn to_string(&self) -> (r: String)
        ensures
            *self is Header ==> r@ == "Header"@,
            *self is Max ==> r@ == "Max"@,
    {
        match self {
            ReadRowMode::Header => "Header".to_owned(),
            ReadRowMode::Max => "Max".to_owned(),
        }
    }

    /// The variant with the given label, if any.
    pub fn from_str(str: &str) -> (r: Option<ReadRowMode>)
        ensures
            str@ == "Header"@ ==> r == Some(ReadRowMode::Header),
            str@ == "Max"@ ==> r == Some(ReadRowMode::Max),
            str@ != "Header"@ && str@ != "Max"@ ==> r is None,
    {
        proof {
            reveal_strlit("Header");
            reveal_strlit("Max");
            assert("Header"@.len() == 6);
            assert("Max"@.len() == 3);
        }
        if str_eq(str, "Header") {
            Some(ReadRowMode::Header)
        } else if str_eq(str, "Max") {
            Some(ReadRowMode::Max)
        } else {
            None
        }
    }
}

/// All tunable extraction parameters, independent of any front end.
#[derive(Clone, PartialEq, Eq, PartialOrd, Ord, Debug, Hash)]
pub struct ConfigStore {
    /// The exact text of the header line above the data rows.
    pub read_start_header: String,
    /// The line index taken as the header when the mode says so.
    pub read_start_idx: u16,
    /// The row headers expected directly below the header line.
    pub read_row_headers: Vec<String>,
    /// How many rows to read after the header in the fixed-count mode.
    pub read_max_rows: u16,
    /// How the header line is found.
    pub read_start_mode: ReadStartMode,
    /// How the rows under the header are gathered.
    pub read_row_mode: ReadRowMode,
    /// Row labels that should come first in the output, in this order.
    pub row_order_preference: Vec<String>,
    /// The text that separates a row's label from its value.
    pub read_row_split_char: String,
    /// The text directly in front of the test name.
    pub read_test_name_prefix: String,
}

/// The default row labels of the supported report layout.
pub open spec fn default_row_labels() -> Seq<Seq<char>> {
    seq!["P"@, "L"@, "G"@, "W"@, "P/L"@, "Ie"@, "K"@, "SH"@, "Dmin"@, "Dmax"@, "H2O"@]
}

fn default_label_vec() -> (r: Vec<String>)
    ensures
        r.deep_view() == default_row_labels(),
{
    let mut v: Vec<String> = Vec::new();
    v.push("P".to_owned());
    v.push("L".to_owned());
    v.push("G".to_owned());
    v.push("W".to_owned());
    v.push("P/L".to_owned());
    v.push("Ie".to_owned());
    v.push("K".to_owned());
    v.push("SH".to_owned());
    v.push("Dmin".to_owned());
    v.push("Dmax".to_owned());
    v.push("H2O".to_owned());
    proof {
        assert(v.deep_view() =~= default_row_labels());
    }
    v
}

impl Default for ConfigStore {
    /// The configuration of the supported report layout.
    fn default() -> (r: Self)
        ensures
            r.read_start_header@ == "Standard\t : \tAverage"@,
            r.read_start_idx == 105,
            r.read_row_headers.deep_view() == default_row_labels(),
            r.read_max_rows == 11,
            r.read_start_mode == ReadStartMode::Header,
            r.read_row_mode == ReadRowMode::Header,
            r.row_order_preference.deep_view() == default_row_labels(),
            r.read_row_split_char@ == "\t"@,
            r.read_test_name_prefix@ == "Test name\t:\t"@,
    {
        ConfigStore {
            read_start_header: "Standard\t : \tAverage".to_owned(),
            read_start_idx: 105,
            read_row_headers: default_label_vec(),
            read_max_rows: 11,
            read_start_mode: ReadStartMode::Header,
            read_row_mode: ReadRowMode::Header,
            row_order_preference: default_label_vec(),
            read_row_split_char: "\t".to_owned(),
            read_test_name_prefix: "Test name\t:\t".to_owned(),
        }
    }
}

/// The five fixed line ranges, inclusive on both ends, that hold the
/// auxiliary curve blocks of a report.  They are a layout value of
/// their own, beside the configuration, so another layout can supply
/// other ranges.
#[derive(Clone, PartialEq, Eq, Debug)]
pub struct CurveLayout {
    /// Five `(first, last)` line index pairs.
    pub ranges: Vec<(u16, u16)>,
}

impl CurveLayout {
    /// Five ranges, each well ordered.
    pub open spec fn wf(&self) -> bool {
        self.ranges@.len() == 5 && forall|k: int|
            0 <= k < 5 ==> (#[trigger] self.ranges@[k]).0 <= self.ranges@[k].1
    }
}

impl Default for CurveLayout {
    /// The curve line ranges of the supported report layout.
    fn default() -> (r: Self)
        ensures
            r.ranges@ == seq![
                (41u16, 51u16),
                (54u16, 64u16),
                (67u16, 77u16),
                (80u16, 90u16),
                (93u16, 103u16),
            ],
            r.wf(),
    {
        let mut v: Vec<(u16, u16)> = Vec::new();
        v.push((41, 51));
        v.push((54, 64));
        v.push((67, 77));
        v.push((80, 90));
        v.push((93, 103));
        proof {
            assert(v@ =~= seq![
                (41u16, 51u16),
                (54u16, 64u16),
                (67u16, 77u16),
                (80u16, 90u16),
                (93u16, 103u16),
            ]);
        }
        CurveLayout { ranges: v }
    }
}

} // verus!
