//! The dataset table parser.
//!
//! A dataset file is a delimiter-separated text table. The first line names
//! the columns; a case-insensitive `km` column and `price` column must both
//! be present exactly once, wherever they stand and whatever stands around
//! them — a missing or repeated required column refuses the whole dataset.
//! Every
//! later line is parsed on its own: an empty line is passed over silently, a
//! row whose `km` or `price` field is missing or not a numeric literal is
//! skipped with a report, and the remaining rows form the dataset, in file
//! order. The caller reads the file and converts the kept fields to its
//! numeric values.

use vstd::prelude::*;
use vstd::string::*;
use crate::args::FileParser;
use crate::number::NumberLit;
use crate::number::is_float_literal;
use crate::number::is_float_literal_str;
use crate::text::seq_eq_ci;
use crate::text::spec_lines;
use crate::text::spec_split;
use crate::text::split_lines;
use crate::text::split_str;
use crate::text::str_eq_ci;

verus! {

/// Marker for the `-d` / `--dataset` argument naming the dataset file.
pub struct DatasetArg;

impl FileParser for DatasetArg {
    open spec fn spec_file_names() -> Seq<Seq<char>> {
        seq!["-d"@, "--dataset"@]
    }

    fn file_names() -> (r: Vec<String>) {
        let mut r: Vec<String> = Vec::new();
        r.push(String::from_str("-d"));
        r.push(String::from_str("--dataset"));
        proof {
            assert(r.deep_view() =~= seq!["-d"@, "--dataset"@]);
        }
        r
    }
}

/// One kept row: the two fields, each a literal the numeric grammar
/// accepts.
pub struct DatasetEntry {
    pub km: NumberLit,
    pub price: NumberLit,
}

impl DeepView for DatasetEntry {
    type V = (Seq<char>, Seq<char>);

    open spec fn deep_view(&self) -> (Seq<char>, Seq<char>) {
        (self.km.text@, self.price.text@)
    }
}

/// The rows a dataset file yielded, in file order.
pub struct Dataset {
    pub entries: Vec<DatasetEntry>,
}

/// `k` is the position of the first field that equals `name` up to ASCII
/// case.
pub open spec fn is_first_ci_match(fields: Seq<Seq<char>>, name: Seq<char>, k: int) -> bool {
    &&& 0 <= k < fields.len()
    &&& seq_eq_ci(fields[k], name)
    &&& forall|j: int| 0 <= j < k ==> !seq_eq_ci(fields[j], name)
}

/// No field equals `name` up to ASCII case.
pub open spec fn no_ci_match(fields: Seq<Seq<char>>, name: Seq<char>) -> bool {
    forall|j: int| 0 <= j < fields.len() ==> !seq_eq_ci(fields[j], name)
}

/// Two distinct fields both equal `name` up to ASCII case.
pub open spec fn ci_dup(fields: Seq<Seq<char>>, name: Seq<char>) -> bool {
    exists|a: int, b: int|
        0 <= a < b < fields.len() && #[trigger] seq_eq_ci(fields[a], name) && #[trigger] seq_eq_ci(
            fields[b],
            name,
        )
}

/// What is wrong with the header; any of these refuses the whole dataset.
#[derive(Clone, Copy, PartialEq, Eq, Structural, Debug)]
pub enum HeaderError {
    MissingKm,
    MissingPrice,
    MissingBoth,
    /// A required column appears more than once; the repeats are named in
    /// the column reports.
    Duplicate,
}

#[derive(Clone, Copy, PartialEq, Eq, Structural, Debug)]
pub enum HeaderDiagKind {
    /// The column repeats the `km` header first seen at `first`.
    DuplicateKm { first: usize },
    /// The column repeats the `price` header first seen at `first`.
    DuplicatePrice { first: usize },
    /// The column is neither `km` nor `price` and is ignored.
    Unknown,
}

/// A report about one header column.
#[derive(Clone, Copy, PartialEq, Eq, Structural, Debug)]
pub struct HeaderDiag {
    pub column: usize,
    pub kind: HeaderDiagKind,
}

/// The report the header scan owes for column `i`, if any: every column
/// yields one except the first `km` and the first `price`.
pub open spec fn spec_header_diag(fields: Seq<Seq<char>>, i: int) -> Option<HeaderDiag> {
    if is_first_ci_match(fields, "km"@, i) || is_first_ci_match(fields, "price"@, i) {
        None
    } else if seq_eq_ci(fields[i], "km"@) {
        Some(
            HeaderDiag {
                column: i as usize,
                kind: HeaderDiagKind::DuplicateKm { first: first_ci_of(fields, "km"@) as usize },
            },
        )
    } else if seq_eq_ci(fields[i], "price"@) {
        Some(
            HeaderDiag {
                column: i as usize,
                kind: HeaderDiagKind::DuplicatePrice {
                    first: first_ci_of(fields, "price"@) as usize,
                },
            },
        )
    } else {
        Some(HeaderDiag { column: i as usize, kind: HeaderDiagKind::Unknown })
    }
}

/// The position of the first case-insensitive match of `name`, when one
/// exists.
pub open spec fn first_ci_of(fields: Seq<Seq<char>>, name: Seq<char>) -> int {
    choose|k: int| is_first_ci_match(fields, name, k)
}

/// Why a row was skipped: the checks run in column order, lower column
/// first, and the first failing field decides.
#[derive(Clone, Copy, PartialEq, Eq, Structural, Debug)]
pub enum RowSkip {
    /// The row has no field in the `km` column.
    MissingKm,
    /// The `km` field is not a numeric literal.
    BadKm,
    /// The row has no field in the `price` column.
    MissingPrice,
    /// The `price` field is not a numeric literal.
    BadPrice,
}

/// A report about one skipped row; `row` counts data lines from 1.
#[derive(Clone, Copy, PartialEq, Eq, Structural, Debug)]
pub struct RowDiag {
    pub row: usize,
    pub why: RowSkip,
}

/// What one data line yields.
pub enum SpecRow {
    Empty,
    Skipped(RowSkip),
    Kept(Seq<char>, Seq<char>),
}

/// The outcome of one data line: an empty line counts for nothing, a row
/// with a missing or malformed field is skipped, and any other row is kept
/// as its `(km, price)` fields.
pub open spec fn spec_row(line: Seq<char>, km: int, price: int, sep: char) -> SpecRow {
    if line.len() == 0 {
        SpecRow::Empty
    } else {
        let fields = spec_split(line, sep);
        if km < price {
            if fields.len() <= km {
                SpecRow::Skipped(RowSkip::MissingKm)
            } else if !is_float_literal(fields[km]) {
                SpecRow::Skipped(RowSkip::BadKm)
            } else if fields.len() <= price {
                SpecRow::Skipped(RowSkip::MissingPrice)
            } else if !is_float_literal(fields[price]) {
                SpecRow::Skipped(RowSkip::BadPrice)
            } else {
                SpecRow::Kept(fields[km], fields[price])
            }
        } else {
            if fields.len() <= price {
                SpecRow::Skipped(RowSkip::MissingPrice)
            } else if !is_float_literal(fields[price]) {
                SpecRow::Skipped(RowSkip::BadPrice)
            } else if fields.len() <= km {
                SpecRow::Skipped(RowSkip::MissingKm)
            } else if !is_float_literal(fields[km]) {
                SpecRow::Skipped(RowSkip::BadKm)
            } else {
                SpecRow::Kept(fields[km], fields[price])
            }
        }
    }
}

/// The `(km, price)` field pairs of the kept rows, in file order.
pub open spec fn spec_kept_rows(lines: Seq<Seq<char>>, km: int, price: int, sep: char) -> Seq<
    (Seq<char>, Seq<char>),
>
    decreases lines.len(),
{
    if lines.len() == 0 {
        Seq::empty()
    } else {
        let rest = spec_kept_rows(lines.drop_first(), km, price, sep);
        match spec_row(lines[0], km, price, sep) {
            SpecRow::Kept(k, p) => seq![(k, p)] + rest,
            _ => rest,
        }
    }
}

/// The reports of the skipped rows, in file order, rows counted from
/// `base`.
pub open spec fn spec_row_diags(
    lines: Seq<Seq<char>>,
    km: int,
    price: int,
    sep: char,
    base: int,
) -> Seq<RowDiag>
    decreases lines.len(),
{
    if lines.len() == 0 {
        Seq::empty()
    } else {
        let rest = spec_row_diags(lines.drop_first(), km, price, sep, base + 1);
        match spec_row(lines[0], km, price, sep) {
            SpecRow::Skipped(why) => seq![RowDiag { row: base as usize, why }] + rest,
            _ => rest,
        }
    }
}

/// One parsed data line.
pub enum ParsedRow {
    Empty,
    Skipped(RowSkip),
    Kept(DatasetEntry),
}

/// Why a dataset text yields no dataset at all.
#[derive(Clone, Copy, PartialEq, Eq, Structural, Debug)]
pub enum DatasetError {
    /// The text has no lines at all.
    EmptyFile,
    /// The header lacks a required column.
    Header(HeaderError),
}

impl Dataset {
    /// Finds the `km` and `price` columns of the header line, each matched
    /// without regard to ASCII case; reports unknown columns, and refuses
    /// the header when a required column is absent or appears more than
    /// once (the repeats are reported with the column first seen).
    pub fn parse_header(header: &str, sep: char) -> (r: (
        Result<(usize, usize), HeaderError>,
        Vec<HeaderDiag>,
    ))
        ensures
            ({
                let fields = spec_split(header@, sep);
                &&& match r.0 {
                    Ok((km, price)) => is_first_ci_match(fields, "km"@, km as int)
                        && is_first_ci_match(fields, "price"@, price as int) && !ci_dup(
                        fields,
                        "km"@,
                    ) && !ci_dup(fields, "price"@),
                    Err(HeaderError::MissingKm) => no_ci_match(fields, "km"@) && !no_ci_match(
                        fields,
                        "price"@,
                    ),
                    Err(HeaderError::MissingPrice) => !no_ci_match(fields, "km"@) && no_ci_match(
                        fields,
                        "price"@,
                    ),
                    Err(HeaderError::MissingBoth) => no_ci_match(fields, "km"@) && no_ci_match(
                        fields,
                        "price"@,
                    ),
                    Err(HeaderError::Duplicate) => !no_ci_match(fields, "km"@) && !no_ci_match(
                        fields,
                        "price"@,
                    ) && (ci_dup(fields, "km"@) || ci_dup(fields, "price"@)),
                }
                &&& forall|j: int|
                    0 <= j < r.1@.len() ==> spec_header_diag(fields, #[trigger] r.1@[j].column as int)
                        == Some(r.1@[j])
                &&& forall|i: int|
                    0 <= i < fields.len() && spec_header_diag(fields, i) is Some ==> exists|j: int|
                        0 <= j < r.1@.len() && #[trigger] r.1@[j].column == i
                &&& forall|a: int, b: int|
                    0 <= a < b < r.1@.len() ==> r.1@[a].column < r.1@[b].column
            }),
    {
        let fields = split_str(header, sep);
        let mut km: Option<usize> = None;
        let mut price: Option<usize> = None;
        let mut dup_km = false;
        let mut dup_price = false;
        let mut diags: Vec<HeaderDiag> = Vec::new();
        let mut i: usize = 0;
        let ghost gfields = spec_split(header@, sep);
        while i < fields.len()
            invariant
                gfields == fields.deep_view(),
                i <= fields@.len(),
                fields@.len() == gfields.len(),
                match km {
                    Some(k) => k < i && is_first_ci_match(gfields, "km"@, k as int),
                    None => forall|j: int| 0 <= j < i ==> !seq_eq_ci(gfields[j], "km"@),
                },
                match price {
                    Some(p) => p < i && is_first_ci_match(gfields, "price"@, p as int),
                    None => forall|j: int| 0 <= j < i ==> !seq_eq_ci(gfields[j], "price"@),
                },
                dup_km == exists|a: int, b: int|
                    0 <= a < b < i && #[trigger] seq_eq_ci(gfields[a], "km"@)
                        && #[trigger] seq_eq_ci(gfields[b], "km"@),
                dup_price == exists|a: int, b: int|
                    0 <= a < b < i && #[trigger] seq_eq_ci(gfields[a], "price"@)
                        && #[trigger] seq_eq_ci(gfields[b], "price"@),
                forall|j: int|
                    0 <= j < diags@.len() ==> diags@[j].column < i && spec_header_diag(
                        gfields,
                        #[trigger] diags@[j].column as int,
                    ) == Some(diags@[j]),
                forall|c: int|
                    0 <= c < i && spec_header_diag(gfields, c) is Some ==> exists|j: int|
                        0 <= j < diags@.len() && #[trigger] diags@[j].column == c,
                forall|a: int, b: int| 0 <= a < b < diags@.len() ==> diags@[a].column < diags@[b].column,
            decreases fields@.len() - i,
        {
            let ghost old_diags = diags@;
            proof {
                assert(gfields[i as int] == fields@[i as int]@);
                // the two required names differ in length, so one field
                // never stands for both
                reveal_strlit("km");
                reveal_strlit("price");
            }
            let is_km = str_eq_ci(fields[i].as_str(), "km");
            let is_price = str_eq_ci(fields[i].as_str(), "price");
            if is_km {
                match km {
                    Some(k) => {
                        proof {
                            assert(is_first_ci_match(gfields, "km"@, k as int));
                            assert(first_ci_of(gfields, "km"@) == k as int) by {
                                let k2 = first_ci_of(gfields, "km"@);
                                assert(is_first_ci_match(gfields, "km"@, k as int));
                            }
                        }
                        diags.push(
                            HeaderDiag {
                                column: i,
                                kind: HeaderDiagKind::DuplicateKm { first: k },
                            },
                        );
                        dup_km = true;
                        proof {
                            assert(diags@[diags@.len() - 1].column == i);
                            assert(seq_eq_ci(gfields[k as int], "km"@) && seq_eq_ci(
                                gfields[i as int],
                                "km"@,
                            ) && k < i);
                        }
                    },
                    None => {
                        km = Some(i);
                        proof {
                            assert(is_first_ci_match(gfields, "km"@, i as int));
                            assert(spec_header_diag(gfields, i as int) is None);
                        }
                    },
                }
            } else if is_price {
                match price {
                    Some(p) => {
                        proof {
                            assert(first_ci_of(gfields, "price"@) == p as int) by {
                                assert(is_first_ci_match(gfields, "price"@, p as int));
                            }
                        }
                        diags.push(
                            HeaderDiag {
                                column: i,
                                kind: HeaderDiagKind::DuplicatePrice { first: p },
                            },
                        );
                        dup_price = true;
                        proof {
                            assert(diags@[diags@.len() - 1].column == i);
                            assert(seq_eq_ci(gfields[p as int], "price"@) && seq_eq_ci(
                                gfields[i as int],
                                "price"@,
                            ) && p < i);
                        }
                    },
                    None => {
                        price = Some(i);
                        proof {
                            assert(is_first_ci_match(gfields, "price"@, i as int));
                            assert(spec_header_diag(gfields, i as int) is None);
                        }
                    },
                }
            } else {
                diags.push(HeaderDiag { column: i, kind: HeaderDiagKind::Unknown });
                proof {
                    assert(diags@[diags@.len() - 1].column == i);
                }
            }
            proof {
                assert forall|a: int, b: int|
                    0 <= a < b < i + 1 && #[trigger] seq_eq_ci(gfields[a], "km"@)
                        && #[trigger] seq_eq_ci(gfields[b], "km"@) implies dup_km by {}
                assert forall|a: int, b: int|
                    0 <= a < b < i + 1 && #[trigger] seq_eq_ci(gfields[a], "price"@)
                        && #[trigger] seq_eq_ci(gfields[b], "price"@) implies dup_price by {}
                assert forall|c: int|
                    0 <= c < i + 1 && spec_header_diag(gfields, c) is Some implies exists|j: int|
                    0 <= j < diags@.len() && #[trigger] diags@[j].column == c by {
                    if c < i {
                        let j = choose|j: int|
                            0 <= j < old_diags.len() && #[trigger] old_diags[j].column == c;
                        assert(diags@[j].column == c);
                    } else {
                        assert(spec_header_diag(gfields, c) is None || (diags@.len() > 0
                            && diags@[diags@.len() - 1].column == c));
                    }
                }
            }
            i = i + 1;
        }
        let res = match (km, price) {
            (Some(k), Some(p)) => if dup_km || dup_price {
                Err(HeaderError::Duplicate)
            } else {
                Ok((k, p))
            },
            (Some(_), None) => Err(HeaderError::MissingPrice),
            (None, Some(_)) => Err(HeaderError::MissingKm),
            (None, None) => Err(HeaderError::MissingBoth),
        };
        (res, diags)
    }

    /// Reads one data line, with the two column positions the header gave.
    pub fn parse_row(line: &str, km: usize, price: usize, sep: char) -> (r: ParsedRow)
        ensures
            match spec_row(line@, km as int, price as int, sep) {
                SpecRow::Empty => r is Empty,
                SpecRow::Skipped(why) => r matches ParsedRow::Skipped(w) && w == why,
                SpecRow::Kept(k, p) => r matches ParsedRow::Kept(e) && e.km.text@ == k
                    && e.price.text@ == p && e.km.wf() && e.price.wf(),
            },
    {
        if line.unicode_len() == 0 {
            return ParsedRow::Empty;
        }
        let fields = split_str(line, sep);
        proof {
            assert forall|j: int| 0 <= j < fields@.len() implies fields.deep_view()[j]
                == fields@[j]@ by {}
        }
        if km < price {
            if fields.len() <= km {
                ParsedRow::Skipped(RowSkip::MissingKm)
            } else if !is_float_literal_str(fields[km].as_str()) {
                ParsedRow::Skipped(RowSkip::BadKm)
            } else if fields.len() <= price {
                ParsedRow::Skipped(RowSkip::MissingPrice)
            } else if !is_float_literal_str(fields[price].as_str()) {
                ParsedRow::Skipped(RowSkip::BadPrice)
            } else {
                ParsedRow::Kept(
                    DatasetEntry {
                        km: NumberLit { text: fields[km].clone() },
                        price: NumberLit { text: fields[price].clone() },
                    },
                )
            }
        } else {
            if fields.len() <= price {
                ParsedRow::Skipped(RowSkip::MissingPrice)
            } else if !is_float_literal_str(fields[price].as_str()) {
                ParsedRow::Skipped(RowSkip::BadPrice)
            } else if fields.len() <= km {
                ParsedRow::Skipped(RowSkip::MissingKm)
            } else if !is_float_literal_str(fields[km].as_str()) {
                ParsedRow::Skipped(RowSkip::BadKm)
            } else {
                ParsedRow::Kept(
                    DatasetEntry {
                        km: NumberLit { text: fields[km].clone() },
                        price: NumberLit { text: fields[price].clone() },
                    },
                )
            }
        }
    }

    /// Reads every data line: kept rows become the dataset, in file order,
    /// and each skipped row is reported with its line number, counted from
    /// 1.
    pub fn parse_lines(lines: &Vec<String>, km: usize, price: usize, sep: char) -> (r: (
        Dataset,
        Vec<RowDiag>,
    ))
        ensures
            r.0.entries.deep_view() == spec_kept_rows(
                lines.deep_view(),
                km as int,
                price as int,
                sep,
            ),
            r.1@ == spec_row_diags(lines.deep_view(), km as int, price as int, sep, 1),
            forall|j: int|
                0 <= j < r.0.entries@.len() ==> (#[trigger] r.0.entries@[j]).km.wf()
                    && r.0.entries@[j].price.wf(),
    {
        let ghost glines = lines.deep_view();
        let ghost ki = km as int;
        let ghost pi = price as int;
        let mut entries: Vec<DatasetEntry> = Vec::new();
        let mut diags: Vec<RowDiag> = Vec::new();
        let mut i: usize = 0;
        proof {
            assert(glines.skip(0) =~= glines);
        }
        while i < lines.len()
            invariant
                glines == lines.deep_view(),
                glines.len() == lines@.len(),
                ki == km as int,
                pi == price as int,
                i <= lines@.len(),
                spec_kept_rows(glines, ki, pi, sep) =~= entries.deep_view() + spec_kept_rows(
                    glines.skip(i as int),
                    ki,
                    pi,
                    sep,
                ),
                spec_row_diags(glines, ki, pi, sep, 1) =~= diags@ + spec_row_diags(
                    glines.skip(i as int),
                    ki,
                    pi,
                    sep,
                    i + 1,
                ),
                forall|j: int|
                    0 <= j < entries@.len() ==> (#[trigger] entries@[j]).km.wf()
                        && entries@[j].price.wf(),
            decreases lines@.len() - i,
        {
            proof {
                assert(glines.skip(i as int).drop_first() =~= glines.skip(i as int + 1));
                assert(glines.skip(i as int)[0] == glines[i as int]);
                assert(glines[i as int] == lines@[i as int]@);
            }
            let ghost pre_entries = entries.deep_view();
            let ghost pre_diags = diags@;
            let row = Self::parse_row(lines[i].as_str(), km, price, sep);
            match row {
                ParsedRow::Empty => {},
                ParsedRow::Skipped(why) => {
                    diags.push(RowDiag { row: i + 1, why });
                },
                ParsedRow::Kept(e) => {
                    let ghost ev = e.deep_view();
                    entries.push(e);
                    proof {
                        assert(entries.deep_view() =~= pre_entries.push(ev));
                        assert(pre_entries.push(ev) + spec_kept_rows(
                            glines.skip(i as int + 1),
                            ki,
                            pi,
                            sep,
                        ) =~= pre_entries + (seq![ev] + spec_kept_rows(
                            glines.skip(i as int + 1),
                            ki,
                            pi,
                            sep,
                        )));
                    }
                },
            }
            proof {
                assert(pre_diags.push(RowDiag { row: (i + 1) as usize, why: RowSkip::MissingKm })
                    + spec_row_diags(glines.skip(i as int + 1), ki, pi, sep, i + 2) =~= pre_diags
                    + (seq![RowDiag { row: (i + 1) as usize, why: RowSkip::MissingKm }]
                    + spec_row_diags(glines.skip(i as int + 1), ki, pi, sep, i + 2)));
                assert(pre_diags.push(RowDiag { row: (i + 1) as usize, why: RowSkip::BadKm })
                    + spec_row_diags(glines.skip(i as int + 1), ki, pi, sep, i + 2) =~= pre_diags
                    + (seq![RowDiag { row: (i + 1) as usize, why: RowSkip::BadKm }]
                    + spec_row_diags(glines.skip(i as int + 1), ki, pi, sep, i + 2)));
                assert(pre_diags.push(RowDiag { row: (i + 1) as usize, why: RowSkip::MissingPrice })
                    + spec_row_diags(glines.skip(i as int + 1), ki, pi, sep, i + 2) =~= pre_diags
                    + (seq![RowDiag { row: (i + 1) as usize, why: RowSkip::MissingPrice }]
                    + spec_row_diags(glines.skip(i as int + 1), ki, pi, sep, i + 2)));
                assert(pre_diags.push(RowDiag { row: (i + 1) as usize, why: RowSkip::BadPrice })
                    + spec_row_diags(glines.skip(i as int + 1), ki, pi, sep, i + 2) =~= pre_diags
                    + (seq![RowDiag { row: (i + 1) as usize, why: RowSkip::BadPrice }]
                    + spec_row_diags(glines.skip(i as int + 1), ki, pi, sep, i + 2)));
            }
            i = i + 1;
        }
        proof {
            assert(glines.skip(glines.len() as int) =~= Seq::<Seq<char>>::empty());
        }
        (Dataset { entries }, diags)
    }

    /// Reads a whole dataset text: the first line is the header, every later
    /// line a row; a text without lines is refused as empty, and a header
    /// defect refuses the whole dataset. Yields the dataset with the two
    /// column positions, and the reports on header columns and skipped
    /// rows.
    pub fn read_from(text: &str, sep: char) -> (r: (
        Result<(Dataset, usize, usize), DatasetError>,
        Vec<HeaderDiag>,
        Vec<RowDiag>,
    ))
        ensures
            ({
                let glines = spec_lines(text@);
                let fields = spec_split(glines[0], sep);
                &&& (glines.len() == 0 ==> r.0 == Err::<(Dataset, usize, usize), DatasetError>(
                    DatasetError::EmptyFile,
                ) && r.1@.len() == 0 && r.2@.len() == 0)
                &&& (glines.len() > 0 ==> {
                    &&& forall|j: int|
                        0 <= j < r.1@.len() ==> spec_header_diag(
                            fields,
                            #[trigger] r.1@[j].column as int,
                        ) == Some(r.1@[j])
                    &&& forall|i: int|
                        0 <= i < fields.len() && spec_header_diag(fields, i) is Some
                            ==> exists|j: int| 0 <= j < r.1@.len() && #[trigger] r.1@[j].column == i
                    &&& forall|a: int, b: int|
                        0 <= a < b < r.1@.len() ==> r.1@[a].column < r.1@[b].column
                    &&& match r.0 {
                        Ok((d, km, price)) => {
                            &&& is_first_ci_match(fields, "km"@, km as int)
                            &&& is_first_ci_match(fields, "price"@, price as int)
                            &&& !ci_dup(fields, "km"@)
                            &&& !ci_dup(fields, "price"@)
                            &&& d.entries.deep_view() == spec_kept_rows(
                                glines.drop_first(),
                                km as int,
                                price as int,
                                sep,
                            )
                            &&& r.2@ == spec_row_diags(
                                glines.drop_first(),
                                km as int,
                                price as int,
                                sep,
                                1,
                            )
                        },
                        Err(DatasetError::EmptyFile) => false,
                        Err(DatasetError::Header(HeaderError::MissingKm)) => no_ci_match(
                            fields,
                            "km"@,
                        ) && !no_ci_match(fields, "price"@) && r.2@.len() == 0,
                        Err(DatasetError::Header(HeaderError::MissingPrice)) => !no_ci_match(
                            fields,
                            "km"@,
                        ) && no_ci_match(fields, "price"@) && r.2@.len() == 0,
                        Err(DatasetError::Header(HeaderError::MissingBoth)) => no_ci_match(
                            fields,
                            "km"@,
                        ) && no_ci_match(fields, "price"@) && r.2@.len() == 0,
                        Err(DatasetError::Header(HeaderError::Duplicate)) => !no_ci_match(
                            fields,
                            "km"@,
                        ) && !no_ci_match(fields, "price"@) && (ci_dup(fields, "km"@) || ci_dup(
                            fields,
                            "price"@,
                        )) && r.2@.len() == 0,
                    }
                })
            }),
    {
        let lines = split_lines(text);
        let ghost glines = spec_lines(text@);
        if lines.len() == 0 {
            return (Err(DatasetError::EmptyFile), Vec::new(), Vec::new());
        }
        proof {
            assert(glines[0] == lines@[0]@);
        }
        let (columns, header_diags) = Self::parse_header(lines[0].as_str(), sep);
        match columns {
            Err(e) => (Err(DatasetError::Header(e)), header_diags, Vec::new()),
            Ok((km, price)) => {
                let mut rows: Vec<String> = Vec::new();
                let mut i: usize = 1;
                while i < lines.len()
                    invariant
                        glines == lines.deep_view(),
                        glines.len() == lines@.len(),
                        1 <= i <= glines.len(),
                        rows.deep_view() =~= glines.subrange(1, i as int),
                    decreases glines.len() - i,
                {
                    let ghost old_rows = rows.deep_view();
                    rows.push(lines[i].clone());
                    proof {
                        assert(glines[i as int] == lines@[i as int]@);
                        assert(rows.deep_view() =~= old_rows.push(glines[i as int]));
                        assert(old_rows.push(glines[i as int]) =~= glines.subrange(
                            1,
                            i as int + 1,
                        ));
                    }
                    i = i + 1;
                }
                proof {
                    assert(glines.subrange(1, glines.len() as int) =~= glines.drop_first());
                }
                let (dataset, row_diags) = Self::parse_lines(&rows, km, price, sep);
                (Ok((dataset, km, price)), header_diags, row_diags)
            },
        }
    }
}

} // verus!
