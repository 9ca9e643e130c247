//! The comma-separated dataset format of the inference guest: one row per
//! line, features first and the label in the last column, an optional header
//! line, blank or too short lines skipped.
use vstd::prelude::*;
use crate::text::{trim_spec, split_spec, views, chars_of, trim_chars, split_chars, trim};

verus! {

/// The fields of a line: the line is trimmed, split on commas, and each piece
/// trimmed.
pub open spec fn csv_fields(line: Seq<char>) -> Seq<Seq<char>> {
    split_spec(trim_spec(line), ',').map_values(|p: Seq<char>| trim_spec(p))
}

/// Splits a dataset line into its trimmed fields.
pub fn split_csv_fields(line: &str) -> (r: Vec<String>)
    ensures
        views(r@) == csv_fields(line@),
{
    let cs = chars_of(line);
    let trimmed = trim_chars(&cs);
    let tcs = chars_of(trimmed.as_str());
    let pieces = split_chars(&tcs, ',');
    let mut fields: Vec<String> = Vec::new();
    let mut i: usize = 0;
    while i < pieces.len()
        invariant
            i <= pieces@.len(),
            views(pieces@) == split_spec(trim_spec(line@), ','),
            fields@.len() == i,
            forall|j: int| 0 <= j < i ==> #[trigger] fields@[j]@ == trim_spec(pieces@[j]@),
        decreases pieces@.len() - i,
    {
        let f = trim(pieces[i].as_str());
        fields.push(f);
        i = i + 1;
    }
    assert(views(fields@) == csv_fields(line@)) by {
        assert(views(fields@).len() == csv_fields(line@).len());
        assert forall|j: int| 0 <= j < fields@.len() implies views(fields@)[j] == csv_fields(line@)[j] by {
            assert(views(pieces@)[j] == pieces@[j]@);
        }
    }
    fields
}

/// Why a dataset could not be loaded.
#[derive(Debug, PartialEq, Eq, Structural, Clone, Copy)]
pub enum CsvError {
    /// The last field of a data row is not a number.
    BadLabel,
    /// A field before the last one of a data row is not a number.
    BadFeature,
}

/// Whether every field parsed.
pub open spec fn all_parsed(fields: Seq<Option<u32>>) -> bool {
    forall|j: int| 0 <= j < fields.len() ==> #[trigger] fields[j] is Some
}

/// The values of fields that all parsed.
pub open spec fn parsed_values(fields: Seq<Option<u32>>) -> Seq<u32> {
    fields.map_values(|f: Option<u32>| f->0)
}

/// Whether line `i`, given by the parse result of each of its fields (`None`
/// for an unreadable line), is a data row: readable, not the header (a first
/// line with a field that is not a number) and of at least two fields.
pub open spec fn is_data_line(i: int, line: Option<Seq<Option<u32>>>) -> bool {
    match line {
        None => false,
        Some(fields) => !(i == 0 && !all_parsed(fields)) && fields.len() >= 2,
    }
}

/// The row of a data line: its last field is the label, the others the
/// features; the label is checked first.
pub open spec fn row_of(fields: Seq<Option<u32>>) -> Result<(Seq<u32>, u32), CsvError> {
    if fields.last() is None {
        Err(CsvError::BadLabel)
    } else if !all_parsed(fields.drop_last()) {
        Err(CsvError::BadFeature)
    } else {
        Ok((parsed_values(fields.drop_last()), fields.last()->0))
    }
}

/// The rows of the first `k` lines, or the first error among them.
pub open spec fn dataset_upto(lines: Seq<Option<Seq<Option<u32>>>>, k: nat) -> Result<Seq<(Seq<u32>, u32)>, CsvError>
    decreases k,
{
    if k == 0 {
        Ok(Seq::empty())
    } else {
        match dataset_upto(lines, (k - 1) as nat) {
            Err(e) => Err(e),
            Ok(rows) => if !is_data_line(k - 1, lines[k - 1]) {
                Ok(rows)
            } else {
                match row_of(lines[k - 1]->0) {
                    Err(e) => Err(e),
                    Ok(row) => Ok(rows.push(row)),
                }
            },
        }
    }
}

/// The views of the loaded lines.
pub open spec fn line_views(lines: Seq<Option<Vec<Option<u32>>>>) -> Seq<Option<Seq<Option<u32>>>> {
    lines.map_values(|l: Option<Vec<Option<u32>>>| match l {
        Some(v) => Some(v@),
        None => None,
    })
}

/// The views of loaded rows.
pub open spec fn row_views(rows: Seq<(Vec<u32>, u32)>) -> Seq<(Seq<u32>, u32)> {
    rows.map_values(|r: (Vec<u32>, u32)| (r.0@, r.1))
}

proof fn lemma_dataset_error_persists(lines: Seq<Option<Seq<Option<u32>>>>, k: nat, more: nat)
    requires
        dataset_upto(lines, k) is Err,
        k <= more,
    ensures
        dataset_upto(lines, more) == dataset_upto(lines, k),
    decreases more - k,
{
    if k < more {
        lemma_dataset_error_persists(lines, k, (more - 1) as nat);
    }
}

/// Every loaded row has at least one feature.
pub proof fn lemma_rows_have_features(lines: Seq<Option<Seq<Option<u32>>>>, k: nat)
    ensures
        dataset_upto(lines, k) matches Ok(rows) ==> forall|i: int| 0 <= i < rows.len() ==> (#[trigger] rows[i]).0.len() >= 1,
    decreases k,
{
    if k > 0 {
        lemma_rows_have_features(lines, (k - 1) as nat);
    }
}

fn parse_row(fields: &Vec<Option<u32>>) -> (r: Result<(Vec<u32>, u32), CsvError>)
    requires
        fields@.len() >= 2,
    ensures
        match r {
            Ok(row) => row_of(fields@) == Ok::<(Seq<u32>, u32), CsvError>((row.0@, row.1)),
            Err(e) => row_of(fields@) == Err::<(Seq<u32>, u32), CsvError>(e),
        },
{
    let n = fields.len();
    let y = match fields[n - 1] {
        Some(v) => v,
        None => {
            return Err(CsvError::BadLabel);
        },
    };
    let mut features: Vec<u32> = Vec::new();
    let mut j: usize = 0;
    while j < n - 1
        invariant
            n == fields@.len(),
            n >= 2,
            fields@.last() == Some(y),
            j <= n - 1,
            features@.len() == j,
            forall|k: int| 0 <= k < j ==> #[trigger] fields@[k] is Some && features@[k] == fields@[k]->0,
        decreases n - 1 - j,
    {
        match fields[j] {
            Some(v) => {
                features.push(v);
            },
            None => {
                assert(fields@.drop_last()[j as int] is None);
                assert(!all_parsed(fields@.drop_last()));
                return Err(CsvError::BadFeature);
            },
        }
        j = j + 1;
    }
    assert(all_parsed(fields@.drop_last()));
    assert(features@ == parsed_values(fields@.drop_last()));
    Ok((features, y))
}

/// Every data line of the file is all numbers: loading gives no error.
pub open spec fn dataset_parses(lines: Seq<Option<Vec<Option<u32>>>>) -> bool {
    dataset_upto(line_views(lines), lines.len()) is Ok
}

fn load_rows(lines: &Vec<Option<Vec<Option<u32>>>>) -> (r: Result<Vec<(Vec<u32>, u32)>, CsvError>)
    ensures
        match r {
            Ok(rows) => dataset_upto(line_views(lines@), lines@.len()) == Ok::<Seq<(Seq<u32>, u32)>, CsvError>(row_views(rows@)),
            Err(e) => dataset_upto(line_views(lines@), lines@.len()) == Err::<Seq<(Seq<u32>, u32)>, CsvError>(e),
        },
{
    let ghost lv = line_views(lines@);
    let mut rows: Vec<(Vec<u32>, u32)> = Vec::new();
    let mut i: usize = 0;
    assert(row_views(rows@) == Seq::<(Seq<u32>, u32)>::empty());
    while i < lines.len()
        invariant
            i <= lines@.len(),
            lv == line_views(lines@),
            dataset_upto(lv, i as nat) == Ok::<Seq<(Seq<u32>, u32)>, CsvError>(row_views(rows@)),
        decreases lines@.len() - i,
    {
        assert(lv[i as int] == match lines@[i as int] {
            Some(v) => Some(v@),
            None => None::<Seq<Option<u32>>>,
        });
        match &lines[i] {
            None => {},
            Some(fields) => {
                let mut header = false;
                if i == 0 {
                    let mut j: usize = 0;
                    while j < fields.len()
                        invariant
                            j <= fields@.len(),
                            !header ==> forall|k: int| 0 <= k < j ==> #[trigger] fields@[k] is Some,
                            header ==> !all_parsed(fields@),
                        decreases fields@.len() - j,
                    {
                        if fields[j].is_none() {
                            header = true;
                        }
                        j = j + 1;
                    }
                }
                if !header && fields.len() >= 2 {
                    match parse_row(fields) {
                        Ok(row) => {
                            let ghost before = row_views(rows@);
                            rows.push(row);
                            assert(row_views(rows@) == before.push((row.0@, row.1)));
                        },
                        Err(e) => {
                            proof {
                                lemma_dataset_error_persists(lv, (i + 1) as nat, lines@.len());
                            }
                            return Err(e);
                        },
                    }
                }
            },
        }
        i = i + 1;
    }
    Ok(rows)
}

/// The first error that loading the file meets, each line given as the
/// parse result of each of its trimmed fields as a binary32 number (`None`
/// for a line that could not be read): `None` exactly when every data line
/// is all numbers; otherwise `BadLabel` or `BadFeature` for the first data
/// line whose label, or else one of whose features, is not a number.
pub fn csv_dataset_error(lines: &Vec<Option<Vec<Option<u32>>>>) -> (r: Option<CsvError>)
    ensures
        r is None <==> dataset_parses(lines@),
        r matches Some(e) ==> dataset_upto(line_views(lines@), lines@.len()) == Err::<Seq<(Seq<u32>, u32)>, CsvError>(e),
{
    match load_rows(lines) {
        Ok(_) => None,
        Err(e) => Some(e),
    }
}

/// Builds the dataset from the lines of the file, each given as the parse
/// result of each of its trimmed fields as a binary32 number (`None` for a
/// line that could not be read): unreadable lines, a first line with a field
/// that is not a number, and lines of fewer than two fields are skipped; the
/// other lines are rows, features first and the label last, and must be all
/// numbers.
pub fn load_csv_dataset(lines: &Vec<Option<Vec<Option<u32>>>>) -> (rows: Vec<(Vec<u32>, u32)>)
    requires
        dataset_parses(lines@),
    ensures
        dataset_upto(line_views(lines@), lines@.len()) == Ok::<Seq<(Seq<u32>, u32)>, CsvError>(row_views(rows@)),
{
    match load_rows(lines) {
        Ok(rows) => rows,
        Err(_) => {
            proof {
                assert(false);
            }
            Vec::new()
        },
    }
}

} // verus!
