//! Reading race result files: a header line followed by comma-separated
//! records, each field trimmed of surrounding white space.

use vstd::prelude::*;
use vstd::string::StringExecFns;

use crate::text::{
    count_char, join_pieces, law_split_piece_count, law_split_then_join, law_trim_leaves_no_edge_white_space, no_edge_white_space,
    split_chars, split_str, trim_chars, trimmed, views,
};

verus! {

/// Why a file's lines could not be read as records.
#[derive(Debug, Clone, Copy, PartialEq, Eq)]
pub enum CsvError {
    /// The file has no line at all, so not even a header.
    Empty,
}

impl CsvError {
    /// The message the error is reported with.
    pub fn message(&self) -> (r: String)
        ensures
            r@ == "CSV file is empty"@,
    {
        match self {
            CsvError::Empty => String::from_str("CSV file is empty"),
        }
    }
}

/// Each of `pieces` trimmed.
pub open spec fn trim_each(pieces: Seq<Seq<char>>) -> Seq<Seq<char>> {
    pieces.map_values(|f: Seq<char>| trim_chars(f))
}

/// The fields of one record line: the trimmed line split at each comma,
/// each piece trimmed again.
pub open spec fn record_fields(line: Seq<char>) -> Seq<Seq<char>> {
    trim_each(split_chars(trim_chars(line), ','))
}

/// The records of a file whose lines are `lines`: every line after the
/// header, as fields.
pub open spec fn file_records(lines: Seq<Seq<char>>) -> Seq<Seq<Seq<char>>> {
    lines.drop_first().map_values(|l: Seq<char>| record_fields(l))
}

/// Splits one record line into its trimmed fields.
pub fn parse_record(line: &str) -> (r: Vec<String>)
    ensures
        views(r@) == record_fields(line@),
{
    let t = trimmed(line);
    let pieces = split_str(t.as_str(), ',');
    let mut fields: Vec<String> = Vec::new();
    let mut i: usize = 0;
    while i < pieces.len()
        invariant
            i <= pieces.len(),
            fields.len() == i,
            views(pieces@) == split_chars(trim_chars(line@), ','),
            views(fields@) == trim_each(views(pieces@).take(i as int)),
        decreases pieces.len() - i,
    {
        let field = trimmed(pieces[i].as_str());
        proof {
            assert(views(pieces@)[i as int] == pieces@[i as int]@);
            assert(views(pieces@).take(i + 1) == views(pieces@).take(i as int).push(
                pieces@[i as int]@,
            ));
        }
        let ghost before = fields@;
        fields.push(field);
        i = i + 1;
        assert forall|k: int| 0 <= k < i implies #[trigger] views(fields@)[k] == trim_each(
            views(pieces@).take(i as int),
        )[k] by {
            assert(fields@[k] == if k < i - 1 { before[k] } else { field });
            assert(views(fields@)[k] == fields@[k]@);
            if k < i - 1 {
                assert(views(before)[k] == before[k]@);
            }
        }
        assert(views(fields@) =~= trim_each(views(pieces@).take(i as int)));
    }
    assert(views(pieces@).take(i as int) == views(pieces@));
    fields
}

/// Reads the lines of a file as records, the first line being the header.
/// Fails with `CsvError::Empty` exactly when there is no line.
pub fn parse_csv_lines(lines: &Vec<String>) -> (r: Result<Vec<Vec<String>>, CsvError>)
    ensures
        lines.len() == 0 <==> r is Err,
        r matches Err(e) ==> e == CsvError::Empty,
        r matches Ok(records) ==> {
            &&& records.len() + 1 == lines.len()
            &&& forall|k: int|
                0 <= k < records.len() ==> views(#[trigger] records@[k]@) == file_records(
                    views(lines@),
                )[k]
        },
{
    if lines.len() == 0 {
        return Err(CsvError::Empty);
    }
    let mut records: Vec<Vec<String>> = Vec::new();
    let mut i: usize = 1;
    while i < lines.len()
        invariant
            1 <= i <= lines.len(),
            records.len() + 1 == i,
            forall|k: int|
                0 <= k < records.len() ==> views(#[trigger] records@[k]@) == record_fields(
                    lines@[k + 1]@,
                ),
        decreases lines.len() - i,
    {
        let record = parse_record(lines[i].as_str());
        records.push(record);
        i = i + 1;
    }
    assert forall|k: int| 0 <= k < records.len() implies views(#[trigger] records@[k]@)
        == file_records(views(lines@))[k] by {
        assert(views(lines@).drop_first()[k] == lines@[k + 1]@);
    }
    Ok(records)
}

/// A record has one field more than its trimmed line has commas, so never
/// none, and no field begins or ends with white space.
pub proof fn law_record_fields_shape(line: Seq<char>)
    ensures
        record_fields(line).len() == count_char(trim_chars(line), ',') + 1,
        forall|k: int|
            0 <= k < record_fields(line).len() ==> no_edge_white_space(
                #[trigger] record_fields(line)[k],
            ),
{
    law_split_piece_count(trim_chars(line), ',', Seq::empty());
    assert forall|k: int| 0 <= k < record_fields(line).len() implies no_edge_white_space(
        #[trigger] record_fields(line)[k],
    ) by {
        law_trim_leaves_no_edge_white_space(split_chars(trim_chars(line), ',')[k]);
    }
}

/// Each field of a record is the `k`-th comma-separated piece of the
/// trimmed line, trimmed, and nothing else: the pieces joined with commas
/// give back the trimmed line, no piece holds a comma, and trimming keeps
/// the piece's inner run whole, inner spaces included.
pub proof fn law_record_field_is_trimmed_piece(line: Seq<char>, k: int)
    requires
        0 <= k < record_fields(line).len(),
    ensures
        record_fields(line).len() == split_chars(trim_chars(line), ',').len(),
        record_fields(line)[k] == trim_chars(split_chars(trim_chars(line), ',')[k]),
        join_pieces(split_chars(trim_chars(line), ','), ',') == trim_chars(line),
        !split_chars(trim_chars(line), ',')[k].contains(','),
{
    law_split_then_join(trim_chars(line), ',');
}

} // verus!
