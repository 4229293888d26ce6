use vstd::prelude::*;

use crate::io::columns::{
    copy_names, feature_columns, feature_names, first_index, id_name, lemma_feature_in_names,
    lemma_first_index, position_of, same_name_set, same_names,
};
use crate::io::error::ReadError;
use crate::io::number::{float_literal, is_float_literal};
use crate::io::text::chars_of;
use crate::model::point::{raw_point_view, raw_points_view, texts};
use crate::model::{Dataset, RawPoint};

verus! {

/// The header row that the `csv` crate reads from `input` (default reader
/// settings: headers on, comma separated, double-quote quoting, records of
/// equal length), or its error message.
pub uninterp spec fn csv_header_of(input: Seq<u8>) -> Result<Seq<String>, String>;

/// The data records that the `csv` crate reads from `input` after the header
/// row, up to the first failure, and that failure's message if there was one.
pub uninterp spec fn csv_records_of(input: Seq<u8>) -> (Seq<Seq<String>>, Option<String>);

/// Calls `csv::Reader::headers` on a default `csv::ReaderBuilder` reader of
/// `input`. The contract claims only that the fields (or the error's message)
/// are a function of the bytes (`csv_header_of`).
#[verifier::external_body]
fn csv_header(input: &[u8]) -> (r: Result<Vec<String>, String>)
    ensures
        match r {
            Ok(h) => csv_header_of(input@) == Ok::<Seq<String>, String>(h@),
            Err(m) => csv_header_of(input@) == Err::<Seq<String>, String>(m),
        },
{
    let mut reader = ::csv::ReaderBuilder::new().has_headers(true).from_reader(input);
    match reader.headers() {
        Ok(h) => Ok(h.iter().map(|f| f.to_string()).collect()),
        Err(e) => Err(e.to_string()),
    }
}

/// Iterates `csv::Reader::records` of a default `csv::ReaderBuilder` reader of
/// `input`, collecting each record's fields until the first error. The
/// contract claims only that the records and the message of the error that
/// ended them are a function of the bytes (`csv_records_of`).
#[verifier::external_body]
fn csv_records(input: &[u8]) -> (r: (Vec<Vec<String>>, Option<String>))
    ensures
        (r.0@.map_values(|rec: Vec<String>| rec@), r.1) == csv_records_of(input@),
{
    let mut reader = ::csv::ReaderBuilder::new().has_headers(true).from_reader(input);
    let mut records: Vec<Vec<String>> = Vec::new();
    for rec in reader.records() {
        match rec {
            Ok(fields) => records.push(fields.iter().map(|f| f.to_string()).collect()),
            Err(e) => return (records, Some(e.to_string())),
        }
    }
    (records, None)
}

/// What is wrong with the field at position `k` of a record, if anything: it
/// is missing, empty, or not a number.
pub open spec fn field_error(rec: Seq<Seq<char>>, k: int) -> Option<ReadError> {
    if !(0 <= k < rec.len()) {
        Some(ReadError::MissingField)
    } else if rec[k].len() == 0 {
        Some(ReadError::EmptyNumber)
    } else if !float_literal(rec[k]) {
        Some(ReadError::InvalidNumber)
    } else {
        None
    }
}

/// The first error among the fields at positions `pos` of a record.
pub open spec fn record_error(rec: Seq<Seq<char>>, pos: Seq<int>) -> Option<ReadError>
    decreases pos.len(),
{
    if pos.len() == 0 {
        None
    } else {
        match record_error(rec, pos.drop_last()) {
            Some(e) => Some(e),
            None => field_error(rec, pos.last()),
        }
    }
}

/// The id of a record: the field at `id_pos`, when there is one and it is
/// not empty.
pub open spec fn record_id(rec: Seq<Seq<char>>, id_pos: Option<int>) -> Option<Seq<char>> {
    match id_pos {
        Some(k) => if 0 <= k < rec.len() && rec[k].len() > 0 {
            Some(rec[k])
        } else {
            None
        },
        None => None,
    }
}

/// The point a valid record gives.
pub open spec fn record_point(rec: Seq<Seq<char>>, pos: Seq<int>, id_pos: Option<int>) -> (
    Option<Seq<char>>,
    Seq<Seq<char>>,
) {
    (record_id(rec, id_pos), pos.map_values(|k: int| rec[k]))
}

/// The points of `records`, or the error of the first invalid record.
pub open spec fn records_outcome(
    records: Seq<Seq<Seq<char>>>,
    pos: Seq<int>,
    id_pos: Option<int>,
) -> Result<Seq<(Option<Seq<char>>, Seq<Seq<char>>)>, ReadError>
    decreases records.len(),
{
    if records.len() == 0 {
        Ok(Seq::empty())
    } else {
        match records_outcome(records.drop_last(), pos, id_pos) {
            Err(e) => Err(e),
            Ok(ps) => match record_error(records.last(), pos) {
                Some(e) => Err(e),
                None => Ok(ps.push(record_point(records.last(), pos, id_pos))),
            },
        }
    }
}

/// The records' points, unless a record is invalid or the parser stopped on
/// an error after them.
pub open spec fn stream_outcome(
    records: Seq<Seq<Seq<char>>>,
    stop: Option<String>,
    pos: Seq<int>,
    id_pos: Option<int>,
) -> Result<Seq<(Option<Seq<char>>, Seq<Seq<char>>)>, ReadError> {
    match records_outcome(records, pos, id_pos) {
        Err(e) => Err(e),
        Ok(ps) => match stop {
            Some(m) => Err(ReadError::Csv(m)),
            None => Ok(ps),
        },
    }
}

/// A read result as plain values.
pub open spec fn read_result_view(r: Result<Vec<RawPoint>, ReadError>) -> Result<
    Seq<(Option<Seq<char>>, Seq<Seq<char>>)>,
    ReadError,
> {
    match r {
        Ok(ps) => Ok(raw_points_view(ps@)),
        Err(e) => Err(e),
    }
}

/// The columns after reading a header: the header's feature names when the
/// dataset had none yet, else the dataset's own.
pub open spec fn expected_columns(old_columns: Seq<Seq<char>>, header: Seq<Seq<char>>) -> Seq<
    Seq<char>,
> {
    if old_columns.len() == 0 {
        feature_names(header)
    } else {
        old_columns
    }
}

/// The header fits the dataset: the dataset had no columns yet, or its
/// columns are the header's feature names as a set.
pub open spec fn header_fits(old_columns: Seq<Seq<char>>, header: Seq<Seq<char>>) -> bool {
    old_columns.len() == 0 || same_name_set(old_columns, feature_names(header))
}

/// Where each column stands in the header (its first occurrence).
pub open spec fn column_positions(header: Seq<Seq<char>>, columns: Seq<Seq<char>>) -> Seq<int> {
    columns.map_values(|c: Seq<char>| first_index(header, c))
}

/// Where the `id` column stands in the header, if it has one.
pub open spec fn id_position(header: Seq<Seq<char>>) -> Option<int> {
    if header.contains(id_name()) {
        Some(first_index(header, id_name()))
    } else {
        None
    }
}

/// The records of a parse, as plain values.
pub open spec fn record_texts(records: Seq<Seq<String>>) -> Seq<Seq<Seq<char>>> {
    records.map_values(|rec: Seq<String>| texts(rec))
}

/// Reading a header again with the columns an earlier read of it chose
/// (as `assign` does with the columns `fit` saved) is accepted and yields
/// the same columns, so the same points.
pub proof fn lemma_reread_header(header: Seq<Seq<char>>)
    requires
        feature_names(header).len() > 0,
    ensures
        header_fits(feature_names(header), header),
        expected_columns(feature_names(header), header) == expected_columns(Seq::empty(), header),
{
}

proof fn lemma_record_error_prefix(rec: Seq<Seq<char>>, pos: Seq<int>, c: int)
    requires
        0 <= c <= pos.len(),
        record_error(rec, pos.take(c)) is Some,
    ensures
        record_error(rec, pos) == record_error(rec, pos.take(c)),
    decreases pos.len() - c,
{
    if c < pos.len() {
        assert(pos.drop_last().take(c) =~= pos.take(c));
        lemma_record_error_prefix(rec, pos.drop_last(), c);
    } else {
        assert(pos.take(c) =~= pos);
    }
}

proof fn lemma_records_outcome_prefix(
    records: Seq<Seq<Seq<char>>>,
    pos: Seq<int>,
    id_pos: Option<int>,
    q: int,
)
    requires
        0 <= q <= records.len(),
        records_outcome(records.take(q), pos, id_pos) is Err,
    ensures
        records_outcome(records, pos, id_pos) == records_outcome(records.take(q), pos, id_pos),
    decreases records.len() - q,
{
    if q < records.len() {
        assert(records.drop_last().take(q) =~= records.take(q));
        lemma_records_outcome_prefix(records.drop_last(), pos, id_pos, q);
    } else {
        assert(records.take(q) =~= records);
    }
}

/// Reads CSV points from `input`.
///
/// The header's feature columns (every name but `id` and those starting with
/// `_`) become the dataset's columns when it has none; otherwise they must be
/// the dataset's columns as a set. Each record then gives a point whose
/// fields are, in column order, the record's values under those columns, and
/// whose id is its non-empty `id` value. The first record with a missing,
/// empty or non-numeric feature value ends the read with that error; a parse
/// error of the `csv` crate ends it after the records before it.
#[verifier::loop_isolation(false)]
#[verifier::spinoff_prover]
#[verifier::rlimit(30)]
pub fn read_points(input: &[u8], dataset: &mut Dataset) -> (r: Result<Vec<RawPoint>, ReadError>)
    ensures
        match csv_header_of(input@) {
            Err(m) => {
                &&& r == Err::<Vec<RawPoint>, ReadError>(ReadError::Csv(m))
                &&& texts(final(dataset).columns@) == texts(old(dataset).columns@)
                &&& final(dataset).has_id == old(dataset).has_id
            },
            Ok(h) => {
                let header = texts(h);
                let columns = expected_columns(texts(old(dataset).columns@), header);
                &&& texts(final(dataset).columns@) == columns
                &&& if !header_fits(texts(old(dataset).columns@), header) {
                    &&& r == Err::<Vec<RawPoint>, ReadError>(ReadError::ColumnsMismatch)
                    &&& final(dataset).has_id == old(dataset).has_id
                } else {
                    &&& final(dataset).has_id == header.contains(id_name())
                    &&& read_result_view(r) == stream_outcome(
                        record_texts(csv_records_of(input@).0),
                        csv_records_of(input@).1,
                        column_positions(header, columns),
                        id_position(header),
                    )
                }
            },
        },
{
    let headers = match csv_header(input) {
        Ok(h) => h,
        Err(m) => return Err(ReadError::Csv(m)),
    };
    let ghost header = texts(headers@);
    let header_features = feature_columns(&headers);
    proof {
        broadcast use Seq::lemma_filter_contains_rev;
    }
    if dataset.columns.len() == 0 {
        dataset.columns = copy_names(&header_features);
    } else if !same_names(&dataset.columns, &header_features) {
        return Err(ReadError::ColumnsMismatch);
    }
    let ghost columns = texts(dataset.columns@);
    assert(columns == expected_columns(texts(old(dataset).columns@), header));
    let ghost pos = column_positions(header, columns);
    let mut indices: Vec<usize> = Vec::new();
    for c in 0..dataset.columns.len()
        invariant
            columns == texts(dataset.columns@),
            header == texts(headers@),
            pos == column_positions(header, columns),
            header_fits(texts(old(dataset).columns@), header),
            columns == expected_columns(texts(old(dataset).columns@), header),
            indices@.len() == c,
            forall|k: int| 0 <= k < c ==> indices@[k] as int == #[trigger] pos[k],
            forall|k: int| 0 <= k < c ==> indices@[k] < header.len(),
    {
        assert(header.contains(columns[c as int])) by {
            if texts(old(dataset).columns@).len() != 0 {
                assert(texts(old(dataset).columns@).contains(columns[c as int]));
            }
            assert(feature_names(header).contains(columns[c as int]));
            lemma_feature_in_names(header, columns[c as int]);
        }
        match position_of(&headers, &dataset.columns[c]) {
            Some(p) => {
                proof {
                    lemma_first_index(header, columns[c as int], p as int);
                }
                indices.push(p);
            },
            None => return Err(ReadError::MissingColumn),
        }
    }
    let id_text = String::from_str("id");
    assert(id_text@ =~= id_name()) by {
        reveal_strlit("id");
    }
    let id_index = position_of(&headers, &id_text);
    proof {
        if let Some(x) = id_index {
            lemma_first_index(header, id_name(), x as int);
        }
    }
    dataset.has_id = id_index.is_some();
    let ghost id_pos = id_position(header);
    let (records, stop) = csv_records(input);
    let ghost recs = record_texts(csv_records_of(input@).0);
    assert(recs =~= record_texts(records@.map_values(|rec: Vec<String>| rec@)));
    let mut points: Vec<RawPoint> = Vec::new();
    assert(recs.take(0) =~= Seq::<Seq<Seq<char>>>::empty());
    assert(raw_points_view(points@) =~= Seq::<(Option<Seq<char>>, Seq<Seq<char>>)>::empty());
    for q in 0..records.len()
        invariant
            recs.len() == records@.len(),
            recs == record_texts(records@.map_values(|rec: Vec<String>| rec@)),
            indices@.len() == pos.len(),
            forall|k: int| 0 <= k < pos.len() ==> indices@[k] as int == #[trigger] pos[k],
            id_pos == match id_index {
                Some(x) => Some(x as int),
                None => None::<int>,
            },
            records_outcome(recs.take(q as int), pos, id_pos) == Ok::<
                Seq<(Option<Seq<char>>, Seq<Seq<char>>)>,
                ReadError,
            >(raw_points_view(points@)),
    {
        let record = &records[q];
        let ghost rec = texts(record@);
        assert(recs[q as int] == rec);
        let id: Option<String> = match id_index {
            Some(x) => if x < record.len() && !record[x].as_str().is_empty() {
                Some(record[x].clone())
            } else {
                None
            },
            None => None,
        };
        assert(opt_id_view(id) == record_id(rec, id_pos));
        let mut fields: Vec<String> = Vec::new();
        for c in 0..indices.len()
            invariant
                rec == texts(record@),
                indices@.len() == pos.len(),
                forall|k: int| 0 <= k < pos.len() ==> indices@[k] as int == #[trigger] pos[k],
                record_error(rec, pos.take(c as int)) is None,
                texts(fields@) == pos.take(c as int).map_values(|k: int| rec[k]),
        {
            let idx = indices[c];
            proof {
                assert(pos.take(c + 1).drop_last() =~= pos.take(c as int));
                assert(pos.take(c + 1).last() == idx as int);
            }
            if idx >= record.len() {
                proof {
                    lemma_record_error_prefix(rec, pos, c + 1);
                    reject_record(recs, q as int, pos, id_pos);
                }
                return Err(ReadError::MissingField);
            }
            let raw = &record[idx];
            let text = chars_of(raw.as_str());
            if text.len() == 0 {
                proof {
                    lemma_record_error_prefix(rec, pos, c + 1);
                    reject_record(recs, q as int, pos, id_pos);
                }
                return Err(ReadError::EmptyNumber);
            }
            if !is_float_literal(&text) {
                proof {
                    lemma_record_error_prefix(rec, pos, c + 1);
                    reject_record(recs, q as int, pos, id_pos);
                }
                return Err(ReadError::InvalidNumber);
            }
            let ghost before = fields@;
            fields.push(raw.clone());
            assert(texts(fields@) =~= texts(before).push(rec[idx as int]));
            assert(pos.take(c + 1).map_values(|k: int| rec[k]) =~= pos.take(c as int).map_values(
                |k: int| rec[k],
            ).push(rec[idx as int]));
        }
        assert(pos.take(indices.len() as int) =~= pos);
        let ghost before = points@;
        let point = RawPoint { id, fields };
        assert(raw_point_view(point) == record_point(rec, pos, id_pos));
        points.push(point);
        proof {
            assert(recs.take(q + 1).drop_last() =~= recs.take(q as int));
            assert(recs.take(q + 1).last() == rec);
            assert(raw_points_view(points@) =~= raw_points_view(before).push(raw_point_view(point)));
        }
    }
    assert(recs.take(records.len() as int) =~= recs);
    match stop {
        Some(m) => Err(ReadError::Csv(m)),
        None => Ok(points),
    }
}

/// The view of an optional id.
spec fn opt_id_view(id: Option<String>) -> Option<Seq<char>> {
    match id {
        Some(s) => Some(s@),
        None => None,
    }
}

/// When record `q` is the first invalid one, the read's outcome is its error.
proof fn reject_record(recs: Seq<Seq<Seq<char>>>, q: int, pos: Seq<int>, id_pos: Option<int>)
    requires
        0 <= q < recs.len(),
        records_outcome(recs.take(q), pos, id_pos) is Ok,
        record_error(recs[q], pos) is Some,
    ensures
        records_outcome(recs, pos, id_pos) == Err::<Seq<(Option<Seq<char>>, Seq<Seq<char>>)>, ReadError>(
            record_error(recs[q], pos)->0,
        ),
{
    assert(recs.take(q + 1).drop_last() =~= recs.take(q));
    assert(recs.take(q + 1).last() == recs[q]);
    lemma_records_outcome_prefix(recs, pos, id_pos, q + 1);
}

} // verus!
