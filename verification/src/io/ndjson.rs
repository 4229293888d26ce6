use vstd::prelude::*;

use crate::io::columns::{
    feature_columns, feature_names, first_index, id_name, lemma_first_index,
    position_of, same_name_set, same_names,
};
use crate::io::error::ReadError;
use crate::io::text::{is_blank, is_blank_text, lemma_sorted_texts, sort_texts, sorted_texts};
use crate::model::point::{raw_point_view, raw_points_view, texts};
use crate::model::{Dataset, RawPoint};

verus! {

/// A JSON value as the reader needs it: a string, a number (its text as
/// `serde_json` prints it), or anything else.
pub enum JsonValue {
    Text(String),
    Number(String),
    Other,
}

/// One NDJSON line as JSON: not JSON at all (the parser's message), JSON but
/// not an object, or an object's entries in the map's order.
pub enum JsonLine {
    Invalid(String),
    NotObject,
    Object(Vec<(String, JsonValue)>),
}

/// What `serde_json::from_str::<serde_json::Value>` makes of `line`.
pub uninterp spec fn json_line_of(line: Seq<char>) -> JsonLine;

/// Calls `serde_json::from_str::<serde_json::Value>` on `line` and converts
/// the result: the error's message, a non-object marker, or the object's
/// entries with strings and numbers (as their printed text) told apart. The
/// contract claims only that the result is a function of the line's
/// characters (`json_line_of`).
#[verifier::external_body]
fn parse_json_line(line: &str) -> (r: JsonLine)
    ensures
        r == json_line_of(line@),
{
    match serde_json::from_str::<serde_json::Value>(line) {
        Err(e) => JsonLine::Invalid(e.to_string()),
        Ok(serde_json::Value::Object(map)) => JsonLine::Object(
            map.into_iter().map(|(k, v)| (k, match v {
                serde_json::Value::String(s) => JsonValue::Text(s),
                serde_json::Value::Number(n) => JsonValue::Number(n.to_string()),
                _ => JsonValue::Other,
            })).collect(),
        ),
        Ok(_) => JsonLine::NotObject,
    }
}

/// The keys of an object's entries, in order.
pub open spec fn entry_keys(entries: Seq<(String, JsonValue)>) -> Seq<Seq<char>> {
    entries.map_values(|e: (String, JsonValue)| e.0@)
}

/// The value stored under `key` (its first entry), if any.
pub open spec fn lookup(entries: Seq<(String, JsonValue)>, key: Seq<char>) -> Option<JsonValue> {
    if entry_keys(entries).contains(key) {
        Some(entries[first_index(entry_keys(entries), key)].1)
    } else {
        None
    }
}

/// An object's id: its `id` value when that is a string.
pub open spec fn object_id(entries: Seq<(String, JsonValue)>) -> Option<Seq<char>> {
    match lookup(entries, id_name()) {
        Some(JsonValue::Text(s)) => Some(s@),
        _ => None,
    }
}

/// The number text under `key`, or why there is none.
pub open spec fn field_value(entries: Seq<(String, JsonValue)>, key: Seq<char>) -> Result<
    Seq<char>,
    ReadError,
> {
    match lookup(entries, key) {
        None => Err(ReadError::MissingField),
        Some(JsonValue::Number(t)) => Ok(t@),
        Some(_) => Err(ReadError::NotNumber),
    }
}

/// The number texts under `columns`, in order, or the first error.
pub open spec fn object_fields(entries: Seq<(String, JsonValue)>, columns: Seq<Seq<char>>) -> Result<
    Seq<Seq<char>>,
    ReadError,
>
    decreases columns.len(),
{
    if columns.len() == 0 {
        Ok(Seq::empty())
    } else {
        match object_fields(entries, columns.drop_last()) {
            Err(e) => Err(e),
            Ok(fs) => match field_value(entries, columns.last()) {
                Ok(t) => Ok(fs.push(t)),
                Err(e) => Err(e),
            },
        }
    }
}

/// A point as plain values.
pub type PointView = (Option<Seq<char>>, Seq<Seq<char>>);

/// One line's effect: the dataset's columns and id flag after it, and
/// whether it gave a point, nothing (a blank line) or an error.
///
/// A blank line is skipped. Otherwise the line must be a JSON object. Its
/// feature keys (all but `id` and those starting with `_`) become the
/// columns, sorted, while the dataset has none; otherwise they must be the
/// columns as a set. A string `id` marks the dataset as having ids. The
/// point's fields are the numbers under the columns, in column order.
pub open spec fn line_step(columns: Seq<Seq<char>>, has_id: bool, line: Seq<char>) -> (
    Seq<Seq<char>>,
    bool,
    Result<Option<PointView>, ReadError>,
) {
    if is_blank_text(line) {
        (columns, has_id, Ok(None))
    } else {
        match json_line_of(line) {
            JsonLine::Invalid(m) => (columns, has_id, Err(ReadError::Json(m))),
            JsonLine::NotObject => (columns, has_id, Err(ReadError::NotObject)),
            JsonLine::Object(entries) => {
                let features = feature_names(entry_keys(entries@));
                if columns.len() != 0 && !same_name_set(features, columns) {
                    (columns, has_id, Err(ReadError::FieldsMismatch))
                } else {
                    let cols = if columns.len() == 0 {
                        sorted_texts(features)
                    } else {
                        columns
                    };
                    let id = object_id(entries@);
                    (
                        cols,
                        has_id || id is Some,
                        match object_fields(entries@, cols) {
                            Err(e) => Err(e),
                            Ok(fs) => Ok(Some((id, fs))),
                        },
                    )
                }
            },
        }
    }
}

/// The effect of reading `lines` in order, stopping at the first error.
pub open spec fn lines_step(columns: Seq<Seq<char>>, has_id: bool, lines: Seq<Seq<char>>) -> (
    Seq<Seq<char>>,
    bool,
    Result<Seq<PointView>, ReadError>,
)
    decreases lines.len(),
{
    if lines.len() == 0 {
        (columns, has_id, Ok(Seq::empty()))
    } else {
        let (c, h, r) = lines_step(columns, has_id, lines.drop_last());
        match r {
            Err(e) => (c, h, Err(e)),
            Ok(ps) => {
                let (c2, h2, lr) = line_step(c, h, lines.last());
                (
                    c2,
                    h2,
                    match lr {
                        Err(e) => Err(e),
                        Ok(None) => Ok(ps),
                        Ok(Some(p)) => Ok(ps.push(p)),
                    },
                )
            },
        }
    }
}

/// The effect of reading `lines` that were followed by the read failure
/// `failure`, if any.
pub open spec fn ndjson_outcome(
    columns: Seq<Seq<char>>,
    has_id: bool,
    lines: Seq<Seq<char>>,
    failure: Option<String>,
) -> (Seq<Seq<char>>, bool, Result<Seq<PointView>, ReadError>) {
    let (c, h, r) = lines_step(columns, has_id, lines);
    (
        c,
        h,
        match r {
            Err(e) => Err(e),
            Ok(ps) => match failure {
                Some(m) => Err(ReadError::Io(m)),
                None => Ok(ps),
            },
        },
    )
}

/// A one-line result as plain values.
pub open spec fn line_result_view(r: Result<Option<RawPoint>, ReadError>) -> Result<
    Option<PointView>,
    ReadError,
> {
    match r {
        Ok(Some(p)) => Ok(Some(raw_point_view(p))),
        Ok(None) => Ok(None),
        Err(e) => Err(e),
    }
}

/// The sorted columns that a first NDJSON object gives are, as a set, that
/// object's feature keys: a later object with the same keys is accepted.
pub proof fn lemma_sorted_columns_match(features: Seq<Seq<char>>)
    ensures
        same_name_set(features, sorted_texts(features)),
{
    lemma_sorted_texts(features);
    assert forall|s: Seq<char>| features.contains(s) <==> sorted_texts(features).contains(s) by {
        vstd::seq_lib::to_multiset_contains(features, s);
        vstd::seq_lib::to_multiset_contains(sorted_texts(features), s);
    }
}

proof fn lemma_object_fields_prefix(entries: Seq<(String, JsonValue)>, columns: Seq<Seq<char>>, c: int)
    requires
        0 <= c <= columns.len(),
        object_fields(entries, columns.take(c)) is Err,
    ensures
        object_fields(entries, columns) == object_fields(entries, columns.take(c)),
    decreases columns.len() - c,
{
    if c < columns.len() {
        assert(columns.drop_last().take(c) =~= columns.take(c));
        lemma_object_fields_prefix(entries, columns.drop_last(), c);
    } else {
        assert(columns.take(c) =~= columns);
    }
}

proof fn lemma_lines_step_prefix(columns: Seq<Seq<char>>, has_id: bool, lines: Seq<Seq<char>>, q: int)
    requires
        0 <= q <= lines.len(),
        lines_step(columns, has_id, lines.take(q)).2 is Err,
    ensures
        lines_step(columns, has_id, lines) == lines_step(columns, has_id, lines.take(q)),
    decreases lines.len() - q,
{
    if q < lines.len() {
        assert(lines.drop_last().take(q) =~= lines.take(q));
        lemma_lines_step_prefix(columns, has_id, lines.drop_last(), q);
    } else {
        assert(lines.take(q) =~= lines);
    }
}

/// The keys of `entries`, in order.
fn keys_of(entries: &Vec<(String, JsonValue)>) -> (keys: Vec<String>)
    ensures
        texts(keys@) == entry_keys(entries@),
{
    let mut keys: Vec<String> = Vec::new();
    for k in 0..entries.len()
        invariant
            texts(keys@) == entry_keys(entries@).take(k as int),
    {
        let ghost before = keys@;
        keys.push(entries[k].0.clone());
        assert(texts(keys@) =~= texts(before).push(entries@[k as int].0@));
        assert(entry_keys(entries@).take(k + 1) =~= entry_keys(entries@).take(k as int).push(
            entries@[k as int].0@,
        ));
    }
    assert(entry_keys(entries@).take(entries@.len() as int) =~= entry_keys(entries@));
    keys
}

/// The value under `key`, found through the entries' keys `keys`.
fn lookup_value<'a>(entries: &'a Vec<(String, JsonValue)>, keys: &Vec<String>, key: &String) -> (r:
    Option<&'a JsonValue>)
    requires
        texts(keys@) == entry_keys(entries@),
    ensures
        match r {
            Some(v) => lookup(entries@, key@) == Some(*v),
            None => lookup(entries@, key@) is None,
        },
{
    match position_of(keys, key) {
        Some(k) => {
            proof {
                lemma_first_index(entry_keys(entries@), key@, k as int);
            }
            Some(&entries[k].1)
        },
        None => None,
    }
}

/// Reads one NDJSON line into the dataset: see `line_step`.
#[verifier::loop_isolation(false)]
#[verifier::spinoff_prover]
#[verifier::rlimit(30)]
pub fn read_line(line: &str, dataset: &mut Dataset) -> (r: Result<Option<RawPoint>, ReadError>)
    ensures
        (texts(final(dataset).columns@), final(dataset).has_id, line_result_view(r)) == line_step(
            texts(old(dataset).columns@),
            old(dataset).has_id,
            line@,
        ),
{
    if is_blank(line) {
        return Ok(None);
    }
    let entries = match parse_json_line(line) {
        JsonLine::Invalid(m) => return Err(ReadError::Json(m)),
        JsonLine::NotObject => return Err(ReadError::NotObject),
        JsonLine::Object(entries) => entries,
    };
    let keys = keys_of(&entries);
    let features = feature_columns(&keys);
    if dataset.columns.len() == 0 {
        dataset.columns = sort_texts(&features);
    } else if !same_names(&features, &dataset.columns) {
        return Err(ReadError::FieldsMismatch);
    }
    let ghost cols = texts(dataset.columns@);
    let id_key = String::from_str("id");
    assert(id_key@ =~= id_name()) by {
        reveal_strlit("id");
    }
    let id: Option<String> = match lookup_value(&entries, &keys, &id_key) {
        Some(JsonValue::Text(s)) => Some(s.clone()),
        _ => None,
    };
    if id.is_some() {
        dataset.has_id = true;
    }
    let mut fields: Vec<String> = Vec::new();
    assert(cols.take(0) =~= Seq::<Seq<char>>::empty());
    assert(texts(fields@) =~= Seq::<Seq<char>>::empty());
    for c in 0..dataset.columns.len()
        invariant
            cols == texts(dataset.columns@),
            texts(keys@) == entry_keys(entries@),
            object_fields(entries@, cols.take(c as int)) == Ok::<Seq<Seq<char>>, ReadError>(
                texts(fields@),
            ),
    {
        proof {
            assert(cols.take(c + 1).drop_last() =~= cols.take(c as int));
            assert(cols.take(c + 1).last() == cols[c as int]);
        }
        match lookup_value(&entries, &keys, &dataset.columns[c]) {
            None => {
                proof {
                    lemma_object_fields_prefix(entries@, cols, c + 1);
                }
                return Err(ReadError::MissingField);
            },
            Some(JsonValue::Number(t)) => {
                let ghost before = fields@;
                fields.push(t.clone());
                assert(texts(fields@) =~= texts(before).push(t@));
            },
            Some(_) => {
                proof {
                    lemma_object_fields_prefix(entries@, cols, c + 1);
                }
                return Err(ReadError::NotNumber);
            },
        }
    }
    assert(cols.take(cols.len() as int) =~= cols);
    Ok(Some(RawPoint { id, fields }))
}

/// Reads NDJSON points from `lines`, the lines of the input in order; when
/// reading the input failed after them, `read_failure` is that failure's
/// message. Each line acts as `line_step` says; the first error ends the
/// read, and a read failure is reported after the lines before it.
#[verifier::loop_isolation(false)]
pub fn read_points(lines: &Vec<String>, read_failure: Option<String>, dataset: &mut Dataset) -> (r:
    Result<Vec<RawPoint>, ReadError>)
    ensures
        (texts(final(dataset).columns@), final(dataset).has_id, match r {
            Ok(ps) => Ok(raw_points_view(ps@)),
            Err(e) => Err(e),
        }) == ndjson_outcome(texts(old(dataset).columns@), old(dataset).has_id, texts(lines@), read_failure),
{
    let ghost cols0 = texts(dataset.columns@);
    let ghost has0 = dataset.has_id;
    let ghost all = texts(lines@);
    let mut points: Vec<RawPoint> = Vec::new();
    assert(all.take(0) =~= Seq::<Seq<char>>::empty());
    assert(raw_points_view(points@) =~= Seq::<PointView>::empty());
    for q in 0..lines.len()
        invariant
            all == texts(lines@),
            lines_step(cols0, has0, all.take(q as int)) == (
                texts(dataset.columns@),
                dataset.has_id,
                Ok::<Seq<PointView>, ReadError>(raw_points_view(points@)),
            ),
    {
        proof {
            assert(all.take(q + 1).drop_last() =~= all.take(q as int));
            assert(all.take(q + 1).last() == lines@[q as int]@);
        }
        match read_line(lines[q].as_str(), dataset) {
            Err(e) => {
                proof {
                    lemma_lines_step_prefix(cols0, has0, all, q + 1);
                }
                return Err(e);
            },
            Ok(None) => {},
            Ok(Some(p)) => {
                let ghost before = points@;
                points.push(p);
                assert(raw_points_view(points@) =~= raw_points_view(before).push(raw_point_view(p)));
            },
        }
    }
    assert(all.take(lines@.len() as int) =~= all);
    match read_failure {
        Some(m) => Err(ReadError::Io(m)),
        None => Ok(points),
    }
}

} // verus!
