use vstd::prelude::*;

use crate::io::columns::id_name;
use crate::io::csv::record_texts;
use crate::model::point::texts;
use crate::model::Dataset;

verus! {

/// The bytes that a default `csv::WriterBuilder` writer produces for
/// `records`, or the message of the error that stops it.
pub uninterp spec fn csv_encoding_of(records: Seq<Seq<Seq<char>>>) -> Result<Seq<u8>, Seq<char>>;

/// Writes `records` with `csv::Writer::write_record` on a default
/// `csv::WriterBuilder` writer over a byte vector and returns the bytes
/// (`csv::Writer::into_inner`). The contract claims only that the bytes, or
/// the message of the first error, are a function of the records' texts
/// (`csv_encoding_of`).
#[verifier::external_body]
fn encode_csv(records: &Vec<Vec<String>>) -> (r: Result<Vec<u8>, String>)
    ensures
        match r {
            Ok(b) => csv_encoding_of(record_texts(records@.map_values(|rec: Vec<String>| rec@)))
                == Ok::<Seq<u8>, Seq<char>>(b@),
            Err(m) => csv_encoding_of(record_texts(records@.map_values(|rec: Vec<String>| rec@)))
                == Err::<Seq<u8>, Seq<char>>(m@),
        },
{
    let mut writer = ::csv::WriterBuilder::new().from_writer(Vec::new());
    for record in records {
        writer.write_record(record).map_err(|e| e.to_string())?;
    }
    writer.into_inner().map_err(|e| e.to_string())
}

/// An encoding result as plain values.
pub open spec fn encoding_view(r: Result<Vec<u8>, String>) -> Result<Seq<u8>, Seq<char>> {
    match r {
        Ok(b) => Ok(b@),
        Err(m) => Err(m@),
    }
}

/// One assigned point, with its numbers already written as text.
pub struct AssignedRow {
    pub id: Option<String>,
    pub values: Vec<String>,
    pub cluster_id: String,
    pub distance: String,
}

/// The header of the assigned-points table: `id` when the input had ids,
/// the feature columns, then `_cluster_id` and `_cluster_distance`.
pub open spec fn assigned_header(has_id: bool, columns: Seq<Seq<char>>) -> Seq<Seq<char>> {
    (if has_id {
        seq![id_name()]
    } else {
        Seq::empty()
    }) + columns + seq!["_cluster_id"@, "_cluster_distance"@]
}

/// One record of the assigned-points table: the id (empty when missing) when
/// the input had ids, the values, the cluster id and the distance.
pub open spec fn assigned_record(has_id: bool, row: AssignedRow) -> Seq<Seq<char>> {
    (if has_id {
        seq![
            match row.id {
                Some(s) => s@,
                None => Seq::empty(),
            },
        ]
    } else {
        Seq::empty()
    }) + texts(row.values@) + seq![row.cluster_id@, row.distance@]
}

/// A copy of `s`.
fn copy_text(s: &String) -> (c: String)
    ensures
        c@ == s@,
{
    s.clone()
}

/// Appends copies of `items` to `out`.
fn extend_texts(out: &mut Vec<String>, items: &Vec<String>)
    ensures
        texts(final(out)@) == texts(old(out)@) + texts(items@),
{
    let ghost start = texts(out@);
    for k in 0..items.len()
        invariant
            texts(out@) == start + texts(items@).take(k as int),
    {
        let ghost before = out@;
        out.push(copy_text(&items[k]));
        assert(texts(out@) =~= texts(before).push(items@[k as int]@));
        assert(texts(items@).take(k + 1) =~= texts(items@).take(k as int).push(items@[k as int]@));
    }
    assert(texts(items@).take(items@.len() as int) =~= texts(items@));
}

/// The assigned points as CSV: the header, then one record per row.
pub fn write_assigned_points(dataset: &Dataset, rows: &Vec<AssignedRow>) -> (r: Result<Vec<u8>, String>)
    ensures
        encoding_view(r) == csv_encoding_of(
            seq![assigned_header(dataset.has_id, texts(dataset.columns@))] + rows@.map_values(
                |row: AssignedRow| assigned_record(dataset.has_id, row),
            ),
        ),
{
    let mut records: Vec<Vec<String>> = Vec::new();
    let mut header: Vec<String> = Vec::new();
    if dataset.has_id {
        let id_text = String::from_str("id");
        assert(id_text@ =~= id_name()) by {
            reveal_strlit("id");
        }
        header.push(id_text);
        assert(texts(header@) =~= seq![id_name()]);
    }
    assert(texts(header@) =~= if dataset.has_id {
        seq![id_name()]
    } else {
        Seq::empty()
    });
    extend_texts(&mut header, &dataset.columns);
    let ghost h1 = texts(header@);
    header.push(String::from_str("_cluster_id"));
    header.push(String::from_str("_cluster_distance"));
    assert(texts(header@) =~= h1 + seq!["_cluster_id"@, "_cluster_distance"@]);
    records.push(header);
    let ghost wanted = seq![assigned_header(dataset.has_id, texts(dataset.columns@))] + rows@.map_values(
        |row: AssignedRow| assigned_record(dataset.has_id, row),
    );
    for k in 0..rows.len()
        invariant
            record_texts(records@.map_values(|rec: Vec<String>| rec@)) == wanted.take(k + 1),
            wanted == seq![assigned_header(dataset.has_id, texts(dataset.columns@))] + rows@.map_values(
                |row: AssignedRow| assigned_record(dataset.has_id, row),
            ),
    {
        let row = &rows[k];
        let mut record: Vec<String> = Vec::new();
        if dataset.has_id {
            let id = match &row.id {
                Some(s) => s.clone(),
                None => String::new(),
            };
            record.push(id);
        }
        assert(texts(record@) =~= if dataset.has_id {
            seq![
                match row.id {
                    Some(s) => s@,
                    None => Seq::<char>::empty(),
                },
            ]
        } else {
            Seq::empty()
        });
        extend_texts(&mut record, &row.values);
        let ghost r1 = texts(record@);
        record.push(copy_text(&row.cluster_id));
        record.push(copy_text(&row.distance));
        assert(texts(record@) =~= r1 + seq![row.cluster_id@, row.distance@]);
        let ghost before = records@;
        records.push(record);
        assert(record_texts(records@.map_values(|rec: Vec<String>| rec@)) =~= record_texts(
            before.map_values(|rec: Vec<String>| rec@),
        ).push(texts(record@)));
        assert(wanted.take(k + 2) =~= wanted.take(k + 1).push(wanted[k + 1]));
    }
    assert(wanted.take(rows@.len() as int + 1) =~= wanted);
    encode_csv(&records)
}

/// One row of the neighbour table, with its numbers already written as text.
pub struct NeighborRow {
    pub centroid_id: String,
    pub neighbor_id: String,
    pub distance: String,
    pub rank: String,
}

/// The header of the neighbour table.
pub open spec fn neighbors_header() -> Seq<Seq<char>> {
    seq!["centroid_id"@, "neighbor_id"@, "distance"@, "rank"@]
}

/// One record of the neighbour table.
pub open spec fn neighbor_record(row: NeighborRow) -> Seq<Seq<char>> {
    seq![row.centroid_id@, row.neighbor_id@, row.distance@, row.rank@]
}

/// The neighbour table as CSV: the header, then one record per row.
pub fn write_neighbors(rows: &Vec<NeighborRow>) -> (r: Result<Vec<u8>, String>)
    ensures
        encoding_view(r) == csv_encoding_of(
            seq![neighbors_header()] + rows@.map_values(|row: NeighborRow| neighbor_record(row)),
        ),
{
    let mut records: Vec<Vec<String>> = Vec::new();
    let header: Vec<String> = vec![
        String::from_str("centroid_id"),
        String::from_str("neighbor_id"),
        String::from_str("distance"),
        String::from_str("rank"),
    ];
    assert(texts(header@) =~= neighbors_header());
    records.push(header);
    let ghost wanted = seq![neighbors_header()] + rows@.map_values(|row: NeighborRow| neighbor_record(row));
    for k in 0..rows.len()
        invariant
            record_texts(records@.map_values(|rec: Vec<String>| rec@)) == wanted.take(k + 1),
            wanted == seq![neighbors_header()] + rows@.map_values(|row: NeighborRow| neighbor_record(row)),
    {
        let row = &rows[k];
        let record: Vec<String> = vec![
            copy_text(&row.centroid_id),
            copy_text(&row.neighbor_id),
            copy_text(&row.distance),
            copy_text(&row.rank),
        ];
        assert(texts(record@) =~= neighbor_record(*row));
        let ghost before = records@;
        records.push(record);
        assert(record_texts(records@.map_values(|rec: Vec<String>| rec@)) =~= record_texts(
            before.map_values(|rec: Vec<String>| rec@),
        ).push(texts(record@)));
        assert(wanted.take(k + 2) =~= wanted.take(k + 1).push(wanted[k + 1]));
    }
    assert(wanted.take(rows@.len() as int + 1) =~= wanted);
    encode_csv(&records)
}

} // verus!
