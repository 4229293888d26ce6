use kmeansn::io::csv::read_points;
use kmeansn::io::error::ReadError;
use kmeansn::model::{Dataset, RawPoint};

fn fields(p: &RawPoint) -> Vec<&str> {
    p.fields.iter().map(|s| s.as_str()).collect()
}

#[test]
fn reads_header_columns_and_ids() {
    let input = b"id,x,y\na,1.0,2.0\nb,1.2,2.1\n";
    let mut dataset = Dataset::new();
    let points = read_points(input, &mut dataset).ok().unwrap();
    assert_eq!(dataset.columns, vec!["x".to_string(), "y".to_string()]);
    assert!(dataset.has_id);
    assert_eq!(points.len(), 2);
    assert_eq!(points[0].id.as_deref(), Some("a"));
    assert_eq!(fields(&points[1]), vec!["1.2", "2.1"]);
}

#[test]
fn reserved_columns_are_ignored() {
    let input = b"_cluster_id,x,id,_note,y\n3,1,p1,n,2\n";
    let mut dataset = Dataset::new();
    let points = read_points(input, &mut dataset).ok().unwrap();
    assert_eq!(dataset.columns, vec!["x".to_string(), "y".to_string()]);
    assert_eq!(fields(&points[0]), vec!["1", "2"]);
    assert_eq!(points[0].id.as_deref(), Some("p1"));
}

#[test]
fn empty_id_is_no_id() {
    let input = b"id,x\n,1\n";
    let mut dataset = Dataset::new();
    let points = read_points(input, &mut dataset).ok().unwrap();
    assert!(dataset.has_id);
    assert_eq!(points[0].id, None);
}

#[test]
fn columns_follow_the_dataset_order() {
    let input = b"y,x\n2,1\n";
    let mut dataset = Dataset { columns: vec!["x".to_string(), "y".to_string()], has_id: false };
    let points = read_points(input, &mut dataset).ok().unwrap();
    assert_eq!(fields(&points[0]), vec!["1", "2"]);
    assert!(!dataset.has_id);
}

#[test]
fn mismatched_columns_are_refused() {
    let input = b"x,z\n1,2\n";
    let mut dataset = Dataset { columns: vec!["x".to_string(), "y".to_string()], has_id: true };
    let err = read_points(input, &mut dataset).err().unwrap();
    assert!(matches!(err, ReadError::ColumnsMismatch));
    assert_eq!(err.message(), "input columns do not match centroids columns");
    assert!(dataset.has_id);
}

#[test]
fn number_errors_name_the_problem() {
    let mut dataset = Dataset::new();
    let err = read_points(b"x\n1\nabc\n", &mut dataset).err().unwrap();
    assert!(matches!(err, ReadError::InvalidNumber));
    assert_eq!(err.message(), "abc".parse::<f64>().unwrap_err().to_string());
    let mut dataset = Dataset::new();
    let err = read_points(b"x,y\n1,\n", &mut dataset).err().unwrap();
    assert!(matches!(err, ReadError::EmptyNumber));
    assert_eq!(err.message(), "".parse::<f64>().unwrap_err().to_string());
}

#[test]
fn csv_errors_come_after_earlier_records() {
    let mut dataset = Dataset::new();
    let err = read_points(b"x,y\n1,2\n3\n", &mut dataset).err().unwrap();
    assert!(matches!(err, ReadError::Csv(_)));
    // an earlier bad number wins over a later csv error
    let mut dataset = Dataset::new();
    let err = read_points(b"x,y\n1,nope\n3\n", &mut dataset).err().unwrap();
    assert!(matches!(err, ReadError::InvalidNumber));
}

#[test]
fn invalid_utf8_header_is_a_csv_error() {
    let mut dataset = Dataset::new();
    let err = read_points(b"x,\xff\n1,2\n", &mut dataset).err().unwrap();
    assert!(matches!(err, ReadError::Csv(_)));
    assert!(dataset.columns.is_empty());
}

#[test]
fn empty_input_has_no_columns() {
    let mut dataset = Dataset::new();
    let points = read_points(b"", &mut dataset).ok().unwrap();
    assert!(points.is_empty());
    assert!(dataset.columns.is_empty());
}

#[test]
fn quoted_fields_are_unquoted() {
    let mut dataset = Dataset::new();
    let points = read_points(b"\"id\",\"x\"\n\"a,b\",\"2.5\"\n", &mut dataset).ok().unwrap();
    assert_eq!(points[0].id.as_deref(), Some("a,b"));
    assert_eq!(fields(&points[0]), vec!["2.5"]);
}

#[test]
fn accepted_numbers_match_the_standard_parser() {
    let samples = [
        "1", "-1", "+1", "1.", ".5", "1.5e3", "1E-3", "2e+10", "inf", "-Infinity", "NaN", "nan",
        "1e", "e5", ".", "+", "-", "1..2", "1.2.3", " 1", "1 ", "0x10", "1_000", "infinit", "in",
        "--1", "1e5.0", "١", "5e-", "00.00", "+.e1", "+.1e1",
    ];
    for s in samples {
        let input = format!("x\n\"{s}\"\n");
        let mut dataset = Dataset::new();
        let ok = read_points(input.as_bytes(), &mut dataset).is_ok();
        assert_eq!(ok, s.parse::<f64>().is_ok(), "disagreement on {s:?}");
    }
}

#[test]
fn rereading_with_saved_columns_gives_the_same_points() {
    let input = b"id,b,a,_x\np,1,2,3\nq,4,5,6\n";
    let mut first = Dataset::new();
    let points = read_points(input, &mut first).ok().unwrap();
    let mut second = Dataset { columns: first.columns.clone(), has_id: false };
    let again = read_points(input, &mut second).ok().unwrap();
    assert_eq!(first.columns, second.columns);
    assert_eq!(points.len(), again.len());
    for (a, b) in points.iter().zip(again.iter()) {
        assert_eq!(a.id, b.id);
        assert_eq!(a.fields, b.fields);
    }
}
