use kmeansn::io::error::ReadError;
use kmeansn::io::ndjson::{read_line, read_points};
use kmeansn::model::{Dataset, RawPoint};

fn lines(text: &[&str]) -> Vec<String> {
    text.iter().map(|s| s.to_string()).collect()
}

fn fields(p: &RawPoint) -> Vec<&str> {
    p.fields.iter().map(|s| s.as_str()).collect()
}

#[test]
fn columns_are_sorted_keys_of_the_first_object() {
    let input = lines(&[r#"{"y":2.0,"id":"p1","x":1,"_c":5}"#, "", r#"{"x":3,"y":4}"#]);
    let mut dataset = Dataset::new();
    let points = read_points(&input, None, &mut dataset).ok().unwrap();
    assert_eq!(dataset.columns, vec!["x".to_string(), "y".to_string()]);
    assert!(dataset.has_id);
    assert_eq!(points.len(), 2);
    assert_eq!(points[0].id.as_deref(), Some("p1"));
    assert_eq!(fields(&points[0]), vec!["1", "2.0"]);
    assert_eq!(points[1].id, None);
}

#[test]
fn numbers_round_trip_through_their_text() {
    let input = lines(&[r#"{"a":-5,"b":1e300,"c":0.1}"#]);
    let mut dataset = Dataset::new();
    let points = read_points(&input, None, &mut dataset).ok().unwrap();
    let values: Vec<f64> = points[0].fields.iter().map(|s| s.parse().unwrap()).collect();
    assert_eq!(values, vec![-5.0, 1e300, 0.1]);
}

#[test]
fn blank_lines_are_skipped() {
    let mut dataset = Dataset::new();
    assert!(matches!(read_line(" \t\u{3000} ", &mut dataset), Ok(None)));
    assert!(dataset.columns.is_empty());
}

#[test]
fn errors_of_ndjson_lines() {
    let mut dataset = Dataset::new();
    let err = read_line("[1,2]", &mut dataset).err().unwrap();
    assert_eq!(err.message(), "ndjson line must be an object");

    let mut dataset = Dataset::new();
    let err = read_line("{oops", &mut dataset).err().unwrap();
    assert!(matches!(err, ReadError::Json(_)));

    let mut dataset = Dataset::new();
    let err = read_line(r#"{"x":"1"}"#, &mut dataset).err().unwrap();
    assert_eq!(err.message(), "feature value must be a number");
    // the columns were taken from that line before the value failed
    assert_eq!(dataset.columns, vec!["x".to_string()]);

    let mut dataset = Dataset { columns: vec!["x".to_string()], has_id: false };
    let err = read_line(r#"{"x":1,"y":2}"#, &mut dataset).err().unwrap();
    assert_eq!(err.message(), "input fields do not match centroids columns");
}

#[test]
fn numeric_id_is_not_an_id() {
    let mut dataset = Dataset::new();
    let p = read_line(r#"{"id":7,"x":1}"#, &mut dataset).ok().unwrap().unwrap();
    assert_eq!(p.id, None);
    assert!(!dataset.has_id);
}

#[test]
fn read_failure_is_reported_after_the_lines() {
    let input = lines(&[r#"{"x":1}"#]);
    let mut dataset = Dataset::new();
    let err = read_points(&input, Some("stream did not contain valid UTF-8".to_string()), &mut dataset)
        .err()
        .unwrap();
    assert!(matches!(err, ReadError::Io(_)));
    assert_eq!(err.message(), "stream did not contain valid UTF-8");

    let input = lines(&[r#"{"x":"bad"}"#]);
    let mut dataset = Dataset::new();
    let err = read_points(&input, Some("io".to_string()), &mut dataset).err().unwrap();
    assert!(matches!(err, ReadError::NotNumber));
}

#[test]
fn rereading_with_sorted_columns_is_accepted() {
    let line = r#"{"z":1,"a":2,"m":3}"#;
    let mut first = Dataset::new();
    let p = read_line(line, &mut first).ok().unwrap().unwrap();
    assert_eq!(first.columns, vec!["a".to_string(), "m".to_string(), "z".to_string()]);
    let mut second = Dataset { columns: first.columns.clone(), has_id: false };
    let q = read_line(line, &mut second).ok().unwrap().unwrap();
    assert_eq!(p.fields, q.fields);
    assert_eq!(fields(&q), vec!["2", "3", "1"]);
}
