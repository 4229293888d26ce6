use kmeansn::io::format::{
    infer_format_from_path, resolve_input_format, resolve_output_format, Format, FormatError,
};

#[test]
fn infers_formats_from_extensions() {
    assert_eq!(infer_format_from_path("data.csv"), Some(Format::Csv));
    assert_eq!(infer_format_from_path("dir/data.CSV"), Some(Format::Csv));
    assert_eq!(infer_format_from_path("points.ndjson"), Some(Format::Ndjson));
    assert_eq!(infer_format_from_path("points.JsonL"), Some(Format::Ndjson));
    assert_eq!(infer_format_from_path("points.json"), None);
    assert_eq!(infer_format_from_path("csv"), None);
    assert_eq!(infer_format_from_path(".csv"), None);
    assert_eq!(infer_format_from_path("archive.tar.csv"), Some(Format::Csv));
    assert_eq!(infer_format_from_path(""), None);
}

#[test]
fn explicit_input_format_wins() {
    assert_eq!(resolve_input_format(Some("a.csv"), Some(Format::Ndjson)), Ok(Format::Ndjson));
    assert_eq!(resolve_input_format(None, Some(Format::Csv)), Ok(Format::Csv));
}

#[test]
fn input_format_from_path_or_error() {
    assert_eq!(resolve_input_format(Some("a.jsonl"), None), Ok(Format::Ndjson));
    assert_eq!(resolve_input_format(Some("a.txt"), None), Err(FormatError::CannotInferInput));
    let err = resolve_input_format(None, None).unwrap_err();
    assert!(err.message().contains("input-format"));
}

#[test]
fn output_format_falls_back() {
    assert_eq!(resolve_output_format(None, None, Format::Ndjson), Ok(Format::Ndjson));
    assert_eq!(resolve_output_format(Some("o.csv"), None, Format::Ndjson), Ok(Format::Csv));
    assert_eq!(resolve_output_format(Some("o.out"), None, Format::Csv), Ok(Format::Csv));
    assert_eq!(
        resolve_output_format(Some("o.csv"), Some(Format::Ndjson), Format::Csv),
        Ok(Format::Ndjson)
    );
}
