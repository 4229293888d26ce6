use vstd::prelude::*;

verus! {

/// A point as read from the input: its optional id and the text of each
/// feature value, in the dataset's column order. Every feature text is one
/// that `str::parse::<f64>` accepts, so the caller turns it into a value
/// without a possible failure.
pub struct RawPoint {
    pub id: Option<String>,
    pub fields: Vec<String>,
}

/// The view of an optional text.
pub open spec fn opt_text(s: Option<String>) -> Option<Seq<char>> {
    match s {
        Some(t) => Some(t@),
        None => None,
    }
}

/// The characters of each text, in order.
pub open spec fn texts(v: Seq<String>) -> Seq<Seq<char>> {
    v.map_values(|s: String| s@)
}

/// A point as plain values: its id and its feature texts.
pub open spec fn raw_point_view(p: RawPoint) -> (Option<Seq<char>>, Seq<Seq<char>>) {
    (opt_text(p.id), texts(p.fields@))
}

/// Every point as plain values.
pub open spec fn raw_points_view(ps: Seq<RawPoint>) -> Seq<(Option<Seq<char>>, Seq<Seq<char>>)> {
    ps.map_values(|p: RawPoint| raw_point_view(p))
}

} // verus!
