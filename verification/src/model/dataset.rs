use vstd::prelude::*;

verus! {

/// The feature columns of a point stream, in canonical order, and whether the
/// stream carried an `id` column.
pub struct Dataset {
    pub columns: Vec<String>,
    pub has_id: bool,
}

impl Dataset {
    /// A dataset with no columns and no id.
    pub fn new() -> (d: Self)
        ensures
            d.columns@.len() == 0,
            !d.has_id,
    {
        Dataset { columns: Vec::new(), has_id: false }
    }
}

} // verus!
