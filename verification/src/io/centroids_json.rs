use vstd::prelude::*;

use crate::algo::kmeans::FitResult;
use crate::io::columns::copy_names;
use crate::model::centroid::{centroids_view, copy_centroids};
use crate::model::point::texts;
use crate::model::Dataset;

verus! {

/// The centroids file: the explicit state that `fit` hands to later commands.
pub struct CentroidsFile {
    pub version: String,
    pub dims: usize,
    pub columns: Vec<String>,
    pub distance: String,
    pub centroids: Vec<crate::model::Centroid>,
    pub data_count: usize,
    pub converged: bool,
    pub iterations: usize,
}

/// Why a centroids file is unusable.
#[derive(Clone, Copy, Debug, PartialEq, Eq, Structural)]
pub enum CentroidsError {
    /// No feature columns, or zero dimensions.
    NoFeatureColumns,
    /// `dims` differs from the number of columns.
    DimsMismatch,
    /// Some centroid has a number of coordinates other than `dims`.
    CoordsMismatch,
}

/// What `CentroidsError::message` returns.
pub open spec fn centroids_error_text(e: CentroidsError) -> Seq<char> {
    match e {
        CentroidsError::NoFeatureColumns => "centroids file has no feature columns"@,
        CentroidsError::DimsMismatch => "centroids dims does not match columns length"@,
        CentroidsError::CoordsMismatch => "centroid coords length does not match dims"@,
    }
}

impl CentroidsError {
    /// The message shown to a user.
    pub fn message(&self) -> (m: String)
        ensures
            m@ == centroids_error_text(*self),
    {
        match self {
            CentroidsError::NoFeatureColumns => String::from_str("centroids file has no feature columns"),
            CentroidsError::DimsMismatch => String::from_str("centroids dims does not match columns length"),
            CentroidsError::CoordsMismatch => String::from_str("centroid coords length does not match dims"),
        }
    }
}

/// The schema tag of every centroids file this tool writes.
pub open spec fn schema_version() -> Seq<char> {
    "kmeansn.centroids.v1"@
}

/// The distance every centroids file this tool writes names.
pub open spec fn distance_name() -> Seq<char> {
    "euclidean"@
}

/// What `validate` decides: the first of its checks that fails, if any.
pub open spec fn validation(dims: usize, columns: Seq<Seq<char>>, coord_counts: Seq<int>) -> Result<
    (),
    CentroidsError,
> {
    if columns.len() == 0 || dims == 0 {
        Err(CentroidsError::NoFeatureColumns)
    } else if dims != columns.len() {
        Err(CentroidsError::DimsMismatch)
    } else if exists|i: int| 0 <= i < coord_counts.len() && #[trigger] coord_counts[i] != dims {
        Err(CentroidsError::CoordsMismatch)
    } else {
        Ok(())
    }
}

/// A file written from a fit validates when the dataset has feature columns
/// and every centroid has one coordinate per column.
pub proof fn lemma_written_file_validates(columns: Seq<Seq<char>>, coord_counts: Seq<int>)
    requires
        columns.len() > 0,
        columns.len() <= usize::MAX,
        forall|i: int| 0 <= i < coord_counts.len() ==> #[trigger] coord_counts[i] == columns.len(),
    ensures
        validation(columns.len() as usize, columns, coord_counts) == Ok::<(), CentroidsError>(()),
{
}

impl CentroidsFile {
    /// The number of coordinates of each centroid.
    pub open spec fn coord_counts(&self) -> Seq<int> {
        self.centroids@.map_values(|c: crate::model::Centroid| c.coords@.len() as int)
    }

    /// The file describing `fit` on the columns of `dataset`.
    pub fn from_fit(dataset: &Dataset, fit: &FitResult) -> (f: Self)
        ensures
            f.version@ == schema_version(),
            f.dims == dataset.columns@.len(),
            texts(f.columns@) == texts(dataset.columns@),
            f.distance@ == distance_name(),
            centroids_view(f.centroids@) == centroids_view(fit.centroids@),
            f.data_count == fit.data_count,
            f.converged == fit.converged,
            f.iterations == fit.iterations,
    {
        CentroidsFile {
            version: String::from_str("kmeansn.centroids.v1"),
            dims: dataset.columns.len(),
            columns: copy_names(&dataset.columns),
            distance: String::from_str("euclidean"),
            centroids: copy_centroids(&fit.centroids),
            data_count: fit.data_count,
            converged: fit.converged,
            iterations: fit.iterations,
        }
    }

    /// Checks that the file describes usable centroids: it has feature
    /// columns, `dims` is their number, and every centroid has `dims`
    /// coordinates.
    #[verifier::loop_isolation(false)]
    pub fn validate(&self) -> (r: Result<(), CentroidsError>)
        ensures
            r == validation(self.dims, texts(self.columns@), self.coord_counts()),
    {
        if self.columns.len() == 0 || self.dims == 0 {
            return Err(CentroidsError::NoFeatureColumns);
        }
        if self.dims != self.columns.len() {
            return Err(CentroidsError::DimsMismatch);
        }
        for i in 0..self.centroids.len()
            invariant
                forall|j: int| 0 <= j < i ==> #[trigger] self.coord_counts()[j] == self.dims,
        {
            if self.centroids[i].coords.len() != self.dims {
                assert(self.coord_counts()[i as int] != self.dims);
                return Err(CentroidsError::CoordsMismatch);
            }
        }
        Ok(())
    }
}

} // verus!
