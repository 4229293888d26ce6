use vstd::prelude::*;

use crate::io::centroids_json::CentroidsFile;
use crate::io::columns::copy_names;
use crate::model::point::texts;
use crate::model::Dataset;

verus! {

/// Why a command stopped before its main work.
#[derive(Clone, Copy, Debug, PartialEq, Eq, Structural)]
pub enum CommandError {
    /// The input of `fit` had no feature columns.
    NoFeatureColumns,
    /// The centroids file of `assign` holds no centroids.
    NoCentroids,
}

/// What `CommandError::message` returns.
pub open spec fn command_error_text(e: CommandError) -> Seq<char> {
    match e {
        CommandError::NoFeatureColumns => "no feature columns found"@,
        CommandError::NoCentroids => "centroids file contains no centroids"@,
    }
}

impl CommandError {
    /// The message shown to a user.
    pub fn message(&self) -> (m: String)
        ensures
            m@ == command_error_text(*self),
    {
        match self {
            CommandError::NoFeatureColumns => String::from_str("no feature columns found"),
            CommandError::NoCentroids => String::from_str("centroids file contains no centroids"),
        }
    }
}

/// `fit` needs at least one feature column in what it read.
pub fn require_feature_columns(dataset: &Dataset) -> (r: Result<(), CommandError>)
    ensures
        r is Ok <==> dataset.columns@.len() > 0,
        r is Err ==> r == Err::<(), CommandError>(CommandError::NoFeatureColumns),
{
    if dataset.columns.len() == 0 {
        Err(CommandError::NoFeatureColumns)
    } else {
        Ok(())
    }
}

/// The dataset `assign` reads its points into: the centroids file's columns,
/// no id yet. Fails when the file holds no centroids.
pub fn assign_dataset(file: &CentroidsFile) -> (r: Result<Dataset, CommandError>)
    ensures
        match r {
            Ok(d) => file.centroids@.len() > 0 && texts(d.columns@) == texts(file.columns@) && !d.has_id,
            Err(e) => file.centroids@.len() == 0 && e == CommandError::NoCentroids,
        },
{
    if file.centroids.len() == 0 {
        return Err(CommandError::NoCentroids);
    }
    Ok(Dataset { columns: copy_names(&file.columns), has_id: false })
}

} // verus!
