use std::path::PathBuf;

use vstd::prelude::*;

verus! {

#[verifier::external_type_specification]
#[verifier::external_body]
pub struct ExPathBuf(PathBuf);

/// Where input comes from.
pub enum InputSource {
    Stdin,
    File(PathBuf),
}

/// Where output goes.
pub enum OutputTarget {
    Stdout,
    File(PathBuf),
}

/// The named file, or standard input when no path is given.
pub fn input_source(path: Option<PathBuf>) -> (s: InputSource)
    ensures
        match path {
            Some(p) => s == InputSource::File(p),
            None => s == InputSource::Stdin,
        },
{
    match path {
        Some(path) => InputSource::File(path),
        None => InputSource::Stdin,
    }
}

/// The named file, or standard output when no path is given.
pub fn output_target(path: Option<PathBuf>) -> (t: OutputTarget)
    ensures
        match path {
            Some(p) => t == OutputTarget::File(p),
            None => t == OutputTarget::Stdout,
        },
{
    match path {
        Some(path) => OutputTarget::File(path),
        None => OutputTarget::Stdout,
    }
}

} // verus!
