//! Resources: what can be loaded, and what can go wrong when it is.

use vstd::prelude::*;

verus! {

/// Class of types that can be loaded.
pub trait Load: Sized {
    /// The cache through which a loader gets the resources it depends on.
    type Cache;

    /// Arguments passed at loading.
    type Args;

    /// Loads the resource found at `path`.
    fn load(path: &str, cache: &mut Self::Cache, args: Self::Args) -> Result<Self, LoadError>;
}

/// Class of types that can be reloaded.
///
/// The idea is to simply recover the arguments used in `Load::load`.
pub trait Reload: Load {
    /// The arguments with which the resource was loaded.
    fn reload_args(&self) -> Self::Args;
}

/// Default implementation for types which are loaded without any arguments.
impl<T> Reload for T where T: Load<Args = ()> {
    fn reload_args(&self) -> Self::Args {
        ()
    }
}

/// Why a resource could not be loaded.
#[derive(Clone, Debug, Eq, PartialEq)]
pub enum LoadError {
    /// No file at the path; the second text says why it could not be opened.
    FileNotFound(String, String),
    /// The file's content could not be parsed.
    ParseFailed(String),
    /// The parsed content could not be converted.
    ConversionFailed(String),
}

} // verus!
