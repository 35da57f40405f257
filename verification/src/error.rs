//! The ways in which a run can fail.

use vstd::prelude::*;
use crate::platform::OS;

verus! {

/// A place in a version descriptor, named by the keys that lead to it.
#[derive(Clone, Copy, Debug, PartialEq, Eq)]
pub enum Field {
    /// The descriptor itself.
    Root,
    /// `assetIndex`
    AssetIndex,
    /// `assetIndex.id`
    AssetIndexId,
    /// `javaVersion`
    JavaVersion,
    /// `javaVersion.majorVersion`
    JavaMajorVersion,
    /// `libraries`
    Libraries,
    /// `libraries[i]`
    Library(usize),
    /// `libraries[i].downloads`
    Downloads(usize),
    /// `libraries[i].downloads.artifact`
    Artifact(usize),
    /// `libraries[i].downloads.classifiers`
    Classifiers(usize),
    /// `libraries[i].downloads.classifiers.natives-<os>`
    Natives(usize, OS),
}

/// What was being done to a file when the host refused.
#[derive(Clone, Copy, Debug, PartialEq, Eq)]
pub enum Operation {
    Read,
    CreateDirectory,
    Copy,
    Extract,
    Write,
}

/// Every way in which a run can fail.
#[derive(Clone, Debug, PartialEq, Eq)]
pub enum Error {
    /// A required field of the version descriptor is absent or has the wrong shape.
    MalformedDescriptor(Field),
    /// The asset index has no `objects` object, or one of its objects has no usable `hash`.
    MalformedAssetIndex,
    /// A library's `downloads` has neither an `artifact` nor `classifiers`.
    MalformedLibraryEntry,
    /// A download object has no `path` that names a file below the store's
    /// root: none at all, none that is a string, or one that is absolute or
    /// has a `..` component.
    MissingDownloadPath,
    /// The host's name matches none of the known operating systems.
    UnsupportedPlatform,
    /// The host has no home directory.
    HomeDirectoryUnset,
    /// The host refused an operation on the file at the given path.
    IOFailure(Operation, String),
}

/// What was returned is what was expected of it: the same error, or a value
/// with the expected mathematical value.
pub open spec fn agrees<T: DeepView>(
    returned: Result<T, Error>,
    expected: Result<T::V, Error>,
) -> bool {
    match returned {
        Ok(value) => expected == Ok::<T::V, Error>(value.deep_view()),
        Err(e) => expected == Err::<T::V, Error>(e),
    }
}

} // verus!
