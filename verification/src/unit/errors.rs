//! The failures of loading units and of ordering them.

use std::path::PathBuf;
use vstd::prelude::*;

verus! {

/// `std::path::PathBuf`, opaque here: a path is carried, never read.
#[verifier::external_type_specification]
#[verifier::external_body]
pub struct ExPathBuf(PathBuf);

/// `std::io::Error`, opaque here: the cause of a failed read.
#[verifier::external_type_specification]
#[verifier::external_body]
pub struct ExIoError(std::io::Error);

/// `toml::de::Error`, opaque here: the cause of a failed decoding.
#[verifier::external_type_specification]
#[verifier::external_body]
pub struct ExTomlError(toml::de::Error);

/// Why a unit, or the set of units, could not be loaded.
#[derive(Debug)]
pub enum UnitLoadError {
    /// The source has no extension, or one that is not text.
    InvalidExtension,
    /// The extension names no unit type.
    UnsupportedUnitType(String),
    /// The source could not be read.
    ReadError(PathBuf, std::io::Error),
    /// The source is not a well-formed unit definition.
    ParseError(PathBuf, toml::de::Error),
    /// The unit breaks a rule, or its type is not that of its source.
    ValidationError(PathBuf),
    /// The directory could not be read.
    ReadDirError(PathBuf, std::io::Error),
    /// An entry of the directory could not be read.
    DirEntryError(PathBuf, std::io::Error),
    /// The first unit declares a dependency on the second, which is not
    /// among the loaded units.
    MissingDependency(String, String),
}

/// Why a set of units could not be ordered.
#[derive(Debug)]
pub enum GraphBuildError {
    /// Loading failed, or a declared dependency is missing.
    LoadError(UnitLoadError),
    /// The constraints form a cycle on which the named unit lies.
    DependencyCycle(String),
}

impl From<UnitLoadError> for GraphBuildError {
    fn from(error: UnitLoadError) -> (wrapped: GraphBuildError)
        ensures
            wrapped == GraphBuildError::LoadError(error),
    {
        GraphBuildError::LoadError(error)
    }
}

impl vstd::std_specs::convert::FromSpecImpl<UnitLoadError> for GraphBuildError {
    open spec fn obeys_from_spec() -> bool {
        true
    }

    open spec fn from_spec(error: UnitLoadError) -> GraphBuildError {
        GraphBuildError::LoadError(error)
    }
}

} // verus!
