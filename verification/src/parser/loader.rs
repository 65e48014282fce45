//! The decisions of the loader. Reading a directory, reading a file and
//! decoding its text are the caller's part: what they gave comes in as plain
//! values, and what is to be done with it comes out.

use crate::unit::errors::UnitLoadError;
use crate::unit::types::{UnitFile, UnitType};
use std::path::PathBuf;
use vstd::prelude::*;

verus! {

/// What reading one entry of a directory of units gave.
#[derive(Debug)]
pub enum ScanEntry {
    /// The entry could not be read: the directory, and the failure.
    Unreadable(PathBuf, std::io::Error),
    /// The path of the entry is not text.
    PathNotText,
    /// The entry was taken for a unit: the unit, or why it could not be
    /// loaded.
    Loaded(Result<UnitFile, UnitLoadError>),
}

/// What became of one entry of a directory of units.
#[derive(Debug)]
pub enum ScanStep {
    /// The unit was added to those loaded.
    Kept,
    /// The entry was passed over, its path not being text.
    SkippedPath,
    /// The entry was passed over, for the reason given.
    SkippedUnit(UnitLoadError),
}

/// The unit type that the extension of a source names. A source without an
/// extension is refused, and so is an extension that names no type.
pub fn extension_type(extension: Option<&str>) -> (result: Result<UnitType, UnitLoadError>)
    ensures
        match extension {
            None => result matches Err(UnitLoadError::InvalidExtension),
            Some(text) => match UnitType::named(text@) {
                Some(unit_type) => result matches Ok(found) && found == unit_type,
                None => result matches Err(UnitLoadError::UnsupportedUnitType(given)) && given@ == text@,
            },
        },
{
    match extension {
        None => Err(UnitLoadError::InvalidExtension),
        Some(text) => match UnitType::from_text(text) {
            Some(unit_type) => Ok(unit_type),
            None => Err(UnitLoadError::UnsupportedUnitType(text.to_string())),
        },
    }
}

/// Admits a decoded unit: it must be valid, and of the type that its source
/// implies. Otherwise the source is reported as failing validation.
pub fn admit_unit(unit: UnitFile, expected: UnitType, source: PathBuf) -> (result: Result<UnitFile, UnitLoadError>)
    ensures
        if unit@.is_valid() && unit.unit.unit_type == expected {
            result == Ok::<UnitFile, UnitLoadError>(unit)
        } else {
            result == Err::<UnitFile, UnitLoadError>(UnitLoadError::ValidationError(source))
        },
{
    if unit.validate().is_err() || unit.unit.unit_type != expected {
        return Err(UnitLoadError::ValidationError(source));
    }
    Ok(unit)
}

/// Takes one entry of a directory into account. An entry that could not be
/// read ends the scan with an error. A unit that was loaded is added to
/// `units`. Any other entry is passed over, and `units` stays as it was.
pub fn scan_entry(units: &mut Vec<UnitFile>, entry: ScanEntry) -> (step: Result<ScanStep, UnitLoadError>)
    ensures
        match entry {
            ScanEntry::Unreadable(directory, failure) => {
                &&& step == Err::<ScanStep, UnitLoadError>(UnitLoadError::DirEntryError(directory, failure))
                &&& final(units)@ == old(units)@
            },
            ScanEntry::PathNotText => {
                &&& step == Ok::<ScanStep, UnitLoadError>(ScanStep::SkippedPath)
                &&& final(units)@ == old(units)@
            },
            ScanEntry::Loaded(Ok(unit)) => {
                &&& step == Ok::<ScanStep, UnitLoadError>(ScanStep::Kept)
                &&& final(units)@ == old(units)@.push(unit)
            },
            ScanEntry::Loaded(Err(error)) => {
                &&& step == Ok::<ScanStep, UnitLoadError>(ScanStep::SkippedUnit(error))
                &&& final(units)@ == old(units)@
            },
        },
{
    match entry {
        ScanEntry::Unreadable(directory, failure) => Err(UnitLoadError::DirEntryError(directory, failure)),
        ScanEntry::PathNotText => Ok(ScanStep::SkippedPath),
        ScanEntry::Loaded(Ok(unit)) => {
            units.push(unit);
            Ok(ScanStep::Kept)
        },
        ScanEntry::Loaded(Err(error)) => Ok(ScanStep::SkippedUnit(error)),
    }
}

} // verus!
