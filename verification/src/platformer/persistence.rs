//! The outcomes of reading and writing `.platformer` level files.
//!
//! The file operations themselves belong to the host; this module names the
//! save policies and the errors that a load or a save reports, each with the
//! path that it concerns.
use vstd::prelude::*;

use crate::platformer::level::ParseError;

verus! {

#[verifier::external_type_specification]
#[verifier::external_body]
pub struct ExPathBuf(std::path::PathBuf);

#[verifier::external_type_specification]
#[verifier::external_body]
pub struct ExIoError(std::io::Error);

/// Whether a level save may create or replace its destination.
#[derive(Clone, Copy, Debug, PartialEq, Eq, Structural)]
pub enum SaveMode {
    /// Create the destination and fail if the path is already occupied.
    CreateNew,
    /// Replace an existing destination and fail if it does not exist.
    ReplaceExisting,
}

impl SaveMode {
    /// The verb phrase that names this policy in messages.
    pub fn describe(self) -> (r: &'static str)
        ensures
            r@ == match self {
                SaveMode::CreateNew => "create a new"@,
                SaveMode::ReplaceExisting => "replace the existing"@,
            },
    {
        match self {
            SaveMode::CreateNew => "create a new",
            SaveMode::ReplaceExisting => "replace the existing",
        }
    }
}

/// An error met while loading a level file.
#[derive(Debug)]
pub enum LoadError {
    /// The file could not be read as UTF-8 text.
    Read { path: std::path::PathBuf, source: std::io::Error },
    /// The file was read but did not hold one complete valid level.
    Parse { path: std::path::PathBuf, source: ParseError },
}

impl LoadError {
    /// The path of the failed load.
    pub fn path(&self) -> (r: &std::path::PathBuf)
        ensures
            r == match self {
                LoadError::Read { path, .. } => path,
                LoadError::Parse { path, .. } => path,
            },
    {
        match self {
            LoadError::Read { path, .. } => path,
            LoadError::Parse { path, .. } => path,
        }
    }
}

/// An error met while saving a level file.
#[derive(Debug)]
pub enum SaveError {
    /// The destination does not name a file.
    InvalidDestination { path: std::path::PathBuf },
    /// No temporary file could be created beside the destination.
    TemporaryCreate {
        destination: std::path::PathBuf,
        path: std::path::PathBuf,
        source: std::io::Error,
    },
    /// The level could not be completely written to the temporary file.
    TemporaryWrite {
        destination: std::path::PathBuf,
        path: std::path::PathBuf,
        source: std::io::Error,
    },
    /// Replacement was asked for, but no destination exists.
    DestinationMissing { path: std::path::PathBuf },
    /// The finished temporary file could not be published at the destination.
    Publish { path: std::path::PathBuf, mode: SaveMode, source: std::io::Error },
}

impl SaveError {
    /// The destination of the failed save (never the temporary file).
    pub fn path(&self) -> (r: &std::path::PathBuf)
        ensures
            r == match self {
                SaveError::InvalidDestination { path } => path,
                SaveError::TemporaryCreate { destination, .. } => destination,
                SaveError::TemporaryWrite { destination, .. } => destination,
                SaveError::DestinationMissing { path } => path,
                SaveError::Publish { path, .. } => path,
            },
    {
        match self {
            SaveError::InvalidDestination { path } => path,
            SaveError::TemporaryCreate { destination, .. } => destination,
            SaveError::TemporaryWrite { destination, .. } => destination,
            SaveError::DestinationMissing { path } => path,
            SaveError::Publish { path, .. } => path,
        }
    }
}

} // verus!
