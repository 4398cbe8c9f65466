//! The error taxonomy surfaced by the library manager. Each variant carries
//! its human-readable cause; callers receive one tagged error with one
//! reported cause at the boundary.

use vstd::prelude::*;
use crate::text::str_concat;

verus! {

/// Everything the library manager can fail with.
#[derive(Debug)]
pub enum LibraryManagerError {
    /// File I/O failed; carries the affected path and cause.
    FileIO(String),
    /// Serializing or deserializing a config file failed.
    Json(String),
    /// A database query failed.
    Database(String),
    /// No loaded library has the requested id.
    LibraryNotFound,
    /// Migrating the config file failed.
    Migration(String),
    /// A stored id could not be parsed.
    Uuid(String),
    /// Seeding a fresh database failed.
    Seeder(String),
    /// The key manager could not be initialised.
    KeyManager(String),
    /// Running library migrations failed.
    MigratorError(String),
    /// Migrating the library database failed.
    MigrationError(String),
    /// The given configuration is invalid (user input).
    InvalidConfig(String),
    /// A path was not valid UTF-8.
    NonUtf8Path(String),
    /// Registering a location with the watch manager failed.
    LocationWatcher(String),
}

/// The human-readable message of each variant.
pub open spec fn spec_error_message(e: LibraryManagerError) -> Seq<char> {
    match e {
        LibraryManagerError::FileIO(p) => "file I/O error: "@ + p@,
        LibraryManagerError::Json(c) => "error serializing or deserializing the JSON in the config file: "@ + c@,
        LibraryManagerError::Database(c) => "database error: "@ + c@,
        LibraryManagerError::LibraryNotFound => "library not found error"@,
        LibraryManagerError::Migration(c) => "error migrating the config file: "@ + c@,
        LibraryManagerError::Uuid(c) => "failed to parse uuid: "@ + c@,
        LibraryManagerError::Seeder(c) => "failed to run seeder: "@ + c@,
        LibraryManagerError::KeyManager(c) => "failed to initialise the key manager: "@ + c@,
        LibraryManagerError::MigratorError(c) => "failed to run library migrations: "@ + c@,
        LibraryManagerError::MigrationError(c) => "error migrating the library: "@ + c@,
        LibraryManagerError::InvalidConfig(c) => "invalid library configuration: "@ + c@,
        LibraryManagerError::NonUtf8Path(p) => "non-UTF-8 path: "@ + p@,
        LibraryManagerError::LocationWatcher(c) => "failed to watch locations: "@ + c@,
    }
}

impl LibraryManagerError {
    /// One tag plus one cause, collapsed to a single string for the caller.
    pub fn message(&self) -> (r: String)
        ensures
            r@ == spec_error_message(*self),
    {
        match self {
            LibraryManagerError::FileIO(p) => str_concat("file I/O error: ", p.as_str()),
            LibraryManagerError::Json(c) => str_concat(
                "error serializing or deserializing the JSON in the config file: ",
                c.as_str(),
            ),
            LibraryManagerError::Database(c) => str_concat("database error: ", c.as_str()),
            LibraryManagerError::LibraryNotFound => {
                let mut r = String::new();
                r.append("library not found error");
                r
            },
            LibraryManagerError::Migration(c) => str_concat(
                "error migrating the config file: ",
                c.as_str(),
            ),
            LibraryManagerError::Uuid(c) => str_concat("failed to parse uuid: ", c.as_str()),
            LibraryManagerError::Seeder(c) => str_concat("failed to run seeder: ", c.as_str()),
            LibraryManagerError::KeyManager(c) => str_concat(
                "failed to initialise the key manager: ",
                c.as_str(),
            ),
            LibraryManagerError::MigratorError(c) => str_concat(
                "failed to run library migrations: ",
                c.as_str(),
            ),
            LibraryManagerError::MigrationError(c) => str_concat(
                "error migrating the library: ",
                c.as_str(),
            ),
            LibraryManagerError::InvalidConfig(c) => str_concat(
                "invalid library configuration: ",
                c.as_str(),
            ),
            LibraryManagerError::NonUtf8Path(p) => str_concat("non-UTF-8 path: ", p.as_str()),
            LibraryManagerError::LocationWatcher(c) => str_concat(
                "failed to watch locations: ",
                c.as_str(),
            ),
        }
    }
}

} // verus!
