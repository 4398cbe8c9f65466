//! Startup initialisation from a declarative description: the libraries and
//! locations a node should begin with. The driver reads the description
//! file and runs the loop; the decisions on what each entry means are
//! verified here.

use vstd::prelude::*;
use crate::config::LibraryConfig;
use crate::error::LibraryManagerError;

verus! {

/// One location to create and scan at startup.
#[derive(Debug)]
pub struct LocationInitConfig {
    pub path: String,
}

/// One library to ensure exists at startup.
#[derive(Debug)]
pub struct LibraryInitConfig {
    pub id: u128,
    pub name: String,
    pub description: Option<String>,
    pub reset_locations_on_startup: bool,
    pub locations: Vec<LocationInitConfig>,
}

/// The whole startup description, with the path it was read from.
#[derive(Debug)]
pub struct InitConfig {
    pub reset_on_startup: bool,
    pub libraries: Vec<LibraryInitConfig>,
    pub path: String,
}

/// What applying a startup description can fail with.
#[derive(Debug)]
pub enum InitConfigError {
    /// Reading the description or touching the filesystem failed.
    Io(String),
    /// Parsing the description failed.
    Json(String),
    /// The job engine failed while scanning a created location.
    JobManager(String),
    /// The location-watch manager refused a location.
    LocationManager(String),
    /// The library manager failed.
    LibraryManager(LibraryManagerError),
    /// A database query failed.
    QueryError(String),
    /// Creating a location failed.
    LocationError(String),
}

impl InitConfig {
    /// Whether the existing data directory must be wiped before applying
    /// the description: only when the description asks for a reset and the
    /// directory exists.
    pub fn should_reset_data_dir(&self, data_dir_exists: bool) -> (r: bool)
        ensures
            r == (self.reset_on_startup && data_dir_exists),
    {
        self.reset_on_startup && data_dir_exists
    }
}

impl LibraryInitConfig {
    /// The config a library described here is created with: the given name,
    /// and an empty description when none is given.
    pub fn initial_library_config(&self) -> (r: LibraryConfig)
        ensures
            r.name@ == self.name@,
            r.description@ == (match self.description {
                Some(d) => d@,
                None => ""@,
            }),
    {
        let description = match &self.description {
            Some(d) => d.clone(),
            None => String::new(),
        };
        proof {
            reveal_strlit("");
            if self.description is None {
                assert(description@ =~= ""@);
            }
        }
        LibraryConfig { name: self.name.clone(), description }
    }
}

} // verus!
