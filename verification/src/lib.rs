//! Core engine of a game mod manager: archive-format dispatch, mod-structure
//! scanning, an idempotent extraction library, installation analysis and
//! deployment planning, conflict resolution, priority-list reconciliation and
//! profile snapshots — all modelled over plain data and verified.
//!
//! Filesystem, network and UI work lives outside this crate; callers read
//! directory trees and documents into the model types here, run the verified
//! logic, and carry the results back out.

use vstd::prelude::*;

pub mod analyzer;
pub mod conflict;
pub mod deploy;
pub mod extract;
pub mod fstree;
pub mod hashing;
pub mod library;
pub mod listing;
pub mod migrate;
pub mod mxml;
pub mod profile;
pub mod scan;
pub mod settings;
pub mod text;

verus! {

/// The error taxonomy of the engine. A naming conflict is not an error: it is
/// surfaced as data (see the deployment module).
#[derive(Debug, Clone)]
pub enum EngineError {
    /// A required path, entry or profile is absent.
    NotFound(String),
    /// An archive extension outside the three supported container formats.
    UnsupportedFormat(String),
    /// A copy, move or write failed.
    Io(String),
    /// A document (priority list, sidecar descriptor) could not be read.
    Parse(String),
}

impl EngineError {
    /// A single user-visible message per failure, the policy of the whole
    /// engine: a short kind, then the detail.
    pub fn message(&self) -> (r: String)
        ensures
            match self {
                EngineError::NotFound(s) => r@ == "not found: "@ + s@,
                EngineError::UnsupportedFormat(s) => r@ == "unsupported archive format: "@ + s@,
                EngineError::Io(s) => r@ == "i/o failure: "@ + s@,
                EngineError::Parse(s) => r@ == "parse failure: "@ + s@,
            },
    {
        match self {
            EngineError::NotFound(s) => "not found: ".to_owned().concat(s.as_str()),
            EngineError::UnsupportedFormat(s) => "unsupported archive format: ".to_owned().concat(
                s.as_str(),
            ),
            EngineError::Io(s) => "i/o failure: ".to_owned().concat(s.as_str()),
            EngineError::Parse(s) => "parse failure: ".to_owned().concat(s.as_str()),
        }
    }
}

} // verus!
