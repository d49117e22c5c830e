//! Archive-format dispatch and extraction progress.
//!
//! Extraction itself is delegated to format-specific decompressors outside
//! this crate; what is decided here is which of the three container formats
//! an archive name selects — by its extension, case-insensitively — and what
//! fraction of the work a flat-listing extractor has completed.

use vstd::prelude::*;
use crate::EngineError;
use crate::text::spec_extension;
use crate::text::spec_eq_ci;
use crate::text::eq_ignore_case;
use crate::text::extension_of;

verus! {

/// The three supported container formats: the flat-listing format (an entry
/// table with per-entry progress), the header-stream format (entries read
/// one header at a time), and the solid-block format (one blocking
/// decompression call).
#[derive(Debug, Clone, Copy, PartialEq, Eq, Structural)]
pub enum ArchiveFormat {
    Zip,
    Rar,
    SevenZ,
}

/// The format an archive file name selects, by extension.
pub open spec fn spec_format_of(name: Seq<char>) -> Option<ArchiveFormat> {
    match spec_extension(name) {
        None => None,
        Some(e) => if spec_eq_ci(e, "zip"@) {
            Some(ArchiveFormat::Zip)
        } else if spec_eq_ci(e, "rar"@) {
            Some(ArchiveFormat::Rar)
        } else if spec_eq_ci(e, "7z"@) {
            Some(ArchiveFormat::SevenZ)
        } else {
            None
        },
    }
}

/// Dispatches on the archive extension. A name without a recognized
/// extension is rejected as unsupported, the error carrying the extension
/// it found (empty when the name has none at all).
pub fn archive_format_of(name: &str) -> (r: Result<ArchiveFormat, EngineError>)
    ensures
        match r {
            Ok(f) => spec_format_of(name@) == Some(f),
            Err(e) => spec_format_of(name@) is None && (e matches EngineError::UnsupportedFormat(s)
                && s@ == match spec_extension(name@) {
                Some(ext) => ext,
                None => Seq::<char>::empty(),
            }),
        },
{
    match extension_of(name) {
        Some(ext) => {
            if eq_ignore_case(ext.as_str(), "zip") {
                Ok(ArchiveFormat::Zip)
            } else if eq_ignore_case(ext.as_str(), "rar") {
                Ok(ArchiveFormat::Rar)
            } else if eq_ignore_case(ext.as_str(), "7z") {
                Ok(ArchiveFormat::SevenZ)
            } else {
                Err(EngineError::UnsupportedFormat(ext))
            }
        },
        None => Err(EngineError::UnsupportedFormat(String::new())),
    }
}

/// Per-entry progress of the flat-listing extractor, in whole percent:
/// `(completed * 100) / total`.
pub fn zip_progress(completed: usize, total: usize) -> (r: u64)
    requires
        0 < total <= 0xFFFF_FFFF,
        completed <= total,
    ensures
        r == (completed * 100) / (total as int),
        r <= 100,
{
    let r = (completed as u64 * 100) / (total as u64);
    proof {
        assert((completed * 100) / (total as int) <= 100) by (nonlinear_arith)
            requires
                0 < total,
                completed <= total,
        ;
    }
    r
}

} // verus!
