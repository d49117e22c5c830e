//! The library store: one persistent extracted copy per distinct archive.
//!
//! An entry is a directory named deterministically from the archive's
//! filename; its presence is the idempotency flag. The store here is the
//! model of that directory's contents — the set of entry names present — and
//! `ensure_extracted` is the decision step: it reports whether the caller
//! must actually run the extractor, and it never asks for the same archive
//! twice.

use vstd::prelude::*;
use crate::text::spec_contains_ci;
use crate::text::spec_eq_ci;
use crate::text::contains_ci;

verus! {

/// The deterministic entry name for an archive filename.
pub open spec fn spec_entry_name(filename: Seq<char>) -> Seq<char> {
    filename + "_unpacked"@
}

/// Builds `<filename>_unpacked`.
pub fn entry_name_for(filename: &str) -> (r: String)
    ensures
        r@ == spec_entry_name(filename@),
{
    filename.to_owned().concat("_unpacked")
}

/// What one `ensure_extracted` step does to the set of entry names: nothing
/// when the entry is already present, else the entry is added — and the flag
/// says whether extraction work is owed.
pub open spec fn spec_ensure(entries: Seq<Seq<char>>, entry: Seq<char>) -> (Seq<Seq<char>>, bool) {
    if spec_contains_ci(entries, entry) {
        (entries, false)
    } else {
        (entries.push(entry), true)
    }
}

/// The model of the library directory: the entry names it holds.
#[derive(Debug)]
pub struct Library {
    pub entries: Vec<String>,
}

impl Library {
    /// Whether an entry of this name (case-insensitively) is present.
    pub open spec fn spec_has(self, entry: Seq<char>) -> bool {
        spec_contains_ci(self.entries.deep_view(), entry)
    }

    pub fn new() -> (r: Library)
        ensures
            r.entries@.len() == 0,
    {
        Library { entries: Vec::new() }
    }

    pub fn has_entry(&self, entry: &str) -> (r: bool)
        ensures
            r == self.spec_has(entry@),
    {
        contains_ci(&self.entries, entry)
    }

    /// The idempotent extraction step. Returns the entry name for the
    /// archive and whether extraction must actually be performed: extraction
    /// is owed exactly when no entry of that name was present, and afterwards
    /// the entry is always present.
    pub fn ensure_extracted(&mut self, archive_filename: &str) -> (r: (String, bool))
        ensures
            r.0@ == spec_entry_name(archive_filename@),
            (final(self).entries.deep_view(), r.1) == spec_ensure(
                old(self).entries.deep_view(),
                spec_entry_name(archive_filename@),
            ),
            final(self).spec_has(spec_entry_name(archive_filename@)),
    {
        let name = entry_name_for(archive_filename);
        if self.has_entry(name.as_str()) {
            return (name, false);
        }
        let ghost prev = self.entries.deep_view();
        self.entries.push(name.clone());
        proof {
            assert(self.entries.deep_view() =~~= prev.push(name@));
            let i = self.entries.deep_view().len() - 1;
            assert(spec_eq_ci(self.entries.deep_view()[i], spec_entry_name(archive_filename@)));
        }
        (name, true)
    }
}

/// Running the extraction step twice for the same archive performs the work
/// at most once: whatever the starting state, the second step finds the entry
/// present, reports no extraction owed, and leaves the store unchanged.
pub proof fn lemma_ensure_extracted_idempotent(entries: Seq<Seq<char>>, entry: Seq<char>)
    ensures
        spec_ensure(spec_ensure(entries, entry).0, entry).1 == false,
        spec_ensure(spec_ensure(entries, entry).0, entry).0 == spec_ensure(entries, entry).0,
{
    let after = spec_ensure(entries, entry).0;
    if spec_contains_ci(entries, entry) {
        assert(spec_contains_ci(after, entry));
    } else {
        let i = after.len() - 1;
        assert(spec_eq_ci(after[i], entry));
        assert(spec_contains_ci(after, entry));
    }
}

} // verus!
