//! The installation analyzer: classifies a freshly extracted archive.
//!
//! Given the library entry's directory tree, the scanner's candidates decide
//! the disposition, in priority order: several candidates ask the user to
//! choose among them; exactly one is installed automatically, flattened; none
//! falls back to asking among the raw top-level folders when there are
//! several of those; otherwise everything is installed as-is.

use vstd::prelude::*;
use crate::fstree::DirTree;
use crate::scan::spec_scan_results;
use crate::scan::scan_tree;

verus! {

/// What is to be done with an extracted archive.
#[derive(Debug)]
pub enum Disposition {
    /// Several ways to install: the user must pick among `candidates`
    /// (scanner results, or raw top-level folder names for the fallback);
    /// deployment then proceeds with the selection and `flatten`.
    NeedsSelection { candidates: Vec<String>, flatten: bool },
    /// Exactly one recognized mod root: deploy it at once, flattened.
    AutoInstallFlatten { candidate: String },
    /// Nothing recognized and no choice to make: deploy every top-level
    /// folder as named.
    InstallAll,
}

/// Classifies the library entry tree `t` per the decision table.
pub fn analyze(t: &DirTree) -> (r: Disposition)
    ensures
        spec_scan_results(*t).len() > 1 ==> (r matches Disposition::NeedsSelection {
            candidates,
            flatten,
        } && candidates.deep_view() == spec_scan_results(*t) && flatten == true),
        spec_scan_results(*t).len() == 1 ==> (r matches Disposition::AutoInstallFlatten {
            candidate,
        } && candidate@ == spec_scan_results(*t)[0]),
        spec_scan_results(*t).len() == 0 && t.dirs@.len() > 1 ==> (r
            matches Disposition::NeedsSelection { candidates, flatten } && candidates@.len()
            == t.dirs@.len() && (forall|i: int|
            0 <= i < t.dirs@.len() ==> candidates.deep_view()[i] == t.dirs@[i].name@) && flatten
            == false),
        spec_scan_results(*t).len() == 0 && t.dirs@.len() <= 1 ==> (r
            matches Disposition::InstallAll),
{
    let candidates = scan_tree(t);
    if candidates.len() > 1 {
        return Disposition::NeedsSelection { candidates, flatten: true };
    }
    if candidates.len() == 1 {
        let mut candidates = candidates;
        let candidate = candidates.pop().unwrap();
        return Disposition::AutoInstallFlatten { candidate };
    }
    let top = t.top_dir_names();
    if top.len() > 1 {
        return Disposition::NeedsSelection { candidates: top, flatten: false };
    }
    Disposition::InstallAll
}

} // verus!
