//! The minimal priority-list document.
//!
//! When a profile has no saved copy of the priority-list file — a fresh
//! default profile — the file is written from this template rather than
//! recomputed: the fixed declaration, the document shell, and an empty
//! entry container, with the format's 2-space indentation and self-closing
//! tag spacing.

use vstd::prelude::*;

verus! {

/// The text of the minimal priority-list document, with the given global
/// disable flag and no entries.
pub open spec fn spec_settings_template(disable_all: bool) -> Seq<char> {
    "<?xml version=\"1.0\" encoding=\"utf-8\"?>\n<Data template=\"GcModSettings\">\n  <Property name=\"DisableAllMods\" value=\""@
        + (if disable_all {
        "true"@
    } else {
        "false"@
    }) + "\" />\n  <Property name=\"Data\">\n  </Property>\n</Data>"@
}

/// Renders the minimal priority-list document.
pub fn settings_template(disable_all: bool) -> (r: String)
    ensures
        r@ == spec_settings_template(disable_all),
{
    let mut s =
        "<?xml version=\"1.0\" encoding=\"utf-8\"?>\n<Data template=\"GcModSettings\">\n  <Property name=\"DisableAllMods\" value=\"".to_owned();
    if disable_all {
        s.append("true");
    } else {
        s.append("false");
    }
    s.append("\" />\n  <Property name=\"Data\">\n  </Property>\n</Data>");
    assert(s@ =~= spec_settings_template(disable_all));
    s
}

} // verus!
