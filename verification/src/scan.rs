//! The structure scanner: finds "mod root" directories inside an extracted
//! archive.
//!
//! A directory is a mod root when one of its immediate child directories has
//! a recognized game-data folder name, or one of its immediate files has a
//! recognized game-data extension (both case-insensitively). Scanning is
//! greedy and shallow-first: the first self-sufficient ancestor wins and the
//! scan never descends below it; sibling branches contribute independently.

use vstd::prelude::*;
use crate::fstree::DirTree;
use crate::text::spec_eq_ci;
use crate::text::spec_extension;
use crate::text::spec_child_rel;
use crate::text::eq_ignore_case;
use crate::text::extension_of;
use crate::text::child_rel;

verus! {

/// Whether `name` is one of the game-data folder names the game expects at
/// the top level of a mod.
pub open spec fn spec_is_game_folder(name: Seq<char>) -> bool {
    ||| spec_eq_ci(name, "AUDIO"@)
    ||| spec_eq_ci(name, "FONTS"@)
    ||| spec_eq_ci(name, "GLOBALS"@)
    ||| spec_eq_ci(name, "INPUT"@)
    ||| spec_eq_ci(name, "LANGUAGE"@)
    ||| spec_eq_ci(name, "MATERIALS"@)
    ||| spec_eq_ci(name, "METADATA"@)
    ||| spec_eq_ci(name, "MODELS"@)
    ||| spec_eq_ci(name, "MUSIC"@)
    ||| spec_eq_ci(name, "PIPELINES"@)
    ||| spec_eq_ci(name, "SCENES"@)
    ||| spec_eq_ci(name, "SHADERS"@)
    ||| spec_eq_ci(name, "TEXTURES"@)
    ||| spec_eq_ci(name, "TPFSDICT"@)
    ||| spec_eq_ci(name, "UI"@)
}

pub fn is_game_folder(name: &str) -> (r: bool)
    ensures
        r == spec_is_game_folder(name@),
{
    ||| eq_ignore_case(name, "AUDIO")
    ||| eq_ignore_case(name, "FONTS")
    ||| eq_ignore_case(name, "GLOBALS")
    ||| eq_ignore_case(name, "INPUT")
    ||| eq_ignore_case(name, "LANGUAGE")
    ||| eq_ignore_case(name, "MATERIALS")
    ||| eq_ignore_case(name, "METADATA")
    ||| eq_ignore_case(name, "MODELS")
    ||| eq_ignore_case(name, "MUSIC")
    ||| eq_ignore_case(name, "PIPELINES")
    ||| eq_ignore_case(name, "SCENES")
    ||| eq_ignore_case(name, "SHADERS")
    ||| eq_ignore_case(name, "TEXTURES")
    ||| eq_ignore_case(name, "TPFSDICT")
    ||| eq_ignore_case(name, "UI")
}

/// Whether a file name carries one of the recognized game-data extensions.
pub open spec fn spec_has_game_ext(file: Seq<char>) -> bool {
    match spec_extension(file) {
        Some(e) => {
            ||| spec_eq_ci(e, "exml"@)
            ||| spec_eq_ci(e, "mbin"@)
            ||| spec_eq_ci(e, "dds"@)
            ||| spec_eq_ci(e, "mxml"@)
        },
        None => false,
    }
}

pub fn has_game_ext(file: &str) -> (r: bool)
    ensures
        r == spec_has_game_ext(file@),
{
    match extension_of(file) {
        Some(e) => {
            ||| eq_ignore_case(e.as_str(), "exml")
            ||| eq_ignore_case(e.as_str(), "mbin")
            ||| eq_ignore_case(e.as_str(), "dds")
            ||| eq_ignore_case(e.as_str(), "mxml")
        },
        None => false,
    }
}

/// A directory is a mod root when an immediate child directory has a
/// game-data name, or an immediate file has a game-data extension.
pub open spec fn spec_is_mod_root(t: DirTree) -> bool {
    ||| exists|i: int| 0 <= i < t.dirs@.len() && spec_is_game_folder(#[trigger] t.dirs@[i].name@)
    ||| exists|i: int| 0 <= i < t.files@.len() && spec_has_game_ext(#[trigger] t.files@[i]@)
}

pub fn is_mod_root(t: &DirTree) -> (r: bool)
    ensures
        r == spec_is_mod_root(*t),
{
    let mut i: usize = 0;
    while i < t.dirs.len()
        invariant
            i <= t.dirs@.len(),
            forall|j: int| 0 <= j < i ==> !spec_is_game_folder(#[trigger] t.dirs@[j].name@),
        decreases t.dirs@.len() - i,
    {
        if is_game_folder(t.dirs[i].name.as_str()) {
            return true;
        }
        i = i + 1;
    }
    let mut k: usize = 0;
    while k < t.files.len()
        invariant
            k <= t.files@.len(),
            forall|j: int| 0 <= j < i ==> !spec_is_game_folder(#[trigger] t.dirs@[j].name@),
            i >= t.dirs@.len(),
            forall|j: int| 0 <= j < k ==> !spec_has_game_ext(#[trigger] t.files@[j]@),
        decreases t.files@.len() - k,
    {
        if has_game_ext(t.files[k].as_str()) {
            return true;
        }
        k = k + 1;
    }
    false
}

/// The path a candidate is reported under: `.` for the scan root itself,
/// otherwise the relative path that was accumulated down to it.
pub open spec fn spec_display_rel(rel: Seq<char>) -> Seq<char> {
    if rel.len() == 0 {
        seq!['.']
    } else {
        rel
    }
}

/// The candidates below `t`, which is reached by the relative path `rel`:
/// `t`'s own path when `t` is a mod root (the scan stops there), else the
/// concatenation of the children's candidates in order.
pub open spec fn spec_scan(t: DirTree, rel: Seq<char>) -> Seq<Seq<char>>
    decreases t, 1int,
{
    if spec_is_mod_root(t) {
        seq![spec_display_rel(rel)]
    } else {
        spec_scan_children(t, rel, 0)
    }
}

pub open spec fn spec_scan_children(t: DirTree, rel: Seq<char>, i: int) -> Seq<Seq<char>>
    decreases t, 0int, t.dirs@.len() - i,
{
    if i < 0 || i >= t.dirs@.len() {
        Seq::empty()
    } else {
        spec_scan(t.dirs@[i], spec_child_rel(rel, t.dirs@[i].name@)) + spec_scan_children(
            t,
            rel,
            i + 1,
        )
    }
}

/// The candidates of a whole tree, relative to its root.
pub open spec fn spec_scan_results(t: DirTree) -> Seq<Seq<char>> {
    spec_scan(t, Seq::empty())
}

fn scan_at(t: &DirTree, rel: &str) -> (r: Vec<String>)
    ensures
        r.deep_view() == spec_scan(*t, rel@),
    decreases *t,
{
    let mut out: Vec<String> = Vec::new();
    if is_mod_root(t) {
        if rel.unicode_len() == 0 {
            proof {
                reveal_strlit(".");
            }
            let dot: &str = ".";
            out.push(dot.to_owned());
            assert(out.deep_view() =~~= seq![spec_display_rel(rel@)]);
        } else {
            out.push(rel.to_owned());
            assert(out.deep_view() =~~= seq![spec_display_rel(rel@)]);
        }
        return out;
    }
    let mut i: usize = 0;
    while i < t.dirs.len()
        invariant
            i <= t.dirs@.len(),
            !spec_is_mod_root(*t),
            out.deep_view() + spec_scan_children(*t, rel@, i as int) == spec_scan(*t, rel@),
        decreases t.dirs@.len() - i,
    {
        let ghost prev = out.deep_view();
        let crel = child_rel(rel, t.dirs[i].name.as_str());
        let mut sub = scan_at(&t.dirs[i], crel.as_str());
        let ghost subv = sub.deep_view();
        out.append(&mut sub);
        proof {
            assert(out.deep_view() =~= prev + subv);
            assert(prev + (subv + spec_scan_children(*t, rel@, i + 1)) =~= (prev + subv)
                + spec_scan_children(*t, rel@, i + 1));
        }
        i = i + 1;
    }
    assert(out.deep_view() =~= out.deep_view() + spec_scan_children(*t, rel@, i as int));
    out
}

/// Scans a tree for installable mod roots; the results are relative paths
/// below the root, `.` standing for the root itself.
pub fn scan_tree(t: &DirTree) -> (r: Vec<String>)
    ensures
        r.deep_view() == spec_scan_results(*t),
{
    let empty: &str = "";
    proof {
        reveal_strlit("");
        assert(empty@ =~= Seq::<char>::empty());
    }
    scan_at(t, empty)
}

/// The scan never descends below a mod root: a tree whose root is
/// self-sufficient reports exactly its own path, whatever lies deeper.
pub proof fn lemma_scan_stops_at_mod_root(t: DirTree, rel: Seq<char>)
    requires
        spec_is_mod_root(t),
    ensures
        spec_scan(t, rel) == seq![spec_display_rel(rel)],
{
}

} // verus!
