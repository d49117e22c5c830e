//! The profile manager: snapshots the installed mod set and replays it.
//!
//! Saving groups the installed folders by the archive named in their sidecar
//! (`install_source`), one profile entry per distinct archive in order of
//! first appearance; folders without a non-empty source are untracked and
//! stay out of the profile. Applying replays the profile over extracted
//! archive trees: each recorded folder that the archive's tree still holds
//! is installed under its recorded name with a fresh sidecar, later entries
//! overwriting like-named earlier ones. The priority-list file is copied out
//! verbatim at save and restored verbatim at apply; it is not recomputed.

use vstd::prelude::*;
use crate::fstree::DirTree;
use crate::fstree::ModInfo;
use crate::fstree::spec_find_tree;
use crate::text::spec_eq_ci;
use crate::text::spec_lex_le;
use crate::text::eq_ignore_case;
use crate::text::lemma_lex_total;
use crate::text::lemma_lex_trans;
use crate::text::str_eq;
use crate::text::str_le;

verus! {

/// One installed mod folder: its name and its parsed sidecar, if any.
#[derive(Debug)]
pub struct InstalledFolder {
    pub name: String,
    pub info: Option<ModInfo>,
}

/// One profile record: the origin archive, its content hash, sampled
/// external identifiers, and the folder names installed from it.
#[derive(Debug)]
pub struct ProfileEntry {
    pub filename: String,
    pub hash: String,
    pub mod_id: Option<String>,
    pub file_id: Option<String>,
    pub version: Option<String>,
    pub installed_options: Option<Vec<String>>,
}

/// A named, restorable snapshot of the installed mod set.
#[derive(Debug)]
pub struct Profile {
    pub name: String,
    pub mods: Vec<ProfileEntry>,
}

/// A folder is tracked when its sidecar names a non-empty origin archive.
pub open spec fn spec_tracked(f: InstalledFolder) -> bool {
    match f.info {
        Some(info) => match info.install_source {
            Some(s) => s@.len() > 0,
            None => false,
        },
        None => false,
    }
}

/// The origin archive of a tracked folder.
pub open spec fn spec_source(f: InstalledFolder) -> Seq<char> {
    f.info->0.install_source->0@
}

/// Whether `sources` already holds the archive name `s`.
pub open spec fn spec_has_source(sources: Seq<String>, s: Seq<char>) -> bool {
    exists|j: int| 0 <= j < sources.len() && (#[trigger] sources[j])@ == s
}

/// The distinct origin archives of the first `i` folders, in order of first
/// appearance.
pub open spec fn spec_sources_upto(installed: Seq<InstalledFolder>, i: int) -> Seq<String>
    decreases i,
{
    if i <= 0 || i > installed.len() {
        Seq::empty()
    } else {
        let prev = spec_sources_upto(installed, i - 1);
        if spec_tracked(installed[i - 1]) && !spec_has_source(prev, spec_source(installed[i - 1])) {
            prev.push(installed[i - 1].info->0.install_source->0)
        } else {
            prev
        }
    }
}

pub open spec fn spec_sources(installed: Seq<InstalledFolder>) -> Seq<String> {
    spec_sources_upto(installed, installed.len() as int)
}

/// The names of the first `i` folders whose origin archive is `s`, in order.
pub open spec fn spec_group_upto(installed: Seq<InstalledFolder>, s: Seq<char>, i: int) -> Seq<
    String,
>
    decreases i,
{
    if i <= 0 || i > installed.len() {
        Seq::empty()
    } else {
        let prev = spec_group_upto(installed, s, i - 1);
        if spec_tracked(installed[i - 1]) && spec_source(installed[i - 1]) == s {
            prev.push(installed[i - 1].name)
        } else {
            prev
        }
    }
}

pub open spec fn spec_group(installed: Seq<InstalledFolder>, s: Seq<char>) -> Seq<String> {
    spec_group_upto(installed, s, installed.len() as int)
}

/// The first folder whose origin archive is `s`.
pub open spec fn spec_first_with_source_from(
    installed: Seq<InstalledFolder>,
    s: Seq<char>,
    i: int,
) -> Option<ModInfo>
    decreases installed.len() - i,
{
    if i < 0 || i >= installed.len() {
        None
    } else if spec_tracked(installed[i]) && spec_source(installed[i]) == s {
        Some(installed[i].info->0)
    } else {
        spec_first_with_source_from(installed, s, i + 1)
    }
}

pub open spec fn spec_first_with_source(installed: Seq<InstalledFolder>, s: Seq<char>) -> Option<
    ModInfo,
> {
    spec_first_with_source_from(installed, s, 0)
}

/// The recorded hash for an archive: the first entry of `hashes` naming it,
/// or `MISSING_FILE` when none does.
pub open spec fn spec_hash_for_from(hashes: Seq<(String, String)>, f: Seq<char>, i: int) -> Option<
    String,
>
    decreases hashes.len() - i,
{
    if i < 0 || i >= hashes.len() {
        None
    } else if hashes[i].0@ == f {
        Some(hashes[i].1)
    } else {
        spec_hash_for_from(hashes, f, i + 1)
    }
}

pub open spec fn spec_hash_for(hashes: Seq<(String, String)>, f: Seq<char>) -> Option<String> {
    spec_hash_for_from(hashes, f, 0)
}

/// What one saved entry must hold for the archive `src`.
pub open spec fn spec_entry_for(
    installed: Seq<InstalledFolder>,
    hashes: Seq<(String, String)>,
    src: String,
    e: ProfileEntry,
) -> bool {
    &&& e.filename == src
    &&& match spec_hash_for(hashes, src@) {
        Some(h) => e.hash == h,
        None => e.hash@ == "MISSING_FILE"@,
    }
    &&& match spec_first_with_source(installed, src@) {
        Some(info) => e.mod_id == info.mod_id && e.file_id == info.file_id && e.version
            == info.version,
        None => e.mod_id is None && e.file_id is None && e.version is None,
    }
    &&& e.installed_options matches Some(opts) && opts@ == spec_group(installed, src@)
}

fn tracked_source(f: &InstalledFolder) -> (r: Option<String>)
    ensures
        match r {
            Some(s) => spec_tracked(*f) && s == f.info->0.install_source->0,
            None => !spec_tracked(*f),
        },
{
    match &f.info {
        Some(info) => match &info.install_source {
            Some(s) => {
                if s.unicode_len() > 0 {
                    Some(s.clone())
                } else {
                    None
                }
            },
            None => None,
        },
        None => None,
    }
}

fn has_source(sources: &Vec<String>, s: &str) -> (r: bool)
    ensures
        r == spec_has_source(sources@, s@),
{
    let mut j: usize = 0;
    while j < sources.len()
        invariant
            j <= sources@.len(),
            forall|k: int| 0 <= k < j ==> (#[trigger] sources@[k])@ != s@,
        decreases sources@.len() - j,
    {
        if str_eq(sources[j].as_str(), s) {
            return true;
        }
        j = j + 1;
    }
    false
}

/// The distinct origin archives of the installed folders, in order of first
/// appearance.
fn collect_sources(installed: &Vec<InstalledFolder>) -> (r: Vec<String>)
    ensures
        r@ == spec_sources(installed@),
{
    let mut sources: Vec<String> = Vec::new();
    let mut i: usize = 0;
    while i < installed.len()
        invariant
            i <= installed@.len(),
            sources@ == spec_sources_upto(installed@, i as int),
        decreases installed@.len() - i,
    {
        match tracked_source(&installed[i]) {
            Some(s) => {
                if !has_source(&sources, s.as_str()) {
                    sources.push(s);
                }
            },
            None => {},
        }
        i = i + 1;
    }
    sources
}

/// The names of the installed folders whose origin archive is `s`, in order.
fn collect_group(installed: &Vec<InstalledFolder>, s: &str) -> (r: Vec<String>)
    ensures
        r@ == spec_group(installed@, s@),
{
    let mut names: Vec<String> = Vec::new();
    let mut i: usize = 0;
    while i < installed.len()
        invariant
            i <= installed@.len(),
            names@ == spec_group_upto(installed@, s@, i as int),
        decreases installed@.len() - i,
    {
        match tracked_source(&installed[i]) {
            Some(fs) => {
                if str_eq(fs.as_str(), s) {
                    names.push(installed[i].name.clone());
                }
            },
            None => {},
        }
        i = i + 1;
    }
    names
}

/// The sidecar of the first folder whose origin archive is `s`.
fn first_with_source(installed: &Vec<InstalledFolder>, s: &str) -> (r: Option<ModInfo>)
    ensures
        r == spec_first_with_source(installed@, s@),
{
    let mut i: usize = 0;
    while i < installed.len()
        invariant
            i <= installed@.len(),
            spec_first_with_source(installed@, s@) == spec_first_with_source_from(
                installed@,
                s@,
                i as int,
            ),
        decreases installed@.len() - i,
    {
        match tracked_source(&installed[i]) {
            Some(fs) => {
                if str_eq(fs.as_str(), s) {
                    match &installed[i].info {
                        Some(info) => {
                            return Some(info.duplicate());
                        },
                        None => {
                            proof {
                                assert(false);
                            }
                        },
                    }
                }
            },
            None => {},
        }
        i = i + 1;
    }
    None
}

fn hash_for(hashes: &Vec<(String, String)>, f: &str) -> (r: String)
    ensures
        match spec_hash_for(hashes@, f@) {
            Some(h) => r == h,
            None => r@ == "MISSING_FILE"@,
        },
{
    let mut i: usize = 0;
    while i < hashes.len()
        invariant
            i <= hashes@.len(),
            spec_hash_for(hashes@, f@) == spec_hash_for_from(hashes@, f@, i as int),
        decreases hashes@.len() - i,
    {
        if str_eq(hashes[i].0.as_str(), f) {
            return hashes[i].1.clone();
        }
        i = i + 1;
    }
    let missing: &str = "MISSING_FILE";
    missing.to_owned()
}

/// Snapshots the installed set under `name`: one entry per distinct origin
/// archive, in order of first appearance, carrying that archive's hash (or
/// `MISSING_FILE` when the caller found none), the identifiers sampled from
/// the first folder of the group, and the group's folder names. Untracked
/// folders are excluded. The caller copies the priority-list file beside
/// the profile verbatim.
pub fn save_profile(
    name: &str,
    installed: &Vec<InstalledFolder>,
    hashes: &Vec<(String, String)>,
) -> (r: Profile)
    ensures
        r.name@ == name@,
        r.mods@.len() == spec_sources(installed@).len(),
        forall|k: int|
            0 <= k < r.mods@.len() ==> spec_entry_for(
                installed@,
                hashes@,
                spec_sources(installed@)[k],
                #[trigger] r.mods@[k],
            ),
{
    let sources = collect_sources(installed);
    let mut mods: Vec<ProfileEntry> = Vec::new();
    let mut k: usize = 0;
    while k < sources.len()
        invariant
            k <= sources@.len(),
            sources@ == spec_sources(installed@),
            mods@.len() == k,
            forall|j: int|
                0 <= j < k ==> spec_entry_for(
                    installed@,
                    hashes@,
                    spec_sources(installed@)[j],
                    #[trigger] mods@[j],
                ),
        decreases sources@.len() - k,
    {
        let src = &sources[k];
        let opts = collect_group(installed, src.as_str());
        let sample = first_with_source(installed, src.as_str());
        let (mod_id, file_id, version) = match sample {
            Some(info) => (info.mod_id, info.file_id, info.version),
            None => (None, None, None),
        };
        let entry = ProfileEntry {
            filename: src.clone(),
            hash: hash_for(hashes, src.as_str()),
            mod_id,
            file_id,
            version,
            installed_options: Some(opts),
        };
        mods.push(entry);
        k = k + 1;
    }
    Profile { name: name.to_owned(), mods }
}

/// The folder that applying entry `e` installs under `name`: a fresh
/// sidecar carries the entry's identifiers and its origin archive, so the
/// mod stays tracked after the switch.
pub open spec fn spec_restored(e: ProfileEntry, name: String) -> InstalledFolder {
    InstalledFolder {
        name: name,
        info: Some(
            ModInfo {
                mod_id: e.mod_id,
                file_id: e.file_id,
                version: e.version,
                install_source: Some(e.filename),
            },
        ),
    }
}

/// The installed folders from index `i` on whose names differ from `key`,
/// case-insensitively.
pub open spec fn spec_remove_installed_from(
    acc: Seq<InstalledFolder>,
    key: Seq<char>,
    i: int,
) -> Seq<InstalledFolder>
    decreases acc.len() - i,
{
    if i < 0 || i >= acc.len() {
        Seq::empty()
    } else if spec_eq_ci(acc[i].name@, key) {
        spec_remove_installed_from(acc, key, i + 1)
    } else {
        seq![acc[i]] + spec_remove_installed_from(acc, key, i + 1)
    }
}

pub open spec fn spec_remove_installed(acc: Seq<InstalledFolder>, key: Seq<char>) -> Seq<
    InstalledFolder,
> {
    spec_remove_installed_from(acc, key, 0)
}

/// The installed set after replaying the first `j` recorded folder names of
/// entry `e` over the archive tree `t`: each name the tree still holds
/// replaces any like-named folder, with a fresh sidecar; a name the tree
/// lost is skipped.
pub open spec fn spec_apply_opts(
    acc: Seq<InstalledFolder>,
    e: ProfileEntry,
    t: DirTree,
    j: int,
) -> Seq<InstalledFolder>
    decreases j,
{
    if j <= 0 || !(e.installed_options matches Some(o) && j <= o@.len()) {
        acc
    } else {
        let prev = spec_apply_opts(acc, e, t, j - 1);
        let name = e.installed_options->0@[j - 1];
        if spec_find_tree(t, name@) is Some {
            spec_remove_installed(prev, name@).push(spec_restored(e, name))
        } else {
            prev
        }
    }
}

/// The installed set after replaying the first `j` top-level directories of
/// the archive tree — the fallback for profile records that do not list
/// folder names.
pub open spec fn spec_apply_legacy(
    acc: Seq<InstalledFolder>,
    e: ProfileEntry,
    t: DirTree,
    j: int,
) -> Seq<InstalledFolder>
    decreases j,
{
    if j <= 0 || j > t.dirs@.len() {
        acc
    } else {
        let prev = spec_apply_legacy(acc, e, t, j - 1);
        let name = t.dirs@[j - 1].name;
        spec_remove_installed(prev, name@).push(spec_restored(e, name))
    }
}

/// What one profile entry does to the installed set, given its extracted
/// archive tree.
pub open spec fn spec_apply_entry(
    acc: Seq<InstalledFolder>,
    e: ProfileEntry,
    t: DirTree,
) -> Seq<InstalledFolder> {
    if e.installed_options matches Some(o) && o@.len() > 0 {
        spec_apply_opts(acc, e, t, e.installed_options->0@.len() as int)
    } else {
        spec_apply_legacy(acc, e, t, t.dirs@.len() as int)
    }
}

/// The extracted tree supplied for an archive, if any.
pub open spec fn spec_tree_for_from(
    trees: Seq<(String, DirTree)>,
    f: Seq<char>,
    i: int,
) -> Option<DirTree>
    decreases trees.len() - i,
{
    if i < 0 || i >= trees.len() {
        None
    } else if trees[i].0@ == f {
        Some(trees[i].1)
    } else {
        spec_tree_for_from(trees, f, i + 1)
    }
}

pub open spec fn spec_tree_for(trees: Seq<(String, DirTree)>, f: Seq<char>) -> Option<DirTree> {
    spec_tree_for_from(trees, f, 0)
}

/// The installed set after replaying the first `i` profile entries onto an
/// emptied game directory. An entry whose archive has no extracted tree is
/// skipped; a missing archive is logged by the caller, never fatal.
pub open spec fn spec_apply_upto(
    mods: Seq<ProfileEntry>,
    trees: Seq<(String, DirTree)>,
    i: int,
) -> Seq<InstalledFolder>
    decreases i,
{
    if i <= 0 || i > mods.len() {
        Seq::empty()
    } else {
        let prev = spec_apply_upto(mods, trees, i - 1);
        match spec_tree_for(trees, mods[i - 1].filename@) {
            None => prev,
            Some(t) => spec_apply_entry(prev, mods[i - 1], t),
        }
    }
}

pub open spec fn spec_apply(p: Profile, trees: Seq<(String, DirTree)>) -> Seq<InstalledFolder> {
    spec_apply_upto(p.mods@, trees, p.mods@.len() as int)
}

fn clone_opt_string(s: &Option<String>) -> (r: Option<String>)
    ensures
        r == *s,
{
    match s {
        Some(x) => Some(x.clone()),
        None => None,
    }
}

/// Removes every folder named `key` (case-insensitively) from the set.
fn remove_installed(acc: Vec<InstalledFolder>, key: &str) -> (r: Vec<InstalledFolder>)
    ensures
        r@ == spec_remove_installed(acc@, key@),
{
    let ghost orig = acc@;
    let mut out: Vec<InstalledFolder> = Vec::new();
    let mut i: usize = 0;
    let mut acc = acc;
    while i < acc.len()
        invariant
            i <= acc@.len(),
            orig == acc@,
            out@ + spec_remove_installed_from(orig, key@, i as int) == spec_remove_installed(
                orig,
                key@,
            ),
        decreases acc@.len() - i,
    {
        let ghost prev = out@;
        if !eq_ignore_case(acc[i].name.as_str(), key) {
            let f = InstalledFolder {
                name: acc[i].name.clone(),
                info: match &acc[i].info {
                    Some(info) => Some(info.duplicate()),
                    None => None,
                },
            };
            proof {
                assert(f == orig[i as int]);
            }
            out.push(f);
            proof {
                assert(out@ =~= prev + seq![orig[i as int]]);
                assert(prev + (seq![orig[i as int]] + spec_remove_installed_from(
                    orig,
                    key@,
                    i + 1,
                )) =~= (prev + seq![orig[i as int]]) + spec_remove_installed_from(
                    orig,
                    key@,
                    i + 1,
                ));
            }
        }
        i = i + 1;
    }
    proof {
        assert(out@ =~= out@ + spec_remove_installed_from(orig, key@, i as int));
    }
    out
}

fn tree_for<'a>(trees: &'a Vec<(String, DirTree)>, f: &str) -> (r: Option<&'a DirTree>)
    ensures
        match r {
            Some(t) => spec_tree_for(trees@, f@) == Some(*t),
            None => spec_tree_for(trees@, f@) is None,
        },
{
    let mut i: usize = 0;
    while i < trees.len()
        invariant
            i <= trees@.len(),
            spec_tree_for(trees@, f@) == spec_tree_for_from(trees@, f@, i as int),
        decreases trees@.len() - i,
    {
        if str_eq(trees[i].0.as_str(), f) {
            return Some(&trees[i].1);
        }
        i = i + 1;
    }
    None
}

/// Replays a profile over the extracted trees of its archives, starting
/// from an emptied game directory, and returns the resulting installed set.
/// Entries are replayed in order; recorded folder names (or, for records
/// without them, the archive's top-level directories) are installed under
/// fresh sidecars, later entries overwriting like-named folders.
pub fn apply_plan(profile: &Profile, trees: &Vec<(String, DirTree)>) -> (r: Vec<InstalledFolder>)
    ensures
        r@ == spec_apply(*profile, trees@),
{
    let mut acc: Vec<InstalledFolder> = Vec::new();
    let mut i: usize = 0;
    while i < profile.mods.len()
        invariant
            i <= profile.mods@.len(),
            acc@ == spec_apply_upto(profile.mods@, trees@, i as int),
        decreases profile.mods@.len() - i,
    {
        let e = &profile.mods[i];
        match tree_for(trees, e.filename.as_str()) {
            None => {},
            Some(t) => {
                acc = apply_entry(acc, e, t);
            },
        }
        i = i + 1;
    }
    acc
}

fn apply_entry(acc: Vec<InstalledFolder>, e: &ProfileEntry, t: &DirTree) -> (r: Vec<
    InstalledFolder,
>)
    ensures
        r@ == spec_apply_entry(acc@, *e, *t),
{
    let ghost acc0 = acc@;
    let mut acc = acc;
    let modern = match &e.installed_options {
        Some(o) => o.len() > 0,
        None => false,
    };
    if modern {
        let opts = match &e.installed_options {
            Some(o) => o,
            None => {
                proof {
                    assert(false);
                }
                unreached()
            },
        };
        let mut j: usize = 0;
        while j < opts.len()
            invariant
                j <= opts@.len(),
                e.installed_options is Some,
                opts@ == e.installed_options->0@,
                acc@ == spec_apply_opts(acc0, *e, *t, j as int),
            decreases opts@.len() - j,
        {
            let name = &opts[j];
            if t.find_dir(name.as_str()).is_some() {
                acc = remove_installed(acc, name.as_str());
                let f = InstalledFolder {
                    name: name.clone(),
                    info: Some(
                        ModInfo {
                            mod_id: clone_opt_string(&e.mod_id),
                            file_id: clone_opt_string(&e.file_id),
                            version: clone_opt_string(&e.version),
                            install_source: Some(e.filename.clone()),
                        },
                    ),
                };
                proof {
                    assert(f == spec_restored(*e, opts@[j as int]));
                }
                acc.push(f);
            }
            j = j + 1;
        }
        acc
    } else {
        let mut j: usize = 0;
        while j < t.dirs.len()
            invariant
                j <= t.dirs@.len(),
                acc@ == spec_apply_legacy(acc0, *e, *t, j as int),
                !(e.installed_options matches Some(o) && o@.len() > 0),
            decreases t.dirs@.len() - j,
        {
            let name = &t.dirs[j].name;
            acc = remove_installed(acc, name.as_str());
            let f = InstalledFolder {
                name: name.clone(),
                info: Some(
                    ModInfo {
                        mod_id: clone_opt_string(&e.mod_id),
                        file_id: clone_opt_string(&e.file_id),
                        version: clone_opt_string(&e.version),
                        install_source: Some(e.filename.clone()),
                    },
                ),
            };
            proof {
                assert(f == spec_restored(*e, t.dirs@[j as int].name));
            }
            acc.push(f);
            j = j + 1;
        }
        acc
    }
}

/// Whether any installed folder is untracked — without a sidecar naming a
/// non-empty origin archive — and so would be lost by a profile save.
pub fn has_untracked(installed: &Vec<InstalledFolder>) -> (r: bool)
    ensures
        r == exists|i: int|
            0 <= i < installed@.len() && !spec_tracked(#[trigger] installed@[i]),
{
    let mut i: usize = 0;
    while i < installed.len()
        invariant
            i <= installed@.len(),
            forall|j: int| 0 <= j < i ==> spec_tracked(#[trigger] installed@[j]),
        decreases installed@.len() - i,
    {
        match tracked_source(&installed[i]) {
            Some(_) => {},
            None => {
                assert(!spec_tracked(installed@[i as int]));
                return true;
            },
        }
        i = i + 1;
    }
    false
}

/// The archive filenames a profile records, in order.
pub fn profile_filenames(p: &Profile) -> (r: Vec<String>)
    ensures
        r@.len() == p.mods@.len(),
        forall|i: int| 0 <= i < r@.len() ==> r@[i] == (#[trigger] p.mods@[i]).filename,
{
    let mut names: Vec<String> = Vec::new();
    let mut i: usize = 0;
    while i < p.mods.len()
        invariant
            i <= p.mods@.len(),
            names@.len() == i,
            forall|j: int| 0 <= j < i ==> names@[j] == (#[trigger] p.mods@[j]).filename,
        decreases p.mods@.len() - i,
    {
        names.push(p.mods[i].filename.clone());
        i = i + 1;
    }
    names
}

/// The profile names other than `Default`, from index `i` on.
pub open spec fn spec_non_default_from(names: Seq<String>, i: int) -> Seq<String>
    decreases names.len() - i,
{
    if i < 0 || i >= names.len() {
        Seq::empty()
    } else if names[i]@ == "Default"@ {
        spec_non_default_from(names, i + 1)
    } else {
        seq![names[i]] + spec_non_default_from(names, i + 1)
    }
}

/// The first position whose name does not come at or before `x`.
fn name_insertion_point(out: &Vec<String>, x: &str) -> (p: usize)
    ensures
        p <= out@.len(),
        forall|k: int| 0 <= k < p ==> spec_lex_le((#[trigger] out@[k])@, x@),
        p < out@.len() ==> !spec_lex_le(out@[p as int]@, x@),
{
    let mut p: usize = 0;
    while p < out.len()
        invariant
            p <= out@.len(),
            forall|k: int| 0 <= k < p ==> spec_lex_le((#[trigger] out@[k])@, x@),
        decreases out@.len() - p,
    {
        if !str_le(out[p].as_str(), x) {
            return p;
        }
        p = p + 1;
    }
    p
}

/// The profile menu's order: `Default` always first, then every other saved
/// name exactly once, in lexicographic order.
pub fn order_profile_names(names: Vec<String>) -> (r: Vec<String>)
    ensures
        r@.len() >= 1,
        r@[0]@ == "Default"@,
        r@.skip(1).to_multiset() == spec_non_default_from(names@, 0).to_multiset(),
        forall|a: int, b: int|
            1 <= a < b < r@.len() ==> spec_lex_le((#[trigger] r@[a])@, (#[trigger] r@[b])@),
{
    let ghost orig = names@;
    let mut rest: Vec<String> = Vec::new();
    let mut i: usize = 0;
    while i < names.len()
        invariant
            i <= names@.len(),
            orig == names@,
            rest@ + spec_non_default_from(orig, i as int) == spec_non_default_from(orig, 0),
        decreases names@.len() - i,
    {
        let ghost prev = rest@;
        if !str_eq(names[i].as_str(), "Default") {
            rest.push(names[i].clone());
            proof {
                assert(rest@ =~= prev + seq![orig[i as int]]);
                assert(prev + (seq![orig[i as int]] + spec_non_default_from(orig, i + 1)) =~= (prev
                    + seq![orig[i as int]]) + spec_non_default_from(orig, i + 1));
            }
        } else {
            proof {
                reveal_strlit("Default");
            }
        }
        i = i + 1;
    }
    proof {
        assert(rest@ =~= rest@ + spec_non_default_from(orig, i as int));
    }
    let ghost unsorted = rest@;
    let mut sorted: Vec<String> = Vec::new();
    let mut n: usize = 0;
    proof {
        assert(sorted@ =~= unsorted.take(0));
    }
    while n < rest.len()
        invariant
            n <= rest@.len(),
            unsorted == rest@,
            sorted@.to_multiset() == unsorted.take(n as int).to_multiset(),
            forall|a: int, b: int|
                0 <= a < b < sorted@.len() ==> spec_lex_le(
                    (#[trigger] sorted@[a])@,
                    (#[trigger] sorted@[b])@,
                ),
        decreases rest@.len() - n,
    {
        let x = rest[n].clone();
        proof {
            assert(x == unsorted[n as int]);
        }
        let p = name_insertion_point(&sorted, x.as_str());
        let ghost before = sorted@;
        sorted.insert(p, x);
        proof {
            broadcast use vstd::seq_lib::group_to_multiset_ensures;
            broadcast use vstd::multiset::group_multiset_axioms;

            let x_g = unsorted[n as int];
            assert(sorted@ == before.insert(p as int, x_g));
            assert(before.insert(p as int, x_g).to_multiset() == before.to_multiset().insert(x_g));
            assert(unsorted.take(n + 1) =~= unsorted.take(n as int).push(x_g));
            assert(unsorted.take(n as int).push(x_g).to_multiset() == unsorted.take(
                n as int,
            ).to_multiset().insert(x_g));
            assert forall|a: int, b: int| 0 <= a < b < sorted@.len() implies spec_lex_le(
                (#[trigger] sorted@[a])@,
                (#[trigger] sorted@[b])@,
            ) by {
                if b < p {
                    assert(sorted@[a] == before[a] && sorted@[b] == before[b]);
                } else if a < p && b == p {
                    assert(sorted@[a] == before[a]);
                } else if a < p && b > p {
                    assert(sorted@[a] == before[a] && sorted@[b] == before[b - 1]);
                } else if a == p {
                    assert(sorted@[b] == before[b - 1]);
                    assert(b - 1 >= p);
                    assert(!spec_lex_le(before[p as int]@, x_g@));
                    lemma_lex_total(before[p as int]@, x_g@);
                    if b - 1 > p {
                        assert(spec_lex_le(before[p as int]@, before[b - 1]@));
                        lemma_lex_trans(x_g@, before[p as int]@, before[b - 1]@);
                    }
                } else {
                    assert(sorted@[a] == before[a - 1] && sorted@[b] == before[b - 1]);
                }
            }
        }
        n = n + 1;
    }
    proof {
        assert(unsorted.take(n as int) =~= unsorted);
    }
    let ghost sorted_v = sorted@;
    let mut out: Vec<String> = Vec::new();
    let default_name: &str = "Default";
    out.push(default_name.to_owned());
    let mut sorted = sorted;
    out.append(&mut sorted);
    proof {
        assert(out@ =~= seq![out@[0]] + sorted_v);
        assert(out@.skip(1) =~= sorted_v);
        assert forall|a: int, b: int| 1 <= a < b < out@.len() implies spec_lex_le(
            (#[trigger] out@[a])@,
            (#[trigger] out@[b])@,
        ) by {
            assert(out@[a] == sorted_v[a - 1] && out@[b] == sorted_v[b - 1]);
        }
    }
    out
}

/// Whether some folder in the set carries exactly the name `n`.
pub open spec fn spec_has_name(folders: Seq<InstalledFolder>, n: Seq<char>) -> bool {
    exists|i: int| 0 <= i < folders.len() && (#[trigger] folders[i]).name@ == n
}

/// Removal only shrinks the name set.
proof fn lemma_remove_shrinks(acc: Seq<InstalledFolder>, key: Seq<char>, i: int, n: Seq<char>)
    requires
        spec_has_name(spec_remove_installed_from(acc, key, i), n),
    ensures
        spec_has_name(acc, n),
    decreases acc.len() - i,
{
    if 0 <= i < acc.len() {
        let rest = spec_remove_installed_from(acc, key, i + 1);
        if !spec_eq_ci(acc[i].name@, key) {
            let whole = seq![acc[i]] + rest;
            let w = choose|w: int| 0 <= w < whole.len() && whole[w].name@ == n;
            if w == 0 {
                assert(acc[i].name@ == n);
            } else {
                assert(whole[w] == rest[w - 1]);
                assert(spec_has_name(rest, n));
                lemma_remove_shrinks(acc, key, i + 1, n);
            }
        } else {
            lemma_remove_shrinks(acc, key, i + 1, n);
        }
    }
}

/// A folder whose name is not the removed key survives removal.
proof fn lemma_remove_keeps(acc: Seq<InstalledFolder>, key: Seq<char>, i: int, j: int)
    requires
        0 <= i <= j < acc.len(),
        !spec_eq_ci(acc[j].name@, key),
    ensures
        spec_has_name(spec_remove_installed_from(acc, key, i), acc[j].name@),
    decreases acc.len() - i,
{
    let rest = spec_remove_installed_from(acc, key, i + 1);
    if i == j {
        let whole = seq![acc[i]] + rest;
        assert(whole[0].name@ == acc[j].name@);
    } else {
        lemma_remove_keeps(acc, key, i + 1, j);
        let w = choose|w: int| 0 <= w < rest.len() && rest[w].name@ == acc[j].name@;
        if !spec_eq_ci(acc[i].name@, key) {
            let whole = seq![acc[i]] + rest;
            assert(whole[w + 1].name@ == acc[j].name@);
        }
    }
}

/// A tracked folder's archive is among the collected sources.
proof fn lemma_source_in_sources(installed: Seq<InstalledFolder>, j: int, i: int)
    requires
        0 <= j < i <= installed.len(),
        spec_tracked(installed[j]),
    ensures
        spec_has_source(spec_sources_upto(installed, i), spec_source(installed[j])),
    decreases i,
{
    let prev = spec_sources_upto(installed, i - 1);
    let cur = spec_sources_upto(installed, i);
    if j == i - 1 {
        if spec_has_source(prev, spec_source(installed[j])) {
            let w = choose|w: int|
                0 <= w < prev.len() && (#[trigger] prev[w])@ == spec_source(installed[j]);
            assert(cur[w]@ == spec_source(installed[j]));
        } else {
            assert(cur == prev.push(installed[j].info->0.install_source->0));
            assert(cur[cur.len() - 1]@ == spec_source(installed[j]));
        }
    } else {
        lemma_source_in_sources(installed, j, i - 1);
        let w = choose|w: int|
            0 <= w < prev.len() && (#[trigger] prev[w])@ == spec_source(installed[j]);
        assert(cur[w]@ == spec_source(installed[j]));
    }
}

/// The collected sources are pairwise distinct.
proof fn lemma_sources_distinct(installed: Seq<InstalledFolder>, i: int)
    ensures
        forall|k1: int, k2: int|
            0 <= k1 < k2 < spec_sources_upto(installed, i).len() ==> (
            #[trigger] spec_sources_upto(installed, i)[k1])@ != (#[trigger] spec_sources_upto(
                installed,
                i,
            )[k2])@,
    decreases i,
{
    if 0 < i <= installed.len() {
        lemma_sources_distinct(installed, i - 1);
        let prev = spec_sources_upto(installed, i - 1);
        let cur = spec_sources_upto(installed, i);
        if cur != prev {
            let s = spec_source(installed[i - 1]);
            assert(!spec_has_source(prev, s));
            assert forall|k1: int, k2: int| 0 <= k1 < k2 < cur.len() implies (
            #[trigger] cur[k1])@ != (#[trigger] cur[k2])@ by {
                if k2 == cur.len() - 1 {
                    assert(cur[k1] == prev[k1]);
                    assert(prev[k1]@ != s);
                }
            }
        }
    } else {
        assert(spec_sources_upto(installed, i).len() == 0);
    }
}

/// Every collected source is some tracked folder's archive.
proof fn lemma_sources_are_sources(installed: Seq<InstalledFolder>, i: int, k: int)
    requires
        0 <= k < spec_sources_upto(installed, i).len(),
    ensures
        exists|j: int|
            0 <= j < i && spec_tracked(#[trigger] installed[j]) && spec_source(installed[j])
                == spec_sources_upto(installed, i)[k]@,
    decreases i,
{
    if 0 < i <= installed.len() {
        let prev = spec_sources_upto(installed, i - 1);
        if k < prev.len() {
            lemma_sources_are_sources(installed, i - 1, k);
            let j = choose|j: int|
                0 <= j < i - 1 && spec_tracked(#[trigger] installed[j]) && spec_source(
                    installed[j],
                ) == prev[k]@;
            assert(spec_tracked(installed[j]) && spec_source(installed[j]) == spec_sources_upto(
                installed,
                i,
            )[k]@);
        } else {
            assert(spec_tracked(installed[i - 1]) && spec_source(installed[i - 1])
                == spec_sources_upto(installed, i)[k]@);
        }
    }
}

/// A tracked folder's name is in its archive's group.
proof fn lemma_name_in_group(installed: Seq<InstalledFolder>, j: int, i: int)
    requires
        0 <= j < i <= installed.len(),
        spec_tracked(installed[j]),
    ensures
        spec_group_upto(installed, spec_source(installed[j]), i).contains(installed[j].name),
    decreases i,
{
    let s = spec_source(installed[j]);
    let prev = spec_group_upto(installed, s, i - 1);
    let cur = spec_group_upto(installed, s, i);
    if j == i - 1 {
        assert(cur == prev.push(installed[j].name));
        assert(cur[cur.len() - 1] == installed[j].name);
    } else {
        lemma_name_in_group(installed, j, i - 1);
        let w = choose|w: int| 0 <= w < prev.len() && prev[w] == installed[j].name;
        if cur != prev {
            assert(cur[w] == installed[j].name);
        }
    }
}

/// Every group member is the name of a tracked folder with that archive.
proof fn lemma_group_members(installed: Seq<InstalledFolder>, s: Seq<char>, i: int, m: int)
    requires
        0 <= m < spec_group_upto(installed, s, i).len(),
    ensures
        exists|j: int|
            0 <= j < i && spec_tracked(#[trigger] installed[j]) && spec_source(installed[j]) == s
                && installed[j].name == spec_group_upto(installed, s, i)[m],
    decreases i,
{
    if 0 < i <= installed.len() {
        let prev = spec_group_upto(installed, s, i - 1);
        if m < prev.len() {
            lemma_group_members(installed, s, i - 1, m);
            let j = choose|j: int|
                0 <= j < i - 1 && spec_tracked(#[trigger] installed[j]) && spec_source(
                    installed[j],
                ) == s && installed[j].name == prev[m];
            assert(spec_tracked(installed[j]) && spec_source(installed[j]) == s && installed[j].name
                == spec_group_upto(installed, s, i)[m]);
        } else {
            let last = installed[i - 1];
            assert(spec_tracked(last) && spec_source(last) == s && last.name == spec_group_upto(
                installed,
                s,
                i,
            )[m]);
        }
    }
}

/// Every name in the set after replaying options was there before, or is
/// one of the replayed recorded names.
proof fn lemma_apply_opts_names(
    acc: Seq<InstalledFolder>,
    e: ProfileEntry,
    t: DirTree,
    j: int,
    n: Seq<char>,
)
    requires
        spec_has_name(spec_apply_opts(acc, e, t, j), n),
    ensures
        spec_has_name(acc, n) || exists|m: int|
            0 <= m < j && m < e.installed_options->0@.len() && (
            #[trigger] e.installed_options->0@[m])@ == n,
    decreases j,
{
    if j <= 0 || !(e.installed_options matches Some(o) && j <= o@.len()) {
    } else {
        let prev = spec_apply_opts(acc, e, t, j - 1);
        let name = e.installed_options->0@[j - 1];
        if spec_find_tree(t, name@) is Some {
            let removed = spec_remove_installed(prev, name@);
            let cur = removed.push(spec_restored(e, name));
            let w = choose|w: int| 0 <= w < cur.len() && cur[w].name@ == n;
            if w == cur.len() - 1 {
                assert((e.installed_options->0@[j - 1])@ == n);
            } else {
                assert(removed[w].name@ == n);
                lemma_remove_shrinks(prev, name@, 0, n);
                lemma_apply_opts_names(acc, e, t, j - 1, n);
            }
        } else {
            lemma_apply_opts_names(acc, e, t, j - 1, n);
        }
    }
}

/// A name already in the set survives replaying options none of which
/// carries it (case-insensitively).
proof fn lemma_apply_opts_keeps(
    acc: Seq<InstalledFolder>,
    e: ProfileEntry,
    t: DirTree,
    j: int,
    n: Seq<char>,
)
    requires
        spec_has_name(acc, n),
        forall|m: int|
            0 <= m < j && m < e.installed_options->0@.len() ==> !spec_eq_ci(
                (#[trigger] e.installed_options->0@[m])@,
                n,
            ),
    ensures
        spec_has_name(spec_apply_opts(acc, e, t, j), n),
    decreases j,
{
    if j <= 0 || !(e.installed_options matches Some(o) && j <= o@.len()) {
    } else {
        lemma_apply_opts_keeps(acc, e, t, j - 1, n);
        let prev = spec_apply_opts(acc, e, t, j - 1);
        let name = e.installed_options->0@[j - 1];
        if spec_find_tree(t, name@) is Some {
            let removed = spec_remove_installed(prev, name@);
            let cur = removed.push(spec_restored(e, name));
            let w = choose|w: int| 0 <= w < prev.len() && (#[trigger] prev[w]).name@ == n;
            assert(!spec_eq_ci(name@, n));
            assert(!spec_eq_ci(prev[w].name@, name@));
            lemma_remove_keeps(prev, name@, 0, w);
            let v = choose|v: int| 0 <= v < removed.len() && (#[trigger] removed[v]).name@ == n;
            assert(cur[v].name@ == n);
        }
    }
}

/// A recorded name that the tree holds, and that no later recorded name of
/// the entry repeats, is in the set after replaying the options.
proof fn lemma_apply_opts_adds(
    acc: Seq<InstalledFolder>,
    e: ProfileEntry,
    t: DirTree,
    j: int,
    m0: int,
    n: Seq<char>,
)
    requires
        e.installed_options is Some,
        0 <= m0 < j,
        j <= e.installed_options->0@.len(),
        (e.installed_options->0@[m0])@ == n,
        spec_find_tree(t, n) is Some,
        forall|m: int|
            m0 < m < j ==> !spec_eq_ci((#[trigger] e.installed_options->0@[m])@, n),
    ensures
        spec_has_name(spec_apply_opts(acc, e, t, j), n),
    decreases j,
{
    let prev = spec_apply_opts(acc, e, t, j - 1);
    let name = e.installed_options->0@[j - 1];
    if j - 1 == m0 {
        assert(name@ == n);
        let removed = spec_remove_installed(prev, name@);
        let cur = removed.push(spec_restored(e, name));
        assert(cur[cur.len() - 1].name@ == n);
    } else {
        lemma_apply_opts_adds(acc, e, t, j - 1, m0, n);
        if spec_find_tree(t, name@) is Some {
            let removed = spec_remove_installed(prev, name@);
            let cur = removed.push(spec_restored(e, name));
            let w = choose|w: int| 0 <= w < prev.len() && (#[trigger] prev[w]).name@ == n;
            assert(!spec_eq_ci(name@, n));
            assert(!spec_eq_ci(prev[w].name@, name@));
            lemma_remove_keeps(prev, name@, 0, w);
            let v = choose|v: int| 0 <= v < removed.len() && (#[trigger] removed[v]).name@ == n;
            assert(cur[v].name@ == n);
        }
    }
}

/// Whether replaying entry `e` can never install or overwrite a folder
/// named `n`: its archive has no tree, or every recorded name avoids `n`
/// (and the record does list names).
pub open spec fn spec_entry_avoids(e: ProfileEntry, trees: Seq<(String, DirTree)>, n: Seq<char>) -> bool {
    match spec_tree_for(trees, e.filename@) {
        None => true,
        Some(t) => {
            &&& e.installed_options matches Some(o) && o@.len() > 0
            &&& forall|m: int|
                0 <= m < e.installed_options->0@.len() ==> !spec_eq_ci(
                    (#[trigger] e.installed_options->0@[m])@,
                    n,
                )
        },
    }
}

/// A name in the set survives the replay of entries that all avoid it.
proof fn lemma_apply_upto_keeps(
    mods: Seq<ProfileEntry>,
    trees: Seq<(String, DirTree)>,
    n: Seq<char>,
    i1: int,
    i2: int,
)
    requires
        0 <= i1 <= i2 <= mods.len(),
        spec_has_name(spec_apply_upto(mods, trees, i1), n),
        forall|k: int| i1 <= k < i2 ==> spec_entry_avoids(#[trigger] mods[k], trees, n),
    ensures
        spec_has_name(spec_apply_upto(mods, trees, i2), n),
    decreases i2 - i1,
{
    if i1 < i2 {
        let prev = spec_apply_upto(mods, trees, i2 - 1);
        lemma_apply_upto_keeps(mods, trees, n, i1, i2 - 1);
        assert(spec_entry_avoids(mods[i2 - 1], trees, n));
        match spec_tree_for(trees, mods[i2 - 1].filename@) {
            None => {},
            Some(t) => {
                lemma_apply_opts_keeps(
                    prev,
                    mods[i2 - 1],
                    t,
                    mods[i2 - 1].installed_options->0@.len() as int,
                    n,
                );
            },
        }
    }
}

/// With pairwise-distinct folder names, each group's members are pairwise
/// distinct too.
proof fn lemma_group_distinct(installed: Seq<InstalledFolder>, s: Seq<char>, i: int)
    requires
        0 <= i <= installed.len(),
        forall|j1: int, j2: int|
            0 <= j1 < j2 < installed.len() ==> !spec_eq_ci(
                (#[trigger] installed[j1]).name@,
                (#[trigger] installed[j2]).name@,
            ),
    ensures
        forall|m1: int, m2: int|
            0 <= m1 < m2 < spec_group_upto(installed, s, i).len() ==> !spec_eq_ci(
                (#[trigger] spec_group_upto(installed, s, i)[m1])@,
                (#[trigger] spec_group_upto(installed, s, i)[m2])@,
            ),
    decreases i,
{
    if 0 < i {
        lemma_group_distinct(installed, s, i - 1);
        let prev = spec_group_upto(installed, s, i - 1);
        let cur = spec_group_upto(installed, s, i);
        if cur != prev {
            assert forall|m1: int, m2: int| 0 <= m1 < m2 < cur.len() implies !spec_eq_ci(
                (#[trigger] cur[m1])@,
                (#[trigger] cur[m2])@,
            ) by {
                if m2 == cur.len() - 1 {
                    lemma_group_members(installed, s, i - 1, m1);
                    let j1 = choose|j1: int|
                        0 <= j1 < i - 1 && spec_tracked(#[trigger] installed[j1]) && spec_source(
                            installed[j1],
                        ) == s && installed[j1].name == prev[m1];
                    assert(cur[m2] == installed[i - 1].name);
                    assert(!spec_eq_ci(installed[j1].name@, installed[i - 1].name@));
                } else {
                    assert(cur[m1] == prev[m1] && cur[m2] == prev[m2]);
                }
            }
        }
    }
}

/// Every name that the replay of modern profile entries installs is one of
/// their recorded names.
proof fn lemma_apply_upto_names(
    mods: Seq<ProfileEntry>,
    trees: Seq<(String, DirTree)>,
    i: int,
    n: Seq<char>,
)
    requires
        0 <= i <= mods.len(),
        spec_has_name(spec_apply_upto(mods, trees, i), n),
        forall|k: int|
            0 <= k < i && spec_tree_for(trees, (#[trigger] mods[k]).filename@) is Some ==> (mods[k].installed_options
                matches Some(o) && o@.len() > 0),
    ensures
        exists|k: int, m: int|
            0 <= k < i && 0 <= m < mods[k].installed_options->0@.len() && (
            #[trigger] mods[k].installed_options->0@[m])@ == n,
    decreases i,
{
    if i > 0 {
        let prev = spec_apply_upto(mods, trees, i - 1);
        match spec_tree_for(trees, mods[i - 1].filename@) {
            None => {
                lemma_apply_upto_names(mods, trees, i - 1, n);
            },
            Some(t) => {
                let e = mods[i - 1];
                lemma_apply_opts_names(prev, e, t, e.installed_options->0@.len() as int, n);
                if spec_has_name(prev, n) {
                    lemma_apply_upto_names(mods, trees, i - 1, n);
                } else {
                    let m = choose|m: int|
                        0 <= m < e.installed_options->0@.len() && (
                        #[trigger] e.installed_options->0@[m])@ == n;
                    assert((mods[i - 1].installed_options->0@[m])@ == n);
                }
            },
        }
    }
}

/// Saving the installed set and immediately applying the saved profile over
/// freshly extracted trees reproduces exactly the installed folder names.
/// This asks only what a real directory gives: every folder tracked (an
/// untracked folder is deliberately left out of a profile), folder names
/// pairwise distinct as directory entries are, and each recorded archive
/// extracted to a tree that still holds each recorded folder. The
/// priority-list ordering is reproduced by construction, since the saved
/// copy of the file is restored verbatim rather than recomputed.
pub proof fn lemma_save_then_apply_round_trip(
    installed: Seq<InstalledFolder>,
    hashes: Seq<(String, String)>,
    p: Profile,
    trees: Seq<(String, DirTree)>,
)
    requires
        p.mods@.len() == spec_sources(installed).len(),
        forall|k: int|
            0 <= k < p.mods@.len() ==> spec_entry_for(
                installed,
                hashes,
                spec_sources(installed)[k],
                #[trigger] p.mods@[k],
            ),
        forall|j: int| 0 <= j < installed.len() ==> spec_tracked(#[trigger] installed[j]),
        forall|j1: int, j2: int|
            0 <= j1 < j2 < installed.len() ==> !spec_eq_ci(
                (#[trigger] installed[j1]).name@,
                (#[trigger] installed[j2]).name@,
            ),
        forall|k: int|
            0 <= k < p.mods@.len() ==> spec_tree_for(
                trees,
                (#[trigger] p.mods@[k]).filename@,
            ) is Some,
        forall|k: int, m: int|
            0 <= k < p.mods@.len() && 0 <= m < p.mods@[k].installed_options->0@.len()
                ==> spec_find_tree(
                spec_tree_for(trees, p.mods@[k].filename@)->0,
                (#[trigger] p.mods@[k].installed_options->0@[m])@,
            ) is Some,
    ensures
        forall|n: Seq<char>|
            #[trigger] spec_has_name(spec_apply(p, trees), n) <==> spec_has_name(installed, n),
{
    let len = installed.len() as int;
    let sources = spec_sources(installed);
    // every entry's option list is its group and is non-empty
    assert forall|k: int| 0 <= k < p.mods@.len() implies (#[trigger] p.mods@[k]).installed_options
        matches Some(o) && o@.len() > 0 by {
        lemma_sources_are_sources(installed, len, k);
        let j = choose|j: int|
            0 <= j < len && spec_tracked(#[trigger] installed[j]) && spec_source(installed[j])
                == sources[k]@;
        lemma_name_in_group(installed, j, len);
        assert(spec_group(installed, sources[k]@).len() > 0);
        assert(spec_entry_for(installed, hashes, sources[k], p.mods@[k]));
    }
    assert forall|n: Seq<char>|
        #[trigger] spec_has_name(spec_apply(p, trees), n) <==> spec_has_name(installed, n) by {
        if spec_has_name(spec_apply(p, trees), n) {
            lemma_apply_upto_names(p.mods@, trees, p.mods@.len() as int, n);
            let (k, m) = choose|k: int, m: int|
                0 <= k < p.mods@.len() && 0 <= m < p.mods@[k].installed_options->0@.len() && (
                #[trigger] p.mods@[k].installed_options->0@[m])@ == n;
            assert(spec_entry_for(installed, hashes, sources[k], p.mods@[k]));
            lemma_group_members(installed, sources[k]@, len, m);
            let j = choose|j: int|
                0 <= j < len && spec_tracked(#[trigger] installed[j]) && spec_source(installed[j])
                    == sources[k]@ && installed[j].name == spec_group(installed, sources[k]@)[m];
            assert(installed[j].name@ == n);
            assert(spec_has_name(installed, n));
        }
        if spec_has_name(installed, n) {
            let j = choose|j: int|
                0 <= j < installed.len() && (#[trigger] installed[j]).name@ == n;
            let s = spec_source(installed[j]);
            lemma_source_in_sources(installed, j, len);
            let k = choose|k: int| 0 <= k < sources.len() && (#[trigger] sources[k])@ == s;
            assert(spec_entry_for(installed, hashes, sources[k], p.mods@[k]));
            let e = p.mods@[k];
            let opts = e.installed_options->0@;
            lemma_name_in_group(installed, j, len);
            let m = choose|m: int|
                0 <= m < opts.len() && #[trigger] opts[m] == installed[j].name;
            // the entry replays n, and no later recorded name of this entry
            // repeats it
            lemma_group_distinct(installed, s, len);
            lemma_sources_distinct(installed, len);
            let t = spec_tree_for(trees, e.filename@)->0;
            let prev = spec_apply_upto(p.mods@, trees, k);
            assert(spec_find_tree(t, (opts[m])@) is Some);
            lemma_apply_opts_adds(prev, e, t, opts.len() as int, m, n);
            assert(spec_has_name(spec_apply_upto(p.mods@, trees, k + 1), n));
            // and every later entry avoids n: its options are another
            // archive's group, whose members are other folders' names
            assert forall|k2: int| k + 1 <= k2 < p.mods@.len() implies spec_entry_avoids(
                #[trigger] p.mods@[k2],
                trees,
                n,
            ) by {
                assert(spec_entry_for(installed, hashes, sources[k2], p.mods@[k2]));
                let opts2 = p.mods@[k2].installed_options->0@;
                assert forall|m2: int| 0 <= m2 < opts2.len() implies !spec_eq_ci(
                    (#[trigger] opts2[m2])@,
                    n,
                ) by {
                    lemma_group_members(installed, sources[k2]@, len, m2);
                    let j2 = choose|j2: int|
                        0 <= j2 < len && spec_tracked(#[trigger] installed[j2]) && spec_source(
                            installed[j2],
                        ) == sources[k2]@ && installed[j2].name == spec_group(
                            installed,
                            sources[k2]@,
                        )[m2];
                    assert(sources[k2]@ != sources[k]@);
                    assert(j2 != j);
                    if j2 < j {
                        assert(!spec_eq_ci(installed[j2].name@, installed[j].name@));
                        assert(spec_eq_ci(installed[j2].name@, n) ==> spec_eq_ci(
                            installed[j].name@,
                            installed[j2].name@,
                        ));
                    } else {
                        assert(!spec_eq_ci(installed[j].name@, installed[j2].name@));
                    }
                }
            }
            lemma_apply_upto_keeps(p.mods@, trees, n, k + 1, p.mods@.len() as int);
        }
    }
}

} // verus!
