//! A directory tree as plain data.
//!
//! The engine never touches the filesystem: callers read a directory into a
//! `DirTree` (names of subdirectories and files, plus the parsed sidecar
//! descriptor if the directory holds one) and hand it to the verified logic.
//! Name lookups are case-insensitive, as they are on the filesystems the game
//! lives on.

use vstd::prelude::*;
use crate::text::spec_eq_ci;
use crate::text::spec_first_sep_from;
use crate::text::eq_ignore_case;
use crate::text::lemma_first_sep_range;

verus! {

/// The sidecar descriptor of an installed mod folder, already parsed from its
/// JSON form. Every field is optional; an absent or empty `install_source`
/// marks the mod untracked.
#[derive(Debug, Clone)]
pub struct ModInfo {
    pub mod_id: Option<String>,
    pub file_id: Option<String>,
    pub version: Option<String>,
    pub install_source: Option<String>,
}

impl ModInfo {
    /// The sidecar after an install records its metadata: a non-empty value
    /// overwrites the corresponding field, an empty one leaves the existing
    /// value in place — except the origin archive, which is always written,
    /// so the mod is trackable from here on.
    pub fn updated(
        existing: Option<ModInfo>,
        mod_id: &str,
        file_id: &str,
        version: &str,
        install_source: &str,
    ) -> (r: ModInfo)
        ensures
            mod_id@.len() > 0 ==> (r.mod_id matches Some(m) && m@ == mod_id@),
            mod_id@.len() == 0 ==> r.mod_id == match existing {
                Some(e) => e.mod_id,
                None => None::<String>,
            },
            file_id@.len() > 0 ==> (r.file_id matches Some(m) && m@ == file_id@),
            file_id@.len() == 0 ==> r.file_id == match existing {
                Some(e) => e.file_id,
                None => None::<String>,
            },
            version@.len() > 0 ==> (r.version matches Some(m) && m@ == version@),
            version@.len() == 0 ==> r.version == match existing {
                Some(e) => e.version,
                None => None::<String>,
            },
            r.install_source matches Some(s) && s@ == install_source@,
    {
        let (old_mod_id, old_file_id, old_version) = match existing {
            Some(e) => (e.mod_id, e.file_id, e.version),
            None => (None, None, None),
        };
        ModInfo {
            mod_id: if mod_id.unicode_len() > 0 {
                Some(mod_id.to_owned())
            } else {
                old_mod_id
            },
            file_id: if file_id.unicode_len() > 0 {
                Some(file_id.to_owned())
            } else {
                old_file_id
            },
            version: if version.unicode_len() > 0 {
                Some(version.to_owned())
            } else {
                old_version
            },
            install_source: Some(install_source.to_owned()),
        }
    }

    /// An equal copy.
    pub fn duplicate(&self) -> (r: ModInfo)
        ensures
            r == *self,
    {
        ModInfo {
            mod_id: match &self.mod_id {
                Some(s) => Some(s.clone()),
                None => None,
            },
            file_id: match &self.file_id {
                Some(s) => Some(s.clone()),
                None => None,
            },
            version: match &self.version {
                Some(s) => Some(s.clone()),
                None => None,
            },
            install_source: match &self.install_source {
                Some(s) => Some(s.clone()),
                None => None,
            },
        }
    }
}

/// One directory: its name, its subdirectories, the names of its plain files,
/// and its sidecar descriptor when a parseable one is present.
#[derive(Debug)]
pub struct DirTree {
    pub name: String,
    pub dirs: Vec<DirTree>,
    pub files: Vec<String>,
    pub sidecar: Option<ModInfo>,
}

/// The first child of `dirs`, from index `i` on, whose name matches `key`
/// case-insensitively.
pub open spec fn spec_find_child_from(dirs: Seq<DirTree>, key: Seq<char>, i: int) -> Option<
    DirTree,
>
    decreases dirs.len() - i,
{
    if i < 0 || i >= dirs.len() {
        None
    } else if spec_eq_ci(dirs[i].name@, key) {
        Some(dirs[i])
    } else {
        spec_find_child_from(dirs, key, i + 1)
    }
}

pub open spec fn spec_find_child(dirs: Seq<DirTree>, key: Seq<char>) -> Option<DirTree> {
    spec_find_child_from(dirs, key, 0)
}

/// Depth-first search for a directory named `key` (case-insensitively)
/// anywhere strictly below `t`: children are visited in order, and at each
/// child the name is checked before descending into it.
pub open spec fn spec_find_tree(t: DirTree, key: Seq<char>) -> Option<DirTree>
    decreases t, 1int,
{
    spec_find_below(t, key, 0)
}

pub open spec fn spec_find_below(t: DirTree, key: Seq<char>, i: int) -> Option<DirTree>
    decreases t, 0int, t.dirs@.len() - i,
{
    if i < 0 || i >= t.dirs@.len() {
        None
    } else if spec_eq_ci(t.dirs@[i].name@, key) {
        Some(t.dirs@[i])
    } else {
        match spec_find_tree(t.dirs@[i], key) {
            Some(f) => Some(f),
            None => spec_find_below(t, key, i + 1),
        }
    }
}

/// The directory reached from `t` by the relative path `rel`: each `/`-
/// separated component names a child, matched case-insensitively; the empty
/// path and `.` name `t` itself.
pub open spec fn spec_subtree_at(t: DirTree, rel: Seq<char>) -> Option<DirTree>
    decreases rel.len(),
    via spec_subtree_at_decreases
{
    if rel.len() == 0 || rel == seq!['.'] {
        Some(t)
    } else {
        match spec_first_sep_from(rel, '/', 0) {
            None => spec_find_child(t.dirs@, rel),
            Some(i) => match spec_find_child(t.dirs@, rel.take(i)) {
                None => None,
                Some(c) => spec_subtree_at(c, rel.skip(i + 1)),
            },
        }
    }
}

#[via_fn]
proof fn spec_subtree_at_decreases(t: DirTree, rel: Seq<char>) {
    lemma_first_sep_range(rel, '/', 0);
}

impl DirTree {
    /// The names of the immediate subdirectories, in order.
    pub fn top_dir_names(&self) -> (r: Vec<String>)
        ensures
            r@.len() == self.dirs@.len(),
            forall|i: int| 0 <= i < r@.len() ==> r@[i]@ == self.dirs@[i].name@,
    {
        let mut names: Vec<String> = Vec::new();
        let mut i: usize = 0;
        while i < self.dirs.len()
            invariant
                i <= self.dirs@.len(),
                names@.len() == i,
                forall|j: int| 0 <= j < i ==> names@[j]@ == self.dirs@[j].name@,
            decreases self.dirs@.len() - i,
        {
            names.push(self.dirs[i].name.clone());
            i = i + 1;
        }
        names
    }

    /// The first immediate child directory whose name matches `key`
    /// case-insensitively.
    pub fn find_child<'a>(&'a self, key: &str) -> (r: Option<&'a DirTree>)
        ensures
            match r {
                Some(c) => spec_find_child(self.dirs@, key@) == Some(*c),
                None => spec_find_child(self.dirs@, key@) is None,
            },
    {
        let mut i: usize = 0;
        while i < self.dirs.len()
            invariant
                i <= self.dirs@.len(),
                spec_find_child(self.dirs@, key@) == spec_find_child_from(self.dirs@, key@, i as int),
            decreases self.dirs@.len() - i,
        {
            if eq_ignore_case(self.dirs[i].name.as_str(), key) {
                return Some(&self.dirs[i]);
            }
            i = i + 1;
        }
        None
    }

    /// The directory reached by the relative path `rel`, per
    /// `spec_subtree_at`.
    pub fn subtree_at<'a>(&'a self, rel: &str) -> (r: Option<&'a DirTree>)
        ensures
            match r {
                Some(c) => spec_subtree_at(*self, rel@) == Some(*c),
                None => spec_subtree_at(*self, rel@) is None,
            },
        decreases rel@.len(),
    {
        let len = rel.unicode_len();
        if len == 0 {
            return Some(self);
        }
        if len == 1 && rel.get_char(0) == '.' {
            assert(rel@ =~= seq!['.']);
            return Some(self);
        }
        assert(rel@ != seq!['.']);
        let mut i: usize = 0;
        while i < len
            invariant
                i <= len,
                len == rel@.len(),
                spec_first_sep_from(rel@, '/', 0) == spec_first_sep_from(rel@, '/', i as int),
            decreases len - i,
        {
            if rel.get_char(i) == '/' {
                let head = rel.substring_char(0, i);
                assert(head@ == rel@.take(i as int));
                return match self.find_child(head) {
                    None => None,
                    Some(c) => {
                        let rest = rel.substring_char(i + 1, len);
                        assert(rest@ == rel@.skip(i as int + 1));
                        c.subtree_at(rest)
                    },
                };
            }
            i = i + 1;
        }
        self.find_child(rel)
    }

    /// Depth-first search for a directory named `key` (case-insensitively)
    /// anywhere strictly below this tree's root.
    pub fn find_dir<'a>(&'a self, key: &str) -> (r: Option<&'a DirTree>)
        ensures
            match r {
                Some(c) => spec_find_tree(*self, key@) == Some(*c),
                None => spec_find_tree(*self, key@) is None,
            },
        decreases *self,
    {
        let mut i: usize = 0;
        while i < self.dirs.len()
            invariant
                i <= self.dirs@.len(),
                spec_find_tree(*self, key@) == spec_find_below(*self, key@, i as int),
            decreases self.dirs@.len() - i,
        {
            if eq_ignore_case(self.dirs[i].name.as_str(), key) {
                return Some(&self.dirs[i]);
            }
            let found = self.dirs[i].find_dir(key);
            if let Some(f) = found {
                return Some(f);
            }
            i = i + 1;
        }
        None
    }
}

} // verus!
