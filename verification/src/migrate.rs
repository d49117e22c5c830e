//! Legacy migration: heals installed mods whose sidecar predates origin
//! tracking.
//!
//! Older releases wrote sidecars without an `install_source`, so such mods
//! would look untracked forever. The saved profiles still know which archive
//! each (mod identifier, file identifier) pair came from; migration builds
//! that lookup from every profile and writes the recovered origin into each
//! sidecar that lacks one.

use vstd::prelude::*;
use crate::fstree::ModInfo;
use crate::profile::InstalledFolder;
use crate::profile::Profile;
use crate::profile::spec_tracked;
use crate::text::str_eq;

verus! {

/// One learned fact: the pair of external identifiers and the archive
/// filename it was installed from.
#[derive(Debug)]
pub struct LegacyKey {
    pub mod_id: String,
    pub file_id: String,
    pub filename: String,
}

/// The facts contributed by entries `[0, j)` of one profile: every entry
/// carrying both identifiers, in order.
pub open spec fn spec_profile_keys(p: Profile, j: int) -> Seq<LegacyKey>
    decreases j,
{
    if j <= 0 || j > p.mods@.len() {
        Seq::empty()
    } else {
        let prev = spec_profile_keys(p, j - 1);
        let e = p.mods@[j - 1];
        if e.mod_id is Some && e.file_id is Some {
            prev.push(
                LegacyKey {
                    mod_id: e.mod_id->0,
                    file_id: e.file_id->0,
                    filename: e.filename,
                },
            )
        } else {
            prev
        }
    }
}

/// The facts of profiles `[0, i)`, in order.
pub open spec fn spec_legacy_keys(profiles: Seq<Profile>, i: int) -> Seq<LegacyKey>
    decreases i,
{
    if i <= 0 || i > profiles.len() {
        Seq::empty()
    } else {
        spec_legacy_keys(profiles, i - 1) + spec_profile_keys(
            profiles[i - 1],
            profiles[i - 1].mods@.len() as int,
        )
    }
}

/// The archive recorded for an identifier pair: the last matching fact
/// wins, as a later profile overwrites an earlier one's record.
pub open spec fn spec_legacy_filename(
    keys: Seq<LegacyKey>,
    m: Seq<char>,
    f: Seq<char>,
) -> Option<String>
    decreases keys.len(),
{
    if keys.len() == 0 {
        None
    } else if keys.last().mod_id@ == m && keys.last().file_id@ == f {
        Some(keys.last().filename)
    } else {
        spec_legacy_filename(keys.drop_last(), m, f)
    }
}

/// Collects, from every profile in order, each entry that carries both
/// external identifiers.
pub fn build_legacy_lookup(profiles: &Vec<Profile>) -> (r: Vec<LegacyKey>)
    ensures
        r@ == spec_legacy_keys(profiles@, profiles@.len() as int),
{
    let mut keys: Vec<LegacyKey> = Vec::new();
    let mut i: usize = 0;
    while i < profiles.len()
        invariant
            i <= profiles@.len(),
            keys@ == spec_legacy_keys(profiles@, i as int),
        decreases profiles@.len() - i,
    {
        let p = &profiles[i];
        let mut j: usize = 0;
        while j < p.mods.len()
            invariant
                j <= p.mods@.len(),
                *p == profiles@[i as int],
                i < profiles@.len(),
                keys@ == spec_legacy_keys(profiles@, i as int) + spec_profile_keys(*p, j as int),
            decreases p.mods@.len() - j,
        {
            let e = &p.mods[j];
            match (&e.mod_id, &e.file_id) {
                (Some(m), Some(f)) => {
                    keys.push(
                        LegacyKey {
                            mod_id: m.clone(),
                            file_id: f.clone(),
                            filename: e.filename.clone(),
                        },
                    );
                },
                _ => {},
            }
            j = j + 1;
        }
        i = i + 1;
    }
    keys
}

/// Looks an identifier pair up, the last matching fact winning.
pub fn legacy_filename_for(keys: &Vec<LegacyKey>, m: &str, f: &str) -> (r: Option<String>)
    ensures
        r == spec_legacy_filename(keys@, m@, f@),
{
    let mut i: usize = keys.len();
    proof {
        assert(keys@.take(i as int) =~= keys@);
    }
    while i > 0
        invariant
            i <= keys@.len(),
            spec_legacy_filename(keys@, m@, f@) == spec_legacy_filename(
                keys@.take(i as int),
                m@,
                f@,
            ),
        decreases i,
    {
        i = i - 1;
        proof {
            assert(keys@.take(i + 1).last() == keys@[i as int]);
            assert(keys@.take(i + 1).drop_last() =~= keys@.take(i as int));
        }
        if str_eq(keys[i].mod_id.as_str(), m) && str_eq(keys[i].file_id.as_str(), f) {
            return Some(keys[i].filename.clone());
        }
    }
    proof {
        assert(keys@.take(0).len() == 0);
    }
    None
}

/// What healing does to one folder's sidecar: an untracked folder whose
/// sidecar carries both identifiers, and whose pair the profiles know, gets
/// that archive written as its origin; anything else is left alone.
pub open spec fn spec_heal(f: InstalledFolder, keys: Seq<LegacyKey>) -> Option<ModInfo> {
    if spec_tracked(f) {
        None
    } else {
        match f.info {
            None => None,
            Some(info) => match (info.mod_id, info.file_id) {
                (Some(m), Some(fid)) => match spec_legacy_filename(keys, m@, fid@) {
                    Some(filename) => Some(
                        ModInfo {
                            mod_id: info.mod_id,
                            file_id: info.file_id,
                            version: info.version,
                            install_source: Some(filename),
                        },
                    ),
                    None => None,
                },
                _ => None,
            },
        }
    }
}

/// Heals one folder's sidecar, per `spec_heal`; the caller writes the
/// returned descriptor back to disk.
pub fn heal_sidecar(folder: &InstalledFolder, keys: &Vec<LegacyKey>) -> (r: Option<ModInfo>)
    ensures
        r == spec_heal(*folder, keys@),
{
    match &folder.info {
        None => None,
        Some(info) => {
            let has_origin = match &info.install_source {
                Some(s) => s.unicode_len() > 0,
                None => false,
            };
            if has_origin {
                return None;
            }
            match (&info.mod_id, &info.file_id) {
                (Some(m), Some(fid)) => match legacy_filename_for(keys, m.as_str(), fid.as_str()) {
                    Some(filename) => Some(
                        ModInfo {
                            mod_id: Some(m.clone()),
                            file_id: Some(fid.clone()),
                            version: match &info.version {
                                Some(v) => Some(v.clone()),
                                None => None,
                            },
                            install_source: Some(filename),
                        },
                    ),
                    None => None,
                },
                _ => None,
            }
        },
    }
}

} // verus!
