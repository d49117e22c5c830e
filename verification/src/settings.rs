//! The settings synchronizer: keeps the externally-owned mod-priority list
//! consistent with the set of installed mod folders.
//!
//! The list is an ordered sequence of records, each with a display name, an
//! enabled flag and an integer priority. The invariant maintained by every
//! rewrite here is that priorities are a contiguous 0-based sequence matching
//! list order. Reconciliation drops orphaned entries — names with no folder
//! on disk — and renumbers when anything was dropped; deletion, reordering
//! and renaming follow the same read-modify-renumber discipline.

use vstd::prelude::*;
use crate::EngineError;
use crate::fstree::ModInfo;
use crate::text::spec_eq_ci;
use crate::text::spec_upper;
use crate::text::eq_ignore_case;
use crate::text::upper_string;
use crate::text::str_eq;

verus! {

/// One entry of the priority list.
#[derive(Debug)]
pub struct ModRecord {
    pub name: String,
    pub enabled: bool,
    pub priority: u32,
}

impl ModRecord {
    /// An equal copy.
    pub fn duplicate(&self) -> (r: ModRecord)
        ensures
            r == *self,
    {
        ModRecord { name: self.name.clone(), enabled: self.enabled, priority: self.priority }
    }
}

/// The priority-list document: the global disable flag and the entries in
/// list order.
#[derive(Debug)]
pub struct SettingsDoc {
    pub disable_all: bool,
    pub records: Vec<ModRecord>,
}

/// Whether `name` names an installed folder, case-insensitively.
pub open spec fn spec_name_present(present: Seq<String>, name: Seq<char>) -> bool {
    exists|j: int| 0 <= j < present.len() && spec_eq_ci(#[trigger] present[j]@, name)
}

fn name_present(present: &Vec<String>, name: &str) -> (r: bool)
    ensures
        r == spec_name_present(present@, name@),
{
    let mut j: usize = 0;
    while j < present.len()
        invariant
            j <= present@.len(),
            forall|k: int| 0 <= k < j ==> !spec_eq_ci(#[trigger] present@[k]@, name@),
        decreases present@.len() - j,
    {
        if eq_ignore_case(present[j].as_str(), name) {
            return true;
        }
        j = j + 1;
    }
    false
}

/// The records from `i` on whose names have a folder on disk.
pub open spec fn spec_keep_present_from(
    records: Seq<ModRecord>,
    present: Seq<String>,
    i: int,
) -> Seq<ModRecord>
    decreases records.len() - i,
{
    if i < 0 || i >= records.len() {
        Seq::empty()
    } else if spec_name_present(present, records[i].name@) {
        seq![records[i]] + spec_keep_present_from(records, present, i + 1)
    } else {
        spec_keep_present_from(records, present, i + 1)
    }
}

pub open spec fn spec_keep_present(records: Seq<ModRecord>, present: Seq<String>) -> Seq<
    ModRecord,
> {
    spec_keep_present_from(records, present, 0)
}

/// The records from `i` on whose names differ from `name`,
/// case-insensitively.
pub open spec fn spec_remove_name_from(records: Seq<ModRecord>, name: Seq<char>, i: int) -> Seq<
    ModRecord,
>
    decreases records.len() - i,
{
    if i < 0 || i >= records.len() {
        Seq::empty()
    } else if spec_eq_ci(records[i].name@, name) {
        spec_remove_name_from(records, name, i + 1)
    } else {
        seq![records[i]] + spec_remove_name_from(records, name, i + 1)
    }
}

pub open spec fn spec_remove_name(records: Seq<ModRecord>, name: Seq<char>) -> Seq<ModRecord> {
    spec_remove_name_from(records, name, 0)
}

/// The same records with priorities renumbered to list order.
pub open spec fn spec_renumber(records: Seq<ModRecord>) -> Seq<ModRecord> {
    Seq::new(
        records.len(),
        |i: int|
            ModRecord {
                name: records[i].name,
                enabled: records[i].enabled,
                priority: i as u32,
            },
    )
}

/// Renumbers `records` to list order, consuming them.
fn renumber(records: Vec<ModRecord>) -> (r: Vec<ModRecord>)
    requires
        records@.len() <= 0xFFFF_FFFF,
    ensures
        r@ == spec_renumber(records@),
{
    let mut out: Vec<ModRecord> = Vec::new();
    let mut i: usize = 0;
    while i < records.len()
        invariant
            i <= records@.len(),
            records@.len() <= 0xFFFF_FFFF,
            out@.len() == i,
            forall|k: int| 0 <= k < i ==> out@[k] == spec_renumber(records@)[k],
        decreases records@.len() - i,
    {
        let rec = &records[i];
        out.push(ModRecord { name: rec.name.clone(), enabled: rec.enabled, priority: i as u32 });
        i = i + 1;
    }
    assert(out@ =~= spec_renumber(records@));
    out
}

impl SettingsDoc {
    /// Reconciles the list against the installed folder names: every record
    /// whose name has no folder on disk is dropped, and when anything was
    /// dropped the survivors are renumbered to list order. Returns how many
    /// records were dropped.
    pub fn reconcile(&mut self, present: &Vec<String>) -> (removed: usize)
        requires
            old(self).records@.len() <= 0xFFFF_FFFF,
        ensures
            final(self).disable_all == old(self).disable_all,
            removed == old(self).records@.len() - spec_keep_present(
                old(self).records@,
                present@,
            ).len(),
            removed == 0 ==> final(self).records@ == old(self).records@,
            removed > 0 ==> final(self).records@ == spec_renumber(
                spec_keep_present(old(self).records@, present@),
            ),
    {
        let ghost orig = self.records@;
        let mut kept: Vec<ModRecord> = Vec::new();
        let mut any_removed = false;
        let mut i: usize = 0;
        while i < self.records.len()
            invariant
                i <= self.records@.len(),
                orig == self.records@,
                kept@ + spec_keep_present_from(orig, present@, i as int) == spec_keep_present(
                    orig,
                    present@,
                ),
                kept@.len() <= i,
                any_removed == (kept@.len() < i),
            decreases self.records@.len() - i,
        {
            let ghost prev = kept@;
            if name_present(present, self.records[i].name.as_str()) {
                kept.push(self.records[i].duplicate());
                proof {
                    assert(kept@ =~= prev + seq![orig[i as int]]);
                    assert(prev + (seq![orig[i as int]] + spec_keep_present_from(
                        orig,
                        present@,
                        i + 1,
                    )) =~= (prev + seq![orig[i as int]]) + spec_keep_present_from(
                        orig,
                        present@,
                        i + 1,
                    ));
                }
            } else {
                any_removed = true;
            }
            i = i + 1;
        }
        proof {
            assert(kept@ =~= kept@ + spec_keep_present_from(orig, present@, i as int));
        }
        let removed = self.records.len() - kept.len();
        if any_removed {
            self.records = renumber(kept);
        } else {
            proof {
                lemma_keep_present_len(orig, present@, 0);
                assert(kept@ =~= orig);
            }
            self.records = kept;
        }
        removed
    }

    /// Removes every record named `name` (case-insensitively) and renumbers
    /// the survivors to list order.
    pub fn delete_entry(&mut self, name: &str)
        requires
            old(self).records@.len() <= 0xFFFF_FFFF,
        ensures
            final(self).disable_all == old(self).disable_all,
            final(self).records@ == spec_renumber(spec_remove_name(old(self).records@, name@)),
    {
        let ghost orig = self.records@;
        let mut kept: Vec<ModRecord> = Vec::new();
        let mut i: usize = 0;
        while i < self.records.len()
            invariant
                i <= self.records@.len(),
                orig == self.records@,
                kept@ + spec_remove_name_from(orig, name@, i as int) == spec_remove_name(
                    orig,
                    name@,
                ),
                kept@.len() <= i,
            decreases self.records@.len() - i,
        {
            let ghost prev = kept@;
            if !eq_ignore_case(self.records[i].name.as_str(), name) {
                kept.push(self.records[i].duplicate());
                proof {
                    assert(kept@ =~= prev + seq![orig[i as int]]);
                    assert(prev + (seq![orig[i as int]] + spec_remove_name_from(orig, name@, i + 1))
                        =~= (prev + seq![orig[i as int]]) + spec_remove_name_from(
                        orig,
                        name@,
                        i + 1,
                    ));
                }
            }
            i = i + 1;
        }
        proof {
            assert(kept@ =~= kept@ + spec_remove_name_from(orig, name@, i as int));
        }
        self.records = renumber(kept);
    }

    /// Renames the first record whose display name equals `old_name`
    /// exactly; the new display name is stored ASCII-uppercased, as the game
    /// writes it. Fails exactly when no record carries `old_name`.
    pub fn rename_entry(&mut self, old_name: &str, new_name: &str) -> (r: Result<
        (),
        EngineError,
    >)
        ensures
            final(self).disable_all == old(self).disable_all,
            match r {
                Ok(_) => {
                    &&& spec_find_name(old(self).records@, old_name@) matches Some(j)
                    &&& final(self).records@.len() == old(self).records@.len()
                    &&& final(self).records@[j].name@ == spec_upper(new_name@)
                    &&& final(self).records@[j].enabled == old(self).records@[j].enabled
                    &&& final(self).records@[j].priority == old(self).records@[j].priority
                    &&& forall|k: int|
                        0 <= k < old(self).records@.len() && k != j ==> final(self).records@[k]
                            == old(self).records@[k]
                },
                Err(e) => {
                    &&& e matches EngineError::NotFound(_)
                    &&& spec_find_name(old(self).records@, old_name@) is None
                    &&& final(self).records@ == old(self).records@
                },
            },
    {
        let ghost orig = self.records@;
        let mut i: usize = 0;
        while i < self.records.len()
            invariant
                i <= self.records@.len(),
                orig == self.records@,
                orig == old(self).records@,
                self.disable_all == old(self).disable_all,
                spec_find_name(orig, old_name@) == spec_find_name_from(orig, old_name@, i as int),
            decreases self.records@.len() - i,
        {
            if str_eq(self.records[i].name.as_str(), old_name) {
                let renamed = ModRecord {
                    name: upper_string(new_name),
                    enabled: self.records[i].enabled,
                    priority: self.records[i].priority,
                };
                self.records.set(i, renamed);
                proof {
                    assert(orig[i as int].name@ == old_name@);
                    assert(spec_find_name(orig, old_name@) == Some(i as int));
                    assert(self.records@[i as int].name@ == spec_upper(new_name@));
                    assert(self.records@ == orig.update(
                        i as int,
                        ModRecord {
                            name: self.records@[i as int].name,
                            enabled: orig[i as int].enabled,
                            priority: orig[i as int].priority,
                        },
                    ));
                }
                return Ok(());
            }
            i = i + 1;
        }
        Err(EngineError::NotFound(old_name.to_owned()))
    }
}

/// What picking entries for an explicit name list, one name at a time,
/// leaves: the entries taken so far (in the order their names were given)
/// and the entries still unmatched (in their original relative order). Each
/// name takes the first remaining entry whose stored name equals its
/// ASCII-uppercase image; a name with no match takes nothing.
pub open spec fn spec_reorder_pick(records: Seq<ModRecord>, names: Seq<String>, i: int) -> (
    Seq<ModRecord>,
    Seq<ModRecord>,
)
    decreases i,
{
    if i <= 0 {
        (Seq::empty(), records)
    } else {
        let (taken, remaining) = spec_reorder_pick(records, names, i - 1);
        match spec_find_name(remaining, spec_upper(names[i - 1]@)) {
            None => (taken, remaining),
            Some(j) => (taken.push(remaining[j]), remaining.remove(j)),
        }
    }
}

/// The reordered list: matched entries first, in the order their names were
/// given, then the unmatched ones in their original relative order, all
/// renumbered to list order.
pub open spec fn spec_reorder(records: Seq<ModRecord>, names: Seq<String>) -> Seq<ModRecord> {
    let (taken, remaining) = spec_reorder_pick(records, names, names.len() as int);
    spec_renumber(taken + remaining)
}

/// Finds the first record whose name equals `key` exactly.
fn find_name(records: &Vec<ModRecord>, key: &str) -> (r: Option<usize>)
    ensures
        match r {
            Some(j) => j < records@.len() && spec_find_name(records@, key@) == Some(j as int),
            None => spec_find_name(records@, key@) is None,
        },
{
    let mut i: usize = 0;
    while i < records.len()
        invariant
            i <= records@.len(),
            spec_find_name(records@, key@) == spec_find_name_from(records@, key@, i as int),
        decreases records@.len() - i,
    {
        if str_eq(records[i].name.as_str(), key) {
            return Some(i);
        }
        i = i + 1;
    }
    None
}

impl SettingsDoc {
    /// Reorders the list by an explicit sequence of names: each name claims
    /// the first entry stored under its ASCII-uppercase image, claimed
    /// entries come first in the given order, unmatched entries follow in
    /// their original relative order, and priorities are renumbered.
    pub fn reorder(&mut self, ordered_names: &Vec<String>)
        requires
            old(self).records@.len() <= 0xFFFF_FFFF,
        ensures
            final(self).disable_all == old(self).disable_all,
            final(self).records@ == spec_reorder(old(self).records@, ordered_names@),
    {
        let ghost orig = self.records@;
        let mut taken: Vec<ModRecord> = Vec::new();
        let mut remaining: Vec<ModRecord> = Vec::new();
        let mut i: usize = 0;
        while i < self.records.len()
            invariant
                i <= self.records@.len(),
                orig == self.records@,
                remaining@ =~= orig.take(i as int),
            decreases self.records@.len() - i,
        {
            remaining.push(self.records[i].duplicate());
            assert(remaining@ =~= orig.take(i + 1));
            i = i + 1;
        }
        assert(remaining@ =~= orig);
        let mut n: usize = 0;
        while n < ordered_names.len()
            invariant
                n <= ordered_names@.len(),
                (taken@, remaining@) == spec_reorder_pick(orig, ordered_names@, n as int),
                taken@.len() + remaining@.len() == orig.len(),
                orig.len() <= 0xFFFF_FFFF,
            decreases ordered_names@.len() - n,
        {
            let key = upper_string(ordered_names[n].as_str());
            match find_name(&remaining, key.as_str()) {
                Some(j) => {
                    let rec = remaining.remove(j);
                    taken.push(rec);
                },
                None => {},
            }
            n = n + 1;
        }
        let ghost takenv = taken@;
        let ghost remv = remaining@;
        let mut all = taken;
        all.append(&mut remaining);
        assert(all@ == takenv + remv);
        self.records = renumber(all);
    }
}

/// The first record index whose display name equals `name` exactly.
pub open spec fn spec_find_name_from(records: Seq<ModRecord>, name: Seq<char>, i: int) -> Option<
    int,
>
    decreases records.len() - i,
{
    if i < 0 || i >= records.len() {
        None
    } else if records[i].name@ == name {
        Some(i)
    } else {
        spec_find_name_from(records, name, i + 1)
    }
}

pub open spec fn spec_find_name(records: Seq<ModRecord>, name: Seq<char>) -> Option<int> {
    spec_find_name_from(records, name, 0)
}

/// One row of the rendered mod list: a priority-list record joined with the
/// sidecar descriptor of the folder it names, when one was read.
#[derive(Debug)]
pub struct ModRenderData {
    pub folder_name: String,
    pub enabled: bool,
    pub priority: u32,
    pub local_info: Option<ModInfo>,
}

/// The sidecar of the first folder named exactly `name`.
pub open spec fn spec_lookup_info_from(
    infos: Seq<(String, ModInfo)>,
    name: Seq<char>,
    i: int,
) -> Option<ModInfo>
    decreases infos.len() - i,
{
    if i < 0 || i >= infos.len() {
        None
    } else if infos[i].0@ == name {
        Some(infos[i].1)
    } else {
        spec_lookup_info_from(infos, name, i + 1)
    }
}

pub open spec fn spec_lookup_info(infos: Seq<(String, ModInfo)>, name: Seq<char>) -> Option<
    ModInfo,
> {
    spec_lookup_info_from(infos, name, 0)
}

/// Each record joined with the sidecar of the folder it names, in list
/// order.
pub open spec fn spec_render_join(records: Seq<ModRecord>, infos: Seq<(String, ModInfo)>) -> Seq<
    ModRenderData,
> {
    Seq::new(
        records.len(),
        |i: int|
            ModRenderData {
                folder_name: records[i].name,
                enabled: records[i].enabled,
                priority: records[i].priority,
                local_info: spec_lookup_info(infos, records[i].name@),
            },
    )
}

fn lookup_info(infos: &Vec<(String, ModInfo)>, name: &str) -> (r: Option<ModInfo>)
    ensures
        r == spec_lookup_info(infos@, name@),
{
    let mut i: usize = 0;
    while i < infos.len()
        invariant
            i <= infos@.len(),
            spec_lookup_info(infos@, name@) == spec_lookup_info_from(infos@, name@, i as int),
        decreases infos@.len() - i,
    {
        if str_eq(infos[i].0.as_str(), name) {
            return Some(infos[i].1.duplicate());
        }
        i = i + 1;
    }
    None
}

/// The first index whose row has a priority above `pr` (the length when
/// none has).
fn insertion_point(out: &Vec<ModRenderData>, pr: u32) -> (p: usize)
    ensures
        p <= out@.len(),
        forall|k: int| 0 <= k < p ==> #[trigger] out@[k].priority <= pr,
        p < out@.len() ==> out@[p as int].priority > pr,
{
    let mut p: usize = 0;
    while p < out.len()
        invariant
            p <= out@.len(),
            forall|k: int| 0 <= k < p ==> #[trigger] out@[k].priority <= pr,
        decreases out@.len() - p,
    {
        if out[p].priority > pr {
            return p;
        }
        p = p + 1;
    }
    p
}

/// Sorts rows by ascending priority; the result holds exactly the given
/// rows.
fn sort_by_priority(rows: Vec<ModRenderData>) -> (r: Vec<ModRenderData>)
    ensures
        r@.to_multiset() == rows@.to_multiset(),
        forall|a: int, b: int|
            0 <= a < b < r@.len() ==> #[trigger] r@[a].priority <= #[trigger] r@[b].priority,
{
    broadcast use vstd::seq_lib::group_to_multiset_ensures;
    broadcast use vstd::multiset::group_multiset_axioms;

    let mut rows = rows;
    let ghost orig = rows@;
    let mut out: Vec<ModRenderData> = Vec::new();
    let ghost done: Seq<ModRenderData> = Seq::empty();
    let mut i: usize = 0;
    while i < rows.len()
        invariant
            i <= rows@.len(),
            orig == rows@,
            out@.to_multiset() == orig.take(i as int).to_multiset(),
            forall|a: int, b: int|
                0 <= a < b < out@.len() ==> #[trigger] out@[a].priority <= #[trigger] out@[
                    b
                ].priority,
        decreases rows@.len() - i,
    {
        let x = ModRenderData {
            folder_name: rows[i].folder_name.clone(),
            enabled: rows[i].enabled,
            priority: rows[i].priority,
            local_info: match &rows[i].local_info {
                Some(info) => Some(info.duplicate()),
                None => None,
            },
        };
        proof {
            assert(x == orig[i as int]);
        }
        let p = insertion_point(&out, x.priority);
        let ghost before = out@;
        out.insert(p, x);
        proof {
            broadcast use vstd::seq_lib::group_to_multiset_ensures;
            broadcast use vstd::multiset::group_multiset_axioms;

            let x_g = orig[i as int];
            assert(out@ == before.insert(p as int, x_g));
            assert(before.insert(p as int, x_g).to_multiset() == before.to_multiset().insert(x_g));
            assert(orig.take(i + 1) =~= orig.take(i as int).push(x_g));
            assert(orig.take(i as int).push(x_g).to_multiset() == orig.take(
                i as int,
            ).to_multiset().insert(x_g));
            assert forall|a: int, b: int| 0 <= a < b < out@.len() implies #[trigger] out@[
                a
            ].priority <= #[trigger] out@[b].priority by {
                if b < p {
                    assert(out@[a] == before[a] && out@[b] == before[b]);
                } else if a < p && b == p {
                    assert(out@[a] == before[a]);
                } else if a < p && b > p {
                    assert(out@[a] == before[a] && out@[b] == before[b - 1]);
                } else if a == p {
                    assert(out@[b] == before[b - 1]);
                    assert(b - 1 >= p);
                } else {
                    assert(out@[a] == before[a - 1] && out@[b] == before[b - 1]);
                }
            }
        }
        i = i + 1;
    }
    proof {
        assert(orig.take(i as int) =~= orig);
    }
    out
}

/// Joins the priority list with the installed folders' sidecars and returns
/// the rows sorted by ascending priority: exactly one row per record, each
/// carrying the sidecar of the first folder whose name matches the record's
/// exactly.
pub fn render_list(doc: &SettingsDoc, infos: &Vec<(String, ModInfo)>) -> (r: Vec<ModRenderData>)
    ensures
        r@.to_multiset() == spec_render_join(doc.records@, infos@).to_multiset(),
        forall|a: int, b: int|
            0 <= a < b < r@.len() ==> #[trigger] r@[a].priority <= #[trigger] r@[b].priority,
{
    let mut rows: Vec<ModRenderData> = Vec::new();
    let mut i: usize = 0;
    while i < doc.records.len()
        invariant
            i <= doc.records@.len(),
            rows@.len() == i,
            forall|k: int|
                0 <= k < i ==> rows@[k] == #[trigger] spec_render_join(doc.records@, infos@)[k],
        decreases doc.records@.len() - i,
    {
        let rec = &doc.records[i];
        let row = ModRenderData {
            folder_name: rec.name.clone(),
            enabled: rec.enabled,
            priority: rec.priority,
            local_info: lookup_info(infos, rec.name.as_str()),
        };
        rows.push(row);
        i = i + 1;
    }
    assert(rows@ =~= spec_render_join(doc.records@, infos@));
    sort_by_priority(rows)
}

/// After a reconciliation that dropped anything, the surviving records'
/// priorities are exactly the contiguous sequence `0..count` in list order,
/// and every surviving name has a folder on disk.
pub proof fn lemma_reconcile_contiguous(records: Seq<ModRecord>, present: Seq<String>)
    requires
        records.len() <= 0xFFFF_FFFF,
    ensures
        forall|i: int|
            0 <= i < spec_renumber(spec_keep_present(records, present)).len()
                ==> #[trigger] spec_renumber(spec_keep_present(records, present))[i].priority == i,
        forall|i: int|
            0 <= i < spec_renumber(spec_keep_present(records, present)).len()
                ==> spec_name_present(
                present,
                #[trigger] spec_renumber(spec_keep_present(records, present))[i].name@,
            ),
{
    lemma_keep_present_sound(records, present, 0);
    lemma_keep_present_len(records, present, 0);
}

/// `spec_keep_present_from` keeps at most the records it inspects, and keeps
/// them all exactly when it drops none.
pub proof fn lemma_keep_present_len(records: Seq<ModRecord>, present: Seq<String>, i: int)
    requires
        0 <= i <= records.len(),
    ensures
        spec_keep_present_from(records, present, i).len() <= records.len() - i,
        spec_keep_present_from(records, present, i).len() == records.len() - i
            ==> spec_keep_present_from(records, present, i) == records.skip(i),
    decreases records.len() - i,
{
    if i < records.len() {
        lemma_keep_present_len(records, present, i + 1);
        let rest = spec_keep_present_from(records, present, i + 1);
        let whole = spec_keep_present_from(records, present, i);
        if whole.len() == records.len() - i {
            assert(rest == records.skip(i + 1));
            assert(whole =~= records.skip(i));
        }
    } else {
        assert(spec_keep_present_from(records, present, i) =~= records.skip(i));
    }
}

/// Every record kept by `spec_keep_present_from` has its folder present.
proof fn lemma_keep_present_sound(records: Seq<ModRecord>, present: Seq<String>, i: int)
    ensures
        forall|k: int|
            0 <= k < spec_keep_present_from(records, present, i).len() ==> spec_name_present(
                present,
                #[trigger] spec_keep_present_from(records, present, i)[k].name@,
            ),
    decreases records.len() - i,
{
    if 0 <= i < records.len() {
        lemma_keep_present_sound(records, present, i + 1);
        let rest = spec_keep_present_from(records, present, i + 1);
        let whole = spec_keep_present_from(records, present, i);
        if spec_name_present(present, records[i].name@) {
            assert forall|k: int| 0 <= k < whole.len() implies spec_name_present(
                present,
                whole[k].name@,
            ) by {
                if k == 0 {
                    assert(whole[0] == records[i]);
                } else {
                    assert(whole[k] == rest[k - 1]);
                }
            }
        }
    }
}

} // verus!
