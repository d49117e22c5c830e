//! The deployment engine: turns a selection over an extracted archive into
//! concrete move operations, and classifies each against the installed set.
//!
//! Planning resolves every selected path to a `(source, destination-name)`
//! pair — flattening discards wrapper directories down to the recognized mod
//! roots — and deduplicates destinations case-insensitively, first occurrence
//! winning. Classification routes an operation to the conflict path when its
//! sidecar's mod identifier matches an already-installed mod's, or when the
//! destination name is already taken on disk; everything else deploys
//! directly.

use vstd::prelude::*;
use crate::fstree::DirTree;
use crate::fstree::spec_subtree_at;
use crate::scan::spec_scan_results;
use crate::scan::scan_tree;
use crate::text::spec_child_rel;
use crate::text::spec_contains_ci;
use crate::text::spec_eq_ci;
use crate::text::spec_first_component;
use crate::text::spec_last_component;
use crate::text::contains_ci;
use crate::text::first_component;
use crate::text::last_component;
use crate::text::child_rel;
use crate::text::str_eq;

verus! {

/// One planned move: a source directory, named by its path relative to the
/// staging root (`.` for the root itself), and the folder name it is to be
/// installed under.
#[derive(Debug)]
pub struct MoveOp {
    pub source_rel: String,
    pub dest_name: String,
}

impl View for MoveOp {
    type V = (Seq<char>, Seq<char>);

    open spec fn view(&self) -> (Seq<char>, Seq<char>) {
        (self.source_rel@, self.dest_name@)
    }
}

impl DeepView for MoveOp {
    type V = (Seq<char>, Seq<char>);

    open spec fn deep_view(&self) -> (Seq<char>, Seq<char>) {
        self.view()
    }
}

/// One already-installed mod as seen by conflict detection: its external mod
/// identifier and its folder name.
#[derive(Debug, Clone)]
pub struct InstalledModRef {
    pub mod_id: String,
    pub folder_name: String,
}

impl View for InstalledModRef {
    type V = (Seq<char>, Seq<char>);

    open spec fn view(&self) -> (Seq<char>, Seq<char>) {
        (self.mod_id@, self.folder_name@)
    }
}

impl DeepView for InstalledModRef {
    type V = (Seq<char>, Seq<char>);

    open spec fn deep_view(&self) -> (Seq<char>, Seq<char>) {
        self.view()
    }
}

/// A staged conflict: the candidate's destination name and the installed
/// folder it collides with.
#[derive(Debug, Clone)]
pub struct ConflictRecord {
    pub new_mod_name: String,
    pub old_mod_folder_name: String,
}

/// The outcome of deployment planning and classification: folder names
/// deployed directly, and the conflicts awaiting a decision.
#[derive(Debug)]
pub struct InstallationAnalysis {
    pub successes: Vec<String>,
    pub conflicts: Vec<ConflictRecord>,
}

/// The path of a deep candidate `d` (relative to the selected directory)
/// relative to the staging root, where the selection itself is `sel`.
pub open spec fn spec_join_rel(sel: Seq<char>, d: Seq<char>) -> Seq<char> {
    if d == seq!['.'] {
        sel
    } else if sel == seq!['.'] {
        d
    } else {
        spec_child_rel(sel, d)
    }
}

/// The folder name a source is installed under: the last path component, or
/// the staging root's own directory name for the root itself.
pub open spec fn spec_dest_for(t: DirTree, eff: Seq<char>) -> Seq<char> {
    if eff == seq!['.'] {
        t.name@
    } else {
        spec_last_component(eff)
    }
}

/// The moves one selected path resolves to. A selection that no longer
/// exists in the tree is skipped. Flattening re-scans the selected subtree:
/// each recognized mod root is deployed under its own leaf name; a subtree
/// with no recognized structure falls back to the selected folder itself.
/// Without flattening the selection's top-level component is deployed as
/// named.
pub open spec fn spec_plan_item(t: DirTree, sel: Seq<char>, flatten: bool) -> Seq<
    (Seq<char>, Seq<char>),
> {
    match spec_subtree_at(t, sel) {
        None => Seq::empty(),
        Some(sub) => {
            if flatten {
                let deep = spec_scan_results(sub);
                if deep.len() > 0 {
                    Seq::new(
                        deep.len(),
                        |i: int|
                            {
                                let eff = spec_join_rel(sel, deep[i]);
                                (eff, spec_dest_for(t, eff))
                            },
                    )
                } else {
                    seq![(sel, spec_dest_for(t, sel))]
                }
            } else {
                seq![(spec_first_component(sel), spec_first_component(sel))]
            }
        },
    }
}

/// The raw move list of all selected paths from index `i` on, in order.
pub open spec fn spec_plan_raw(
    t: DirTree,
    items: Seq<Seq<char>>,
    flatten: bool,
    i: int,
) -> Seq<(Seq<char>, Seq<char>)>
    decreases items.len() - i,
{
    if i < 0 || i >= items.len() {
        Seq::empty()
    } else {
        spec_plan_item(t, items[i], flatten) + spec_plan_raw(t, items, flatten, i + 1)
    }
}

/// Whether `ops[i]` is the first operation with its destination name,
/// case-insensitively.
pub open spec fn spec_first_occurrence(ops: Seq<(Seq<char>, Seq<char>)>, i: int) -> bool {
    forall|j: int| 0 <= j < i ==> !spec_eq_ci(#[trigger] ops[j].1, ops[i].1)
}

/// The move list with duplicate destinations dropped: an operation survives
/// exactly when it is the first with its destination name.
pub open spec fn spec_dedup_from(ops: Seq<(Seq<char>, Seq<char>)>, i: int) -> Seq<
    (Seq<char>, Seq<char>),
>
    decreases ops.len() - i,
{
    if i < 0 || i >= ops.len() {
        Seq::empty()
    } else if spec_first_occurrence(ops, i) {
        seq![ops[i]] + spec_dedup_from(ops, i + 1)
    } else {
        spec_dedup_from(ops, i + 1)
    }
}

pub open spec fn spec_dedup(ops: Seq<(Seq<char>, Seq<char>)>) -> Seq<(Seq<char>, Seq<char>)> {
    spec_dedup_from(ops, 0)
}

/// The complete plan for a selection: every selected path resolved, then
/// destinations deduplicated. An empty selection stands for every top-level
/// directory of the staging tree.
pub open spec fn spec_plan(t: DirTree, selected: Seq<Seq<char>>, flatten: bool) -> Seq<
    (Seq<char>, Seq<char>),
> {
    let items = if selected.len() == 0 {
        Seq::new(t.dirs@.len(), |i: int| t.dirs@[i].name@)
    } else {
        selected
    };
    spec_dedup(spec_plan_raw(t, items, flatten, 0))
}

/// The external mod identifier of the directory a move takes its source
/// from, when that directory carries a sidecar descriptor naming one.
pub open spec fn spec_source_mod_id(t: DirTree, src: Seq<char>) -> Option<Seq<char>> {
    match spec_subtree_at(t, src) {
        None => None,
        Some(sub) => match sub.sidecar {
            None => None,
            Some(info) => match info.mod_id {
                None => None,
                Some(m) => Some(m@),
            },
        },
    }
}

/// The folder name of the first installed mod carrying the identifier `m`.
pub open spec fn spec_lookup_installed_from(
    installed: Seq<(Seq<char>, Seq<char>)>,
    m: Seq<char>,
    i: int,
) -> Option<Seq<char>>
    decreases installed.len() - i,
{
    if i < 0 || i >= installed.len() {
        None
    } else if installed[i].0 == m {
        Some(installed[i].1)
    } else {
        spec_lookup_installed_from(installed, m, i + 1)
    }
}

pub open spec fn spec_lookup_installed(
    installed: Seq<(Seq<char>, Seq<char>)>,
    m: Seq<char>,
) -> Option<Seq<char>> {
    spec_lookup_installed_from(installed, m, 0)
}

/// How one move is classified: `Some(old)` routes it to the conflict path
/// against the installed folder `old` — because its mod identifier matches
/// an installed mod's, or failing that because its destination name is
/// already taken — and `None` lets it deploy directly.
pub open spec fn spec_outcome(
    t: DirTree,
    installed: Seq<(Seq<char>, Seq<char>)>,
    existing: Seq<Seq<char>>,
    op: (Seq<char>, Seq<char>),
) -> Option<Seq<char>> {
    let by_id = match spec_source_mod_id(t, op.0) {
        None => None,
        Some(m) => spec_lookup_installed(installed, m),
    };
    match by_id {
        Some(old) => Some(old),
        None => if spec_contains_ci(existing, op.1) {
            Some(op.1)
        } else {
            None
        },
    }
}

/// The destination names of the moves from `i` on that deploy directly, in
/// order.
pub open spec fn spec_successes(
    t: DirTree,
    installed: Seq<(Seq<char>, Seq<char>)>,
    existing: Seq<Seq<char>>,
    ops: Seq<(Seq<char>, Seq<char>)>,
    i: int,
) -> Seq<Seq<char>>
    decreases ops.len() - i,
{
    if i < 0 || i >= ops.len() {
        Seq::empty()
    } else {
        let rest = spec_successes(t, installed, existing, ops, i + 1);
        if spec_outcome(t, installed, existing, ops[i]) is None {
            seq![ops[i].1] + rest
        } else {
            rest
        }
    }
}

/// The `(new name, old folder)` conflict pairs of the moves from `i` on, in
/// order.
pub open spec fn spec_conflicts(
    t: DirTree,
    installed: Seq<(Seq<char>, Seq<char>)>,
    existing: Seq<Seq<char>>,
    ops: Seq<(Seq<char>, Seq<char>)>,
    i: int,
) -> Seq<(Seq<char>, Seq<char>)>
    decreases ops.len() - i,
{
    if i < 0 || i >= ops.len() {
        Seq::empty()
    } else {
        let rest = spec_conflicts(t, installed, existing, ops, i + 1);
        match spec_outcome(t, installed, existing, ops[i]) {
            Some(old) => seq![(ops[i].1, old)] + rest,
            None => rest,
        }
    }
}

fn is_dot(s: &str) -> (r: bool)
    ensures
        r == (s@ == seq!['.']),
{
    if s.unicode_len() == 1 && s.get_char(0) == '.' {
        assert(s@ =~= seq!['.']);
        true
    } else {
        assert(s@ != seq!['.']);
        false
    }
}

fn join_rel(sel: &str, d: &str) -> (r: String)
    ensures
        r@ == spec_join_rel(sel@, d@),
{
    if is_dot(d) {
        sel.to_owned()
    } else if is_dot(sel) {
        d.to_owned()
    } else {
        child_rel(sel, d)
    }
}

fn dest_for(t: &DirTree, eff: &str) -> (r: String)
    ensures
        r@ == spec_dest_for(*t, eff@),
{
    if is_dot(eff) {
        t.name.clone()
    } else {
        last_component(eff)
    }
}

fn plan_item(t: &DirTree, sel: &str, flatten: bool) -> (r: Vec<MoveOp>)
    ensures
        r.deep_view() == spec_plan_item(*t, sel@, flatten),
{
    let mut out: Vec<MoveOp> = Vec::new();
    let sub = match t.subtree_at(sel) {
        None => {
            assert(out.deep_view() =~~= spec_plan_item(*t, sel@, flatten));
            return out;
        },
        Some(sub) => sub,
    };
    if flatten {
        let deep = scan_tree(sub);
        if deep.len() > 0 {
            let mut j: usize = 0;
            while j < deep.len()
                invariant
                    j <= deep@.len(),
                    deep.deep_view() == spec_scan_results(*sub),
                    deep@.len() > 0,
                    spec_subtree_at(*t, sel@) == Some(*sub),
                    out@.len() == j,
                    forall|k: int|
                        0 <= k < j ==> (#[trigger] out@[k]).deep_view() == {
                            let eff = spec_join_rel(sel@, deep@[k]@);
                            (eff, spec_dest_for(*t, eff))
                        },
                decreases deep@.len() - j,
            {
                let eff = join_rel(sel, deep[j].as_str());
                let dest = dest_for(t, eff.as_str());
                let ghost effv = eff@;
                let ghost destv = dest@;
                let ghost prev = out@;
                out.push(MoveOp { source_rel: eff, dest_name: dest });
                proof {
                    assert(out@[j as int].deep_view() == (effv, destv));
                    assert(forall|k: int| 0 <= k < j ==> out@[k] == prev[k]);
                }
                j = j + 1;
            }
            proof {
                let goal = spec_plan_item(*t, sel@, flatten);
                assert forall|k: int| 0 <= k < j implies out.deep_view()[k] == goal[k] by {
                    assert(out.deep_view()[k] == out@[k].deep_view());
                    assert(deep.deep_view()[k] == deep@[k]@);
                }
                assert(out.deep_view() =~~= goal);
            }
            out
        } else {
            let dest = dest_for(t, sel);
            out.push(MoveOp { source_rel: sel.to_owned(), dest_name: dest });
            assert(out.deep_view() =~~= spec_plan_item(*t, sel@, flatten));
            out
        }
    } else {
        let top = first_component(sel);
        let dest = top.clone();
        out.push(MoveOp { source_rel: top, dest_name: dest });
        assert(out.deep_view() =~~= spec_plan_item(*t, sel@, flatten));
        out
    }
}

fn dedup_ops(ops: Vec<MoveOp>) -> (r: Vec<MoveOp>)
    ensures
        r.deep_view() == spec_dedup(ops.deep_view()),
{
    let ghost opsdv = ops.deep_view();
    let mut out: Vec<MoveOp> = Vec::new();
    let mut seen: Vec<String> = Vec::new();
    let mut i: usize = 0;
    while i < ops.len()
        invariant
            i <= ops@.len(),
            opsdv == ops.deep_view(),
            seen@.len() == i,
            forall|j: int| 0 <= j < i ==> (#[trigger] seen@[j])@ == ops@[j].dest_name@,
            out.deep_view() + spec_dedup_from(opsdv, i as int) == spec_dedup(opsdv),
        decreases ops@.len() - i,
    {
        let dup = contains_ci(&seen, ops[i].dest_name.as_str());
        proof {
            assert(opsdv[i as int] == ops@[i as int].deep_view());
            if dup {
                let j = choose|j: int|
                    0 <= j < seen.deep_view().len() && spec_eq_ci(
                        seen.deep_view()[j],
                        ops@[i as int].dest_name@,
                    );
                assert(seen.deep_view()[j] == seen@[j]@);
                assert(opsdv[j] == ops@[j].deep_view());
                assert(spec_eq_ci(opsdv[j].1, opsdv[i as int].1));
                assert(!spec_first_occurrence(opsdv, i as int));
            } else {
                assert forall|j: int| 0 <= j < i implies !spec_eq_ci(
                    #[trigger] opsdv[j].1,
                    opsdv[i as int].1,
                ) by {
                    assert(seen.deep_view()[j] == seen@[j]@);
                    assert(opsdv[j] == ops@[j].deep_view());
                    assert(!spec_eq_ci(seen.deep_view()[j], ops@[i as int].dest_name@));
                }
                assert(spec_first_occurrence(opsdv, i as int));
            }
        }
        let ghost prev_out = out.deep_view();
        if !dup {
            let ghost prev = out@;
            out.push(
                MoveOp {
                    source_rel: ops[i].source_rel.clone(),
                    dest_name: ops[i].dest_name.clone(),
                },
            );
            proof {
                assert(out@[prev.len() as int].deep_view() == opsdv[i as int]);
                assert(forall|k: int| 0 <= k < prev.len() ==> out@[k] == prev[k]);
                assert(out.deep_view() =~~= prev_out + seq![opsdv[i as int]]);
                assert(prev_out + (seq![opsdv[i as int]] + spec_dedup_from(opsdv, i + 1)) =~~= (
                prev_out + seq![opsdv[i as int]]) + spec_dedup_from(opsdv, i + 1));
            }
        }
        let ghost prev_seen = seen@;
        seen.push(ops[i].dest_name.clone());
        proof {
            assert(seen@[i as int]@ == ops@[i as int].dest_name@);
            assert(forall|j: int| 0 <= j < i ==> seen@[j] == prev_seen[j]);
        }
        i = i + 1;
    }
    assert(out.deep_view() =~~= out.deep_view() + spec_dedup_from(ops.deep_view(), i as int));
    out
}

/// Resolves a selection to the deduplicated move list. An empty selection
/// stands for every top-level directory of the staging tree.
pub fn plan_moves(t: &DirTree, selected: &Vec<String>, flatten: bool) -> (r: Vec<MoveOp>)
    ensures
        r.deep_view() == spec_plan(*t, selected.deep_view(), flatten),
{
    let items: Vec<String> = if selected.len() == 0 {
        t.top_dir_names()
    } else {
        let mut copy: Vec<String> = Vec::new();
        let mut i: usize = 0;
        while i < selected.len()
            invariant
                i <= selected@.len(),
                copy@.len() == i,
                forall|j: int| 0 <= j < i ==> (#[trigger] copy@[j])@ == selected@[j]@,
            decreases selected@.len() - i,
        {
            let ghost prev = copy@;
            copy.push(selected[i].clone());
            proof {
                assert(copy@[i as int]@ == selected@[i as int]@);
                assert(forall|j: int| 0 <= j < i ==> copy@[j] == prev[j]);
            }
            i = i + 1;
        }
        proof {
            assert forall|k: int| 0 <= k < copy@.len() implies copy.deep_view()[k]
                == selected.deep_view()[k] by {
                assert(copy.deep_view()[k] == copy@[k]@);
                assert(selected.deep_view()[k] == selected@[k]@);
            }
            assert(copy.deep_view() =~~= selected.deep_view());
        }
        copy
    };
    let ghost items_dv = if selected.deep_view().len() == 0 {
        Seq::new(t.dirs@.len(), |i: int| t.dirs@[i].name@)
    } else {
        selected.deep_view()
    };
    assert(items.deep_view() =~~= items_dv);
    let mut raw: Vec<MoveOp> = Vec::new();
    let mut i: usize = 0;
    while i < items.len()
        invariant
            i <= items@.len(),
            items.deep_view() == items_dv,
            raw.deep_view() + spec_plan_raw(*t, items_dv, flatten, i as int) == spec_plan_raw(
                *t,
                items_dv,
                flatten,
                0,
            ),
        decreases items@.len() - i,
    {
        let ghost prev = raw.deep_view();
        let mut part = plan_item(t, items[i].as_str(), flatten);
        let ghost partdv = part.deep_view();
        raw.append(&mut part);
        proof {
            assert(raw.deep_view() =~~= prev + partdv);
            assert(prev + (partdv + spec_plan_raw(*t, items_dv, flatten, i + 1)) =~~= (prev
                + partdv) + spec_plan_raw(*t, items_dv, flatten, i + 1));
        }
        i = i + 1;
    }
    assert(raw.deep_view() =~~= raw.deep_view() + spec_plan_raw(*t, items_dv, flatten, i as int));
    dedup_ops(raw)
}

/// Finds the folder name of the first installed mod with identifier `m`.
fn lookup_installed(installed: &Vec<InstalledModRef>, m: &str) -> (r: Option<String>)
    ensures
        match r {
            Some(old) => spec_lookup_installed(installed.deep_view(), m@) == Some(old@),
            None => spec_lookup_installed(installed.deep_view(), m@) is None,
        },
{
    let mut i: usize = 0;
    while i < installed.len()
        invariant
            i <= installed@.len(),
            spec_lookup_installed(installed.deep_view(), m@) == spec_lookup_installed_from(
                installed.deep_view(),
                m@,
                i as int,
            ),
        decreases installed@.len() - i,
    {
        if str_eq(installed[i].mod_id.as_str(), m) {
            return Some(installed[i].folder_name.clone());
        }
        i = i + 1;
    }
    None
}

/// Classifies the moves against the installed snapshot and the folder names
/// already on disk, and splits them into direct deployments and staged
/// conflicts, each list in move order.
pub fn classify_moves(
    t: &DirTree,
    ops: &Vec<MoveOp>,
    installed: &Vec<InstalledModRef>,
    existing: &Vec<String>,
) -> (r: InstallationAnalysis)
    ensures
        r.successes.deep_view() == spec_successes(
            *t,
            installed.deep_view(),
            existing.deep_view(),
            ops.deep_view(),
            0,
        ),
        r.conflicts@.len() + r.successes@.len() == ops@.len(),
        forall|k: int|
            0 <= k < r.conflicts@.len() ==> (#[trigger] r.conflicts@[k].new_mod_name@,
            r.conflicts@[k].old_mod_folder_name@) == spec_conflicts(
                *t,
                installed.deep_view(),
                existing.deep_view(),
                ops.deep_view(),
                0,
            )[k],
        r.conflicts@.len() == spec_conflicts(
            *t,
            installed.deep_view(),
            existing.deep_view(),
            ops.deep_view(),
            0,
        ).len(),
{
    let ghost tdv = *t;
    let ghost insdv = installed.deep_view();
    let ghost exdv = existing.deep_view();
    let ghost opsdv = ops.deep_view();
    let mut successes: Vec<String> = Vec::new();
    let mut conflicts: Vec<ConflictRecord> = Vec::new();
    let mut i: usize = ops.len();
    while i > 0
        invariant
            i <= ops@.len(),
            tdv == *t,
            insdv == installed.deep_view(),
            exdv == existing.deep_view(),
            opsdv == ops.deep_view(),
            successes.deep_view() == spec_successes(tdv, insdv, exdv, opsdv, i as int),
            conflicts@.len() == spec_conflicts(tdv, insdv, exdv, opsdv, i as int).len(),
            forall|k: int|
                0 <= k < conflicts@.len() ==> (#[trigger] conflicts@[k].new_mod_name@,
                conflicts@[k].old_mod_folder_name@) == spec_conflicts(
                    tdv,
                    insdv,
                    exdv,
                    opsdv,
                    i as int,
                )[k],
            conflicts@.len() + successes@.len() == ops@.len() - i,
        decreases i,
    {
        i = i - 1;
        let op = &ops[i];
        proof {
            assert(opsdv[i as int] == ops@[i as int].deep_view());
            assert(opsdv[i as int] == (op.source_rel@, op.dest_name@));
        }
        let ghost smid = spec_source_mod_id(tdv, opsdv[i as int].0);
        let mod_id: Option<String> = match t.subtree_at(op.source_rel.as_str()) {
            None => {
                proof {
                    assert(smid is None);
                }
                None
            },
            Some(sub) => match &sub.sidecar {
                None => {
                    proof {
                        assert(smid is None);
                    }
                    None
                },
                Some(info) => match &info.mod_id {
                    None => {
                        proof {
                            assert(smid is None);
                        }
                        None
                    },
                    Some(m) => {
                        let mc = m.clone();
                        proof {
                            assert(smid == Some(mc@));
                        }
                        Some(mc)
                    },
                },
            },
        };
        proof {
            assert(mod_id is Some ==> smid == Some(mod_id->0@));
            assert(mod_id is None ==> smid is None);
        }
        let by_id: Option<String> = match mod_id {
            None => None,
            Some(m) => lookup_installed(installed, m.as_str()),
        };
        proof {
            let out_spec = spec_outcome(tdv, insdv, exdv, opsdv[i as int]);
            assert(by_id is Some ==> out_spec == Some(by_id->0@));
            assert(by_id is None ==> match smid {
                Some(m) => spec_lookup_installed(insdv, m) is None,
                None => true,
            });
        }
        let ghost prev_s = successes.deep_view();
        let ghost prev_c = conflicts@;
        let ghost spec_c = spec_conflicts(tdv, insdv, exdv, opsdv, i as int);
        let ghost spec_c_rest = spec_conflicts(tdv, insdv, exdv, opsdv, i + 1);
        match by_id {
            Some(old) => {
                proof {
                    assert(spec_outcome(tdv, insdv, exdv, opsdv[i as int]) == Some(old@));
                }
                conflicts.insert(
                    0,
                    ConflictRecord {
                        new_mod_name: op.dest_name.clone(),
                        old_mod_folder_name: old,
                    },
                );
                proof {
                    assert(conflicts@ =~= seq![conflicts@[0]] + prev_c);
                    assert forall|k: int| 0 <= k < conflicts@.len() implies (
                    #[trigger] conflicts@[k].new_mod_name@, conflicts@[k].old_mod_folder_name@)
                        == spec_c[k] by {
                        if k > 0 {
                            assert(conflicts@[k] == prev_c[k - 1]);
                            assert(spec_c[k] == spec_c_rest[k - 1]);
                        }
                    }
                }
            },
            None => {
                if contains_ci(existing, op.dest_name.as_str()) {
                    proof {
                        assert(spec_outcome(tdv, insdv, exdv, opsdv[i as int]) == Some(
                            opsdv[i as int].1,
                        ));
                    }
                    conflicts.insert(
                        0,
                        ConflictRecord {
                            new_mod_name: op.dest_name.clone(),
                            old_mod_folder_name: op.dest_name.clone(),
                        },
                    );
                    proof {
                        assert(conflicts@ =~= seq![conflicts@[0]] + prev_c);
                        assert forall|k: int| 0 <= k < conflicts@.len() implies (
                        #[trigger] conflicts@[k].new_mod_name@, conflicts@[k].old_mod_folder_name@)
                            == spec_c[k] by {
                            if k > 0 {
                                assert(conflicts@[k] == prev_c[k - 1]);
                                assert(spec_c[k] == spec_c_rest[k - 1]);
                            }
                        }
                    }
                } else {
                    proof {
                        assert(spec_outcome(tdv, insdv, exdv, opsdv[i as int]) is None);
                    }
                    successes.insert(0, op.dest_name.clone());
                    assert(successes.deep_view() =~~= seq![opsdv[i as int].1] + prev_s);
                }
            },
        }
    }
    InstallationAnalysis { successes, conflicts }
}

/// Every deduplicated operation is one of the originals, a first occurrence
/// of its destination name.
proof fn lemma_dedup_member(ops: Seq<(Seq<char>, Seq<char>)>, i: int, m: int)
    requires
        0 <= m < spec_dedup_from(ops, i).len(),
    ensures
        exists|j: int|
            i <= j < ops.len() && spec_dedup_from(ops, i)[m] == ops[j] && spec_first_occurrence(
                ops,
                j,
            ),
    decreases ops.len() - i,
{
    if 0 <= i < ops.len() {
        let whole = spec_dedup_from(ops, i);
        let rest = spec_dedup_from(ops, i + 1);
        if spec_first_occurrence(ops, i) {
            if m == 0 {
                assert(whole[0] == ops[i]);
            } else {
                assert(whole[m] == rest[m - 1]);
                lemma_dedup_member(ops, i + 1, m - 1);
            }
        } else {
            lemma_dedup_member(ops, i + 1, m);
        }
    }
}

/// Two distinct positions of the deduplicated list come from two distinct
/// originals, the later of which is a first occurrence.
proof fn lemma_dedup_pair(ops: Seq<(Seq<char>, Seq<char>)>, i: int, m1: int, m2: int)
    requires
        0 <= m1 < m2 < spec_dedup_from(ops, i).len(),
    ensures
        exists|j1: int, j2: int|
            i <= j1 < j2 < ops.len() && spec_dedup_from(ops, i)[m1] == ops[j1] && spec_dedup_from(
                ops,
                i,
            )[m2] == ops[j2] && spec_first_occurrence(ops, j2),
    decreases ops.len() - i,
{
    let whole = spec_dedup_from(ops, i);
    let rest = spec_dedup_from(ops, i + 1);
    if spec_first_occurrence(ops, i) {
        if m1 == 0 {
            assert(whole[0] == ops[i]);
            assert(whole[m2] == rest[m2 - 1]);
            lemma_dedup_member(ops, i + 1, m2 - 1);
            let j2 = choose|j2: int|
                i + 1 <= j2 < ops.len() && rest[m2 - 1] == ops[j2] && spec_first_occurrence(
                    ops,
                    j2,
                );
            assert(i <= i < j2 < ops.len() && whole[m1] == ops[i] && whole[m2] == ops[j2]
                && spec_first_occurrence(ops, j2));
        } else {
            assert(whole[m1] == rest[m1 - 1] && whole[m2] == rest[m2 - 1]);
            lemma_dedup_pair(ops, i + 1, m1 - 1, m2 - 1);
        }
    } else {
        lemma_dedup_pair(ops, i + 1, m1, m2);
    }
}

/// Deduplication leaves pairwise-distinct destination names, so the
/// conflict-isolation law below applies to every plan this module builds.
pub proof fn lemma_dedup_distinct_destinations(ops: Seq<(Seq<char>, Seq<char>)>)
    ensures
        forall|m1: int, m2: int|
            0 <= m1 < m2 < spec_dedup(ops).len() ==> !spec_eq_ci(
                (#[trigger] spec_dedup(ops)[m1]).1,
                (#[trigger] spec_dedup(ops)[m2]).1,
            ),
{
    assert forall|m1: int, m2: int| 0 <= m1 < m2 < spec_dedup(ops).len() implies !spec_eq_ci(
        (#[trigger] spec_dedup(ops)[m1]).1,
        (#[trigger] spec_dedup(ops)[m2]).1,
    ) by {
        lemma_dedup_pair(ops, 0, m1, m2);
        let (j1, j2) = choose|j1: int, j2: int|
            0 <= j1 < j2 < ops.len() && spec_dedup(ops)[m1] == ops[j1] && spec_dedup(ops)[m2]
                == ops[j2] && spec_first_occurrence(ops, j2);
        assert(!spec_eq_ci(ops[j1].1, ops[j2].1));
    }
}

/// An operation whose sidecar mod identifier matches an installed mod's is
/// always routed to the conflict path — its conflict pair, naming the
/// installed folder, appears in the classification — and it never deploys
/// directly: no direct deployment carries its destination name, provided
/// destination names are pairwise distinct (as `spec_dedup` leaves them).
pub proof fn lemma_id_conflict_never_direct(
    t: DirTree,
    installed: Seq<(Seq<char>, Seq<char>)>,
    existing: Seq<Seq<char>>,
    ops: Seq<(Seq<char>, Seq<char>)>,
    i: int,
    k: int,
    m: Seq<char>,
    old_name: Seq<char>,
)
    requires
        0 <= i <= k < ops.len(),
        spec_source_mod_id(t, ops[k].0) == Some(m),
        spec_lookup_installed(installed, m) == Some(old_name),
        forall|j1: int, j2: int|
            0 <= j1 < j2 < ops.len() ==> !spec_eq_ci(#[trigger] ops[j1].1, #[trigger] ops[j2].1),
    ensures
        spec_conflicts(t, installed, existing, ops, i).contains((ops[k].1, old_name)),
        !spec_successes(t, installed, existing, ops, i).contains(ops[k].1),
    decreases ops.len() - i,
{
    lemma_successes_are_other_dests(t, installed, existing, ops, i, k);
    if i == k {
        assert(spec_outcome(t, installed, existing, ops[k]) == Some(old_name));
        let c = spec_conflicts(t, installed, existing, ops, i);
        assert(c[0] == (ops[k].1, old_name));
        assert(c.contains((ops[k].1, old_name)));
    } else {
        lemma_id_conflict_never_direct(t, installed, existing, ops, i + 1, k, m, old_name);
        let rest = spec_conflicts(t, installed, existing, ops, i + 1);
        let j = choose|j: int| 0 <= j < rest.len() && rest[j] == (ops[k].1, old_name);
        match spec_outcome(t, installed, existing, ops[i]) {
            Some(old) => {
                let c = spec_conflicts(t, installed, existing, ops, i);
                assert(c[j + 1] == (ops[k].1, old_name));
                assert(c.contains((ops[k].1, old_name)));
            },
            None => {},
        }
    }
}

/// Every direct-deployment name from index `i` on is the destination of some
/// operation other than `k` (when `k`'s own outcome is a conflict), so under
/// pairwise-distinct destinations none of them is `ops[k].1`.
proof fn lemma_successes_are_other_dests(
    t: DirTree,
    installed: Seq<(Seq<char>, Seq<char>)>,
    existing: Seq<Seq<char>>,
    ops: Seq<(Seq<char>, Seq<char>)>,
    i: int,
    k: int,
)
    requires
        0 <= k < ops.len(),
        spec_outcome(t, installed, existing, ops[k]) is Some,
        forall|j1: int, j2: int|
            0 <= j1 < j2 < ops.len() ==> !spec_eq_ci(#[trigger] ops[j1].1, #[trigger] ops[j2].1),
    ensures
        !spec_successes(t, installed, existing, ops, i).contains(ops[k].1),
    decreases ops.len() - i,
{
    if 0 <= i < ops.len() {
        lemma_successes_are_other_dests(t, installed, existing, ops, i + 1, k);
        let rest = spec_successes(t, installed, existing, ops, i + 1);
        if spec_outcome(t, installed, existing, ops[i]) is None {
            let s = spec_successes(t, installed, existing, ops, i);
            assert(i != k);
            assert(!spec_eq_ci(ops[i].1, ops[k].1) || !spec_eq_ci(ops[k].1, ops[i].1));
            if ops[i].1 == ops[k].1 {
                assert(spec_eq_ci(ops[i].1, ops[k].1));
                assert(spec_eq_ci(ops[k].1, ops[i].1));
                assert(false);
            }
            assert forall|j: int| 0 <= j < s.len() implies s[j] != ops[k].1 by {
                if j == 0 {
                } else {
                    assert(s[j] == rest[j - 1]);
                    assert(!rest.contains(ops[k].1));
                }
            }
        }
    }
}

} // verus!
