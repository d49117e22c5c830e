//! The conflict resolver: completes or abandons one staged installation.
//!
//! A staged conflict names the candidate's folder and the installed folder it
//! collides with. The user's decision either promotes the staged tree —
//! deleting the old folder first when it is still present — or discards it;
//! either way the staging area is freed. The actual filesystem work is the
//! caller's; decided here is what that work is and what the installed set
//! looks like afterwards.

use vstd::prelude::*;
use crate::text::spec_contains_ci;
use crate::text::spec_eq_ci;
use crate::text::contains_ci;
use crate::text::eq_ignore_case;

verus! {

/// What the caller must do with the staged tree.
#[derive(Debug)]
pub enum ResolveAction {
    /// Delete the installed folder first when `delete_old` is set, then move
    /// the staged tree into the game directory under the new name.
    Promote { delete_old: bool },
    /// Delete the staged tree; the game directory is untouched.
    Discard,
}

/// The installed folder names from index `i` on with `key` removed,
/// case-insensitively.
pub open spec fn spec_remove_ci_from(names: Seq<Seq<char>>, key: Seq<char>, i: int) -> Seq<
    Seq<char>,
>
    decreases names.len() - i,
{
    if i < 0 || i >= names.len() {
        Seq::empty()
    } else if spec_eq_ci(names[i], key) {
        spec_remove_ci_from(names, key, i + 1)
    } else {
        seq![names[i]] + spec_remove_ci_from(names, key, i + 1)
    }
}

pub open spec fn spec_remove_ci(names: Seq<Seq<char>>, key: Seq<char>) -> Seq<Seq<char>> {
    spec_remove_ci_from(names, key, 0)
}

/// Applies a replace/discard decision to the installed set. With `replace`
/// the old folder leaves the set and the new name joins it; without, the set
/// is unchanged. The returned action tells the caller what to do with the
/// staged tree, `delete_old` saying whether the old folder is actually
/// present to delete.
pub fn resolve_conflict(
    installed: &mut Vec<String>,
    new_name: &str,
    old_name: &str,
    replace: bool,
) -> (r: ResolveAction)
    ensures
        replace ==> (r matches ResolveAction::Promote { delete_old } && delete_old
            == spec_contains_ci(old(installed).deep_view(), old_name@) && {
            let kept = spec_remove_ci(old(installed).deep_view(), old_name@);
            final(installed).deep_view() == kept.push(new_name@)
        }),
        !replace ==> (r matches ResolveAction::Discard && final(installed)@ == old(installed)@),
{
    if !replace {
        return ResolveAction::Discard;
    }
    let delete_old = contains_ci(installed, old_name);
    let ghost orig = installed.deep_view();
    let mut kept: Vec<String> = Vec::new();
    let mut i: usize = 0;
    while i < installed.len()
        invariant
            i <= installed@.len(),
            orig == installed.deep_view(),
            kept.deep_view() + spec_remove_ci_from(orig, old_name@, i as int) == spec_remove_ci(
                orig,
                old_name@,
            ),
        decreases installed@.len() - i,
    {
        let ghost prev = kept.deep_view();
        proof {
            assert(orig[i as int] == installed@[i as int]@);
        }
        if !eq_ignore_case(installed[i].as_str(), old_name) {
            let ghost prevv = kept@;
            kept.push(installed[i].clone());
            proof {
                assert(kept@[prevv.len() as int]@ == orig[i as int]);
                assert(forall|k: int| 0 <= k < prevv.len() ==> kept@[k] == prevv[k]);
                assert(kept.deep_view() =~~= prev + seq![orig[i as int]]);
                assert(prev + (seq![orig[i as int]] + spec_remove_ci_from(orig, old_name@, i + 1))
                    =~~= (prev + seq![orig[i as int]]) + spec_remove_ci_from(
                    orig,
                    old_name@,
                    i + 1,
                ));
            }
        }
        i = i + 1;
    }
    proof {
        assert(kept.deep_view() =~~= kept.deep_view() + spec_remove_ci_from(
            orig,
            old_name@,
            i as int,
        ));
    }
    let ghost keptdv = kept.deep_view();
    let ghost prevv = kept@;
    kept.push(new_name.to_owned());
    proof {
        assert(kept@[prevv.len() as int]@ == new_name@);
        assert(forall|k: int| 0 <= k < prevv.len() ==> kept@[k] == prevv[k]);
        assert(kept.deep_view() =~~= keptdv.push(new_name@));
    }
    *installed = kept;
    ResolveAction::Promote { delete_old }
}

} // verus!
