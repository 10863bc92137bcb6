//! Which skills are due for an update without asking.

use vstd::prelude::*;
use crate::skill_store::{is_listing, setting_of, update_times, SkillRecord, SkillStore};
use crate::text::str_eq;

verus! {

/// Whether a skill came from a Git repository, as a predicate.
pub open spec fn from_git() -> spec_fn(SkillRecord) -> bool {
    |s: SkillRecord| s.source_type@ == "git"@
}

/// Whether `result` holds the skills that are due: none where updates
/// without asking are off, and else those that came from a Git
/// repository, the latest updated first, in the given order of the
/// skills.
pub open spec fn is_due(result: Seq<SkillRecord>, store: &SkillStore, order: Seq<usize>) -> bool {
    if setting_of(store@.settings, "auto_update_enabled"@) == Some("true"@) {
        exists|listed: Seq<SkillRecord>|
            #![trigger is_listing(listed, store@.skills, update_times(store@.skills), order)]
            is_listing(listed, store@.skills, update_times(store@.skills), order) && result
                == listed.filter(from_git())
    } else {
        result.len() == 0
    }
}

/// The skills that are due for an update without asking.
pub fn check_auto_updates(store: &SkillStore) -> (r: Vec<SkillRecord>)
    requires
        store.wf(),
    ensures
        exists|order: Seq<usize>| #[trigger] is_due(r@, store, order),
{
    if !store.get_auto_update_enabled() {
        let out: Vec<SkillRecord> = Vec::new();
        assert(is_due(out@, store, Seq::<usize>::empty()));
        return out;
    }
    let all = store.list_skills();
    let ghost order = choose|order: Seq<usize>| #[trigger]
        is_listing(all@, store@.skills, update_times(store@.skills), order);
    assert(is_listing(all@, store@.skills, update_times(store@.skills), order));
    let mut out: Vec<SkillRecord> = Vec::new();
    let mut i: usize = 0;
    proof {
        reveal(Seq::filter);
        assert(out@ =~= all@.take(0).filter(from_git()));
    }
    while i < all.len()
        invariant
            i <= all.len(),
            out@ == all@.take(i as int).filter(from_git()),
        decreases all.len() - i,
    {
        proof {
            all@.lemma_take_succ_push(i as int);
            all@.take(i as int).lemma_filter_push(all@[i as int], from_git());
        }
        if str_eq(all[i].source_type.as_str(), "git") {
            out.push(all[i].clone());
        }
        i = i + 1;
    }
    proof {
        all@.lemma_take_len();
        assert(is_due(out@, store, order));
    }
    out
}

} // verus!
