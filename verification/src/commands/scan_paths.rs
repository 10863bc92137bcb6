//! What goes with a directory that is no longer scanned.

use vstd::prelude::*;
use crate::distinct::texts;
use crate::skill_store::{is_listing, update_times, SkillRecord, SkillStore};
use crate::text::str_starts_with;

verus! {

/// Whether a skill came from below the directory, by the text of where
/// it came from, as a predicate.
pub open spec fn from_scan_path(path: Seq<char>) -> spec_fn(SkillRecord) -> bool {
    |s: SkillRecord| s.source_ref matches Some(r) && path.is_prefix_of(r@)
}

/// Whether `result` holds the skills that came from below the directory,
/// the latest updated first, in the given order of the skills.
pub open spec fn is_scan_path_listing(
    result: Seq<SkillRecord>,
    skills: Seq<SkillRecord>,
    path: Seq<char>,
    order: Seq<usize>,
) -> bool {
    exists|listed: Seq<SkillRecord>|
        #![trigger is_listing(listed, skills, update_times(skills), order)]
        is_listing(listed, skills, update_times(skills), order) && result == listed.filter(
            from_scan_path(path),
        )
}

/// The skills that came from below a directory, which are removed with
/// it, the latest updated first.
pub fn remove_scan_path(store: &SkillStore, path: &str) -> (r: Vec<SkillRecord>)
    ensures
        exists|order: Seq<usize>| #[trigger] is_scan_path_listing(r@, store@.skills, path@, order),
{
    let all = store.list_skills();
    let ghost order = choose|order: Seq<usize>| #[trigger]
        is_listing(all@, store@.skills, update_times(store@.skills), order);
    assert(is_listing(all@, store@.skills, update_times(store@.skills), order));
    let ghost pick = from_scan_path(path@);
    let mut out: Vec<SkillRecord> = Vec::new();
    let mut i: usize = 0;
    proof {
        reveal(Seq::filter);
        assert(out@ =~= all@.take(0).filter(pick));
    }
    while i < all.len()
        invariant
            i <= all.len(),
            pick == from_scan_path(path@),
            out@ == all@.take(i as int).filter(pick),
        decreases all.len() - i,
    {
        proof {
            all@.lemma_take_succ_push(i as int);
            all@.take(i as int).lemma_filter_push(all@[i as int], pick);
        }
        let under = match &all[i].source_ref {
            Some(r) => str_starts_with(r.as_str(), path),
            None => false,
        };
        if under {
            out.push(all[i].clone());
        }
        i = i + 1;
    }
    proof {
        all@.lemma_take_len();
        assert(is_scan_path_listing(out@, store@.skills, path@, order));
    }
    out
}

/// The failures, each after a line feed, a hyphen and a blank.
pub open spec fn listed_failures(failures: Seq<Seq<char>>) -> Seq<char>
    decreases failures.len(),
{
    if failures.len() == 0 {
        Seq::empty()
    } else {
        listed_failures(failures.drop_last()) + "\n- "@ + failures.last()
    }
}

/// What is said where the directory is no longer scanned but some of
/// the files could not be removed; nothing where all could.
pub fn cleanup_failure(failures: &Vec<String>) -> (r: Option<String>)
    ensures
        match r {
            Some(m) => failures@.len() > 0 && m@ == "已删除扫描路径，但清理部分文件失败："@
                + listed_failures(texts(failures@)),
            None => failures@.len() == 0,
        },
{
    if failures.len() == 0 {
        return None;
    }
    let ghost all = texts(failures@);
    let mut out = "已删除扫描路径，但清理部分文件失败：".to_string();
    let mut i: usize = 0;
    assert(all.take(0) =~= Seq::<Seq<char>>::empty());
    assert(out@ =~= "已删除扫描路径，但清理部分文件失败："@ + listed_failures(all.take(0)));
    while i < failures.len()
        invariant
            i <= failures.len(),
            all == texts(failures@),
            out@ == "已删除扫描路径，但清理部分文件失败："@ + listed_failures(all.take(i as int)),
        decreases failures.len() - i,
    {
        proof {
            assert(all.take(i + 1).drop_last() =~= all.take(i as int));
            assert(all.take(i + 1).last() == failures@[i as int]@);
        }
        let ghost before = out@;
        out.append("\n- ");
        out.append(failures[i].as_str());
        proof {
            assert(out@ =~= "已删除扫描路径，但清理部分文件失败："@ + listed_failures(
                all.take(i + 1),
            ));
        }
        i = i + 1;
    }
    proof {
        all.lemma_take_len();
    }
    Some(out)
}

} // verus!
