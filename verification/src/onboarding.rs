//! The first-run plan: which skills were found in the directories of the
//! installed tools, and which of them differ under the same name.
//!
//! The directories are scanned by the caller. What is decided here is
//! which of the skills found are offered, and how they are grouped.

use vstd::prelude::*;
use crate::distinct::{distinct, lemma_distinct_step, lemma_texts_push, position, texts};
use crate::paths::{
    ascii_lower, normalize_path, normalized_path, path_starts_with, path_under,
    to_ascii_lowercase,
};
use crate::text::str_eq;

verus! {

/// The key of the tool whose skills take precedence over those of the
/// other tools.
pub const AGENTS_TOOL: &'static str = "agents";

/// A skill found in the directory of a tool.
#[derive(Debug)]
pub struct DetectedSkill {
    pub tool: String,
    pub name: String,
    pub path: String,
    pub is_link: bool,
    pub link_target: Option<String>,
}

impl Clone for DetectedSkill {
    fn clone(&self) -> (r: Self)
        ensures
            r == *self,
    {
        DetectedSkill {
            tool: self.tool.clone(),
            name: self.name.clone(),
            path: self.path.clone(),
            is_link: self.is_link,
            link_target: self.link_target.clone(),
        }
    }
}

/// One place at which a skill was found.
#[derive(Debug)]
pub struct OnboardingVariant {
    pub tool: String,
    pub name: String,
    pub path: String,
    pub fingerprint: Option<String>,
    pub is_link: bool,
    pub link_target: Option<String>,
}

impl Clone for OnboardingVariant {
    fn clone(&self) -> (r: Self)
        ensures
            r == *self,
    {
        OnboardingVariant {
            tool: self.tool.clone(),
            name: self.name.clone(),
            path: self.path.clone(),
            fingerprint: self.fingerprint.clone(),
            is_link: self.is_link,
            link_target: self.link_target.clone(),
        }
    }
}

/// The places at which a skill of one name was found.
#[derive(Debug)]
pub struct OnboardingGroup {
    pub name: String,
    pub variants: Vec<OnboardingVariant>,
    pub has_conflict: bool,
}

/// What the first run offers.
#[derive(Debug)]
pub struct OnboardingPlan {
    pub total_tools_scanned: usize,
    pub total_skills_found: usize,
    pub groups: Vec<OnboardingGroup>,
}

/// The key under which a target of a tool is known: the tool in lower
/// case, a line feed, and the path put together from its components.
pub open spec fn target_key(tool: Seq<char>, path: Seq<char>) -> Seq<char> {
    ascii_lower(tool) + "\n"@ + normalized_path(path)
}

/// Whether a path lies at or below a directory.
pub fn is_under(path: &str, base: &str) -> (r: bool)
    ensures
        r == path_under(path@, base@),
{
    path_starts_with(path, base)
}

/// A path put together again from its components.
pub fn normalize_path_for_key(path: &str) -> (r: String)
    ensures
        r@ == normalized_path(path@),
{
    normalize_path(path)
}

/// The key under which a target of a tool is known.
pub fn managed_target_key(tool: &str, path: &str) -> (r: String)
    ensures
        r@ == target_key(tool@, path@),
{
    let mut key = to_ascii_lowercase(tool);
    key.append("\n");
    key.append(normalize_path_for_key(path).as_str());
    key
}

/// Whether a skill lies in the directory that is left out, by its path or
/// by what it links to.
pub open spec fn in_excluded_root(skill: DetectedSkill, exclude_root: Option<Seq<char>>) -> bool {
    match exclude_root {
        Some(root) => path_under(skill.path@, root) || (skill.link_target matches Some(target)
            && path_under(target@, root)),
        None => false,
    }
}

/// Whether a skill is one of the targets that are managed already.
pub open spec fn is_managed(skill: DetectedSkill, managed: Option<Seq<Seq<char>>>) -> bool {
    match managed {
        Some(keys) => keys.contains(target_key(skill.tool@, skill.path@)),
        None => false,
    }
}

/// Whether a detected skill is kept: it lies outside the directory that
/// is left out, and is none of the managed targets.
pub open spec fn is_kept(
    exclude_root: Option<Seq<char>>,
    managed: Option<Seq<Seq<char>>>,
) -> spec_fn(DetectedSkill) -> bool {
    |skill: DetectedSkill| !in_excluded_root(skill, exclude_root) && !is_managed(skill, managed)
}

/// Whether a detected skill is offered: it is kept, no skill of its name
/// was found with the tool that takes precedence unless it was found
/// with that tool itself, and no skill of its name is installed.
pub open spec fn is_offered(
    exclude_root: Option<Seq<char>>,
    managed: Option<Seq<Seq<char>>>,
    precedes: bool,
    preceding_names: Seq<Seq<char>>,
    installed: Option<Seq<Seq<char>>>,
) -> spec_fn(DetectedSkill) -> bool {
    |skill: DetectedSkill|
        is_kept(exclude_root, managed)(skill) && (precedes || !preceding_names.contains(
            skill.name@,
        )) && !(installed matches Some(names) && names.contains(skill.name@))
}

/// What an optional text says.
pub open spec fn text_of(s: Option<&str>) -> Option<Seq<char>> {
    match s {
        Some(t) => Some(t@),
        None => None,
    }
}

/// What an optional list of texts says.
pub open spec fn texts_of(list: Option<&Vec<String>>) -> Option<Seq<Seq<char>>> {
    match list {
        Some(l) => Some(texts(l@)),
        None => None,
    }
}

fn kept(
    skill: &DetectedSkill,
    exclude_root: Option<&str>,
    exclude_managed_targets: Option<&Vec<String>>,
) -> (r: bool)
    ensures
        r == is_kept(text_of(exclude_root), texts_of(exclude_managed_targets))(*skill),
{
    match exclude_root {
        Some(root) => {
            if is_under(skill.path.as_str(), root) {
                return false;
            }
            match &skill.link_target {
                Some(target) => {
                    if is_under(target.as_str(), root) {
                        return false;
                    }
                },
                None => {},
            }
        },
        None => {},
    }
    match exclude_managed_targets {
        Some(keys) => {
            let key = managed_target_key(skill.tool.as_str(), skill.path.as_str());
            position(keys, key.as_str()).is_none()
        },
        None => true,
    }
}

/// The detected skills that lie outside the directory that is left out
/// and are none of the managed targets, in their order.
pub fn filter_detected(
    detected: Vec<DetectedSkill>,
    exclude_root: Option<&str>,
    exclude_managed_targets: Option<&Vec<String>>,
) -> (r: Vec<DetectedSkill>)
    ensures
        r@ == detected@.filter(is_kept(text_of(exclude_root), texts_of(exclude_managed_targets))),
{
    let ghost pick = is_kept(text_of(exclude_root), texts_of(exclude_managed_targets));
    let mut out: Vec<DetectedSkill> = Vec::new();
    let mut i: usize = 0;
    proof {
        reveal(Seq::filter);
        assert(out@ =~= detected@.take(0).filter(pick));
    }
    while i < detected.len()
        invariant
            i <= detected.len(),
            pick == is_kept(text_of(exclude_root), texts_of(exclude_managed_targets)),
            out@ == detected@.take(i as int).filter(pick),
        decreases detected.len() - i,
    {
        proof {
            detected@.lemma_take_succ_push(i as int);
            detected@.take(i as int).lemma_filter_push(detected@[i as int], pick);
        }
        if kept(&detected[i], exclude_root, exclude_managed_targets) {
            out.push(detected[i].clone());
        }
        i = i + 1;
    }
    proof {
        detected@.lemma_take_len();
    }
    out
}

/// The names of the detected skills, in order.
pub open spec fn detected_names(detected: Seq<DetectedSkill>) -> Seq<Seq<char>> {
    detected.map_values(|s: DetectedSkill| s.name@)
}

/// Whether a list holds the names of two others, and no other name.
pub open spec fn covers(list: Seq<Seq<char>>, first: Seq<Seq<char>>, second: Seq<Seq<char>>) -> bool {
    forall|name: Seq<char>| #[trigger]
        list.contains(name) <==> first.contains(name) || second.contains(name)
}

/// The detected skills of one tool that are offered, in their order.
/// `adapter_key` is the tool they were found with; the names found with
/// the tool that takes precedence are collected in `agents_skills_names`,
/// which holds each name once.
pub fn filter_detected_with_priority(
    detected: Vec<DetectedSkill>,
    exclude_root: Option<&str>,
    exclude_managed_targets: Option<&Vec<String>>,
    adapter_key: &str,
    agents_skills_names: &mut Vec<String>,
    installed_skill_names: Option<&Vec<String>>,
) -> (r: Vec<DetectedSkill>)
    requires
        texts(old(agents_skills_names)@).no_duplicates(),
    ensures
        texts(final(agents_skills_names)@).no_duplicates(),
        covers(
            texts(final(agents_skills_names)@),
            texts(old(agents_skills_names)@),
            if adapter_key@ == AGENTS_TOOL@ {
                detected_names(detected@)
            } else {
                Seq::empty()
            },
        ),
        r@ == detected@.filter(
            is_offered(
                text_of(exclude_root),
                texts_of(exclude_managed_targets),
                adapter_key@ == AGENTS_TOOL@,
                texts(final(agents_skills_names)@),
                texts_of(installed_skill_names),
            ),
        ),
{
    let precedes = str_eq(adapter_key, AGENTS_TOOL);
    let ghost names = detected_names(detected@);
    let ghost start = texts(agents_skills_names@);
    if precedes {
        let mut k: usize = 0;
        while k < detected.len()
            invariant
                k <= detected.len(),
                names == detected_names(detected@),
                start == texts(old(agents_skills_names)@),
                texts(agents_skills_names@).no_duplicates(),
                covers(texts(agents_skills_names@), start, names.take(k as int)),
            decreases detected.len() - k,
        {
            let ghost before = texts(agents_skills_names@);
            proof {
                assert(names[k as int] == detected@[k as int].name@);
                names.lemma_take_succ_push(k as int);
            }
            if position(agents_skills_names, detected[k].name.as_str()).is_none() {
                proof {
                    lemma_texts_push(agents_skills_names@, detected@[k as int].name);
                }
                agents_skills_names.push(detected[k].name.clone());
                proof {
                    let grown = texts(agents_skills_names@);
                    assert(grown == before.push(names[k as int]));
                    assert forall|a: int, b: int| 0 <= a < b < grown.len() implies grown[a]
                        != grown[b] by {
                        if b == before.len() {
                            assert(before[a] == grown[a]);
                            assert(before.contains(before[a]));
                        }
                    }
                }
            }
            proof {
                let after = texts(agents_skills_names@);
                let short = names.take(k as int);
                let long = names.take(k + 1);
                let x = names[k as int];
                assert(long == short.push(x));
                assert(after == before || after == before.push(x));
                assert(after == before ==> before.contains(x));
                assert(covers(before, start, short));
                assert forall|name: Seq<char>| #[trigger]
                    after.contains(name) <==> start.contains(name) || long.contains(name) by {
                    assert(before.contains(name) <==> start.contains(name) || short.contains(name));
                    vstd::seq_lib::lemma_seq_contains_after_push(short, x, name);
                    vstd::seq_lib::lemma_seq_contains_after_push(before, x, name);
                }
            }
            k = k + 1;
        }
        proof {
            names.lemma_take_len();
        }
    }
    let ghost pick = is_offered(
        text_of(exclude_root),
        texts_of(exclude_managed_targets),
        precedes,
        texts(agents_skills_names@),
        texts_of(installed_skill_names),
    );
    let mut out: Vec<DetectedSkill> = Vec::new();
    let mut i: usize = 0;
    proof {
        reveal(Seq::filter);
        assert(out@ =~= detected@.take(0).filter(pick));
    }
    while i < detected.len()
        invariant
            i <= detected.len(),
            precedes == (adapter_key@ == AGENTS_TOOL@),
            pick == is_offered(
                text_of(exclude_root),
                texts_of(exclude_managed_targets),
                precedes,
                texts(agents_skills_names@),
                texts_of(installed_skill_names),
            ),
            out@ == detected@.take(i as int).filter(pick),
        decreases detected.len() - i,
    {
        proof {
            detected@.lemma_take_succ_push(i as int);
            detected@.take(i as int).lemma_filter_push(detected@[i as int], pick);
        }
        let skill = &detected[i];
        let shadowed = !precedes && position(agents_skills_names, skill.name.as_str()).is_some();
        let installed = match installed_skill_names {
            Some(names) => position(names, skill.name.as_str()).is_some(),
            None => false,
        };
        if kept(skill, exclude_root, exclude_managed_targets) && !shadowed && !installed {
            out.push(skill.clone());
        }
        i = i + 1;
    }
    proof {
        detected@.lemma_take_len();
    }
    out
}

/// The place at which a skill was found, with the fingerprint of what
/// lies there.
pub fn variant_of(skill: &DetectedSkill, fingerprint: Option<String>) -> (r: OnboardingVariant)
    ensures
        r == (OnboardingVariant {
            tool: skill.tool,
            name: skill.name,
            path: skill.path,
            fingerprint,
            is_link: skill.is_link,
            link_target: skill.link_target,
        }),
{
    OnboardingVariant {
        tool: skill.tool.clone(),
        name: skill.name.clone(),
        path: skill.path.clone(),
        fingerprint,
        is_link: skill.is_link,
        link_target: skill.link_target.clone(),
    }
}

/// Whether a place is of the name, as a predicate.
pub open spec fn named(name: Seq<char>) -> spec_fn(OnboardingVariant) -> bool {
    |v: OnboardingVariant| v.name@ == name
}

/// The fingerprint of a place, where it has one.
pub open spec fn fingerprint_of() -> spec_fn(OnboardingVariant) -> Option<Seq<char>> {
    |v: OnboardingVariant|
        match v.fingerprint {
            Some(f) => Some(f@),
            None => None,
        }
}

/// The names of the places, in order.
pub open spec fn variant_names(variants: Seq<OnboardingVariant>) -> Seq<Seq<char>> {
    variants.map_values(|v: OnboardingVariant| v.name@)
}

/// Whether the places differ: more than one fingerprint occurs among
/// them.
pub open spec fn differ(variants: Seq<OnboardingVariant>) -> bool {
    distinct(variants.filter_map(fingerprint_of())).len() > 1
}

/// Whether the group holds the places of the name, in their order, and
/// says whether they differ.
pub open spec fn groups_name(
    group: OnboardingGroup,
    variants: Seq<OnboardingVariant>,
    name: Seq<char>,
) -> bool {
    &&& group.name@ == name
    &&& group.variants@ == variants.filter(named(name))
    &&& group.has_conflict == differ(group.variants@)
}

/// Whether more than one fingerprint occurs among the places.
pub fn has_conflict(variants: &Vec<OnboardingVariant>) -> (r: bool)
    ensures
        r == differ(variants@),
{
    let ghost prints = variants@.filter_map(fingerprint_of());
    let mut seen: Vec<String> = Vec::new();
    let mut i: usize = 0;
    assert(texts(seen@) =~= distinct(variants@.take(0).filter_map(fingerprint_of())));
    while i < variants.len()
        invariant
            i <= variants.len(),
            texts(seen@) == distinct(variants@.take(i as int).filter_map(fingerprint_of())),
        decreases variants.len() - i,
    {
        let ghost done = variants@.take(i as int).filter_map(fingerprint_of());
        proof {
            variants@.lemma_filter_map_take_succ(fingerprint_of(), i as int);
        }
        match &variants[i].fingerprint {
            Some(f) => {
                proof {
                    let next = done + seq![f@];
                    assert(next.drop_last() =~= done);
                    assert(next.last() == f@);
                }
                if position(&seen, f.as_str()).is_none() {
                    proof {
                        lemma_texts_push(seen@, *f);
                    }
                    seen.push(f.clone());
                }
            },
            None => {
                assert(done + Seq::<Seq<char>>::empty() =~= done);
            },
        }
        i = i + 1;
    }
    proof {
        variants@.lemma_take_len();
    }
    seen.len() > 1
}

/// The places grouped by the name of their skill: one group for each
/// name, in the order in which the names were first found, each with
/// its places in the order in which they were found.
pub fn group_variants(variants: &Vec<OnboardingVariant>) -> (r: Vec<OnboardingGroup>)
    ensures
        r@.len() == distinct(variant_names(variants@)).len(),
        forall|k: int|
            0 <= k < r@.len() ==> groups_name(
                #[trigger] r@[k],
                variants@,
                distinct(variant_names(variants@))[k],
            ),
{
    let ghost all = variant_names(variants@);
    let mut names: Vec<String> = Vec::new();
    let mut i: usize = 0;
    assert(texts(names@) =~= distinct(all.take(0)));
    while i < variants.len()
        invariant
            i <= variants.len(),
            all == variant_names(variants@),
            texts(names@) == distinct(all.take(i as int)),
        decreases variants.len() - i,
    {
        proof {
            lemma_distinct_step(all, i as int);
            assert(all[i as int] == variants@[i as int].name@);
        }
        if position(&names, variants[i].name.as_str()).is_none() {
            proof {
                lemma_texts_push(names@, variants@[i as int].name);
            }
            names.push(variants[i].name.clone());
        }
        i = i + 1;
    }
    proof {
        all.lemma_take_len();
    }
    let mut out: Vec<OnboardingGroup> = Vec::new();
    let mut k: usize = 0;
    while k < names.len()
        invariant
            k <= names.len(),
            texts(names@) == distinct(variant_names(variants@)),
            out@.len() == k,
            forall|g: int|
                0 <= g < k ==> groups_name(
                    #[trigger] out@[g],
                    variants@,
                    distinct(variant_names(variants@))[g],
                ),
        decreases names.len() - k,
    {
        let ghost name = names@[k as int]@;
        assert(texts(names@)[k as int] == name);
        let mut members: Vec<OnboardingVariant> = Vec::new();
        let mut j: usize = 0;
        proof {
            reveal(Seq::filter);
            assert(members@ =~= variants@.take(0).filter(named(name)));
        }
        while j < variants.len()
            invariant
                j <= variants.len(),
                k < names.len(),
                name == names@[k as int]@,
                members@ == variants@.take(j as int).filter(named(name)),
            decreases variants.len() - j,
        {
            proof {
                variants@.lemma_take_succ_push(j as int);
                variants@.take(j as int).lemma_filter_push(variants@[j as int], named(name));
            }
            if str_eq(variants[j].name.as_str(), names[k].as_str()) {
                members.push(variants[j].clone());
            }
            j = j + 1;
        }
        proof {
            variants@.lemma_take_len();
        }
        let conflict = has_conflict(&members);
        out.push(OnboardingGroup { name: names[k].clone(), variants: members, has_conflict: conflict });
        k = k + 1;
    }
    out
}

/// The plan for what was found: the number of tools scanned, the number
/// of places found, and the places grouped by name.
pub fn build_onboarding_plan_in_home(scanned: usize, variants: &Vec<OnboardingVariant>) -> (r:
    OnboardingPlan)
    ensures
        r.total_tools_scanned == scanned,
        r.total_skills_found == variants@.len(),
        r.groups@.len() == distinct(variant_names(variants@)).len(),
        forall|k: int|
            0 <= k < r.groups@.len() ==> groups_name(
                #[trigger] r.groups@[k],
                variants@,
                distinct(variant_names(variants@))[k],
            ),
{
    OnboardingPlan {
        total_tools_scanned: scanned,
        total_skills_found: variants.len(),
        groups: group_variants(variants),
    }
}

} // verus!
