//! What the application offers to discover: the built-in catalogue, and
//! what was found outside it.

use vstd::prelude::*;
use vstd::std_specs::convert::FromSpecImpl;
use crate::discovery_config::{
    catalogue_views, clone_strings, default_categories, default_skills, matching_view,
    of_category, CategoryView, DiscoveryConfig, RecommendedSkill, SkillCategory, SkillView,
};
use crate::discovery_remote::{has_url, remote_views, RemoteDiscoveredSkill};
use crate::distinct::texts;
use crate::text::str_eq;

verus! {

/// A skill on offer.
#[derive(Debug)]
pub struct DiscoveredSkill {
    pub name: String,
    pub description: String,
    pub github_url: String,
    pub category: String,
    pub tags: Vec<String>,
}

impl View for DiscoveredSkill {
    type V = SkillView;

    open spec fn view(&self) -> SkillView {
        SkillView {
            name: self.name@,
            description: self.description@,
            github_url: self.github_url@,
            category: self.category@,
            tags: texts(self.tags@),
        }
    }
}

impl Clone for DiscoveredSkill {
    fn clone(&self) -> (r: Self)
        ensures
            r@ == self@,
    {
        DiscoveredSkill {
            name: self.name.clone(),
            description: self.description.clone(),
            github_url: self.github_url.clone(),
            category: self.category.clone(),
            tags: clone_strings(&self.tags),
        }
    }
}

/// A category on offer.
#[derive(Debug)]
pub struct CategoryInfo {
    pub id: String,
    pub name: String,
    pub description: String,
    pub icon: String,
    pub color: String,
}

impl View for CategoryInfo {
    type V = CategoryView;

    open spec fn view(&self) -> CategoryView {
        CategoryView {
            id: self.id@,
            name: self.name@,
            description: self.description@,
            icon: self.icon@,
            color: self.color@,
        }
    }
}

impl Clone for CategoryInfo {
    fn clone(&self) -> (r: Self)
        ensures
            r == *self,
    {
        CategoryInfo {
            id: self.id.clone(),
            name: self.name.clone(),
            description: self.description.clone(),
            icon: self.icon.clone(),
            color: self.color.clone(),
        }
    }
}

impl From<SkillCategory> for CategoryInfo {
    fn from(cat: SkillCategory) -> (r: CategoryInfo) {
        CategoryInfo {
            id: cat.id,
            name: cat.name,
            description: cat.description,
            icon: cat.icon,
            color: cat.color,
        }
    }
}

impl FromSpecImpl<SkillCategory> for CategoryInfo {
    open spec fn obeys_from_spec() -> bool {
        true
    }

    open spec fn from_spec(cat: SkillCategory) -> CategoryInfo {
        CategoryInfo {
            id: cat.id,
            name: cat.name,
            description: cat.description,
            icon: cat.icon,
            color: cat.color,
        }
    }
}

impl From<RecommendedSkill> for DiscoveredSkill {
    fn from(skill: RecommendedSkill) -> (r: DiscoveredSkill) {
        DiscoveredSkill {
            name: skill.name,
            description: skill.description,
            github_url: skill.github_url,
            category: skill.category,
            tags: skill.tags,
        }
    }
}

impl FromSpecImpl<RecommendedSkill> for DiscoveredSkill {
    open spec fn obeys_from_spec() -> bool {
        true
    }

    open spec fn from_spec(skill: RecommendedSkill) -> DiscoveredSkill {
        DiscoveredSkill {
            name: skill.name,
            description: skill.description,
            github_url: skill.github_url,
            category: skill.category,
            tags: skill.tags,
        }
    }
}

/// What the skills of a list say, in order.
pub open spec fn skill_views(list: Seq<DiscoveredSkill>) -> Seq<SkillView> {
    list.map_values(|s: DiscoveredSkill| s@)
}

/// What the categories of a list say, in order.
pub open spec fn info_views(list: Seq<CategoryInfo>) -> Seq<CategoryView> {
    list.map_values(|c: CategoryInfo| c@)
}

/// Whether a found skill is new to a category: none of the skills on
/// offer in that category has its address.
pub open spec fn new_to(skills: Seq<SkillView>, category: Seq<char>) -> spec_fn(SkillView) -> bool {
    |r: SkillView| !has_url(skills.filter(of_category(category)), r.github_url)
}

/// The skills on offer after those found for one category were added:
/// each found skill that is new to the category, in found order.
pub open spec fn with_category(
    skills: Seq<SkillView>,
    category: Seq<char>,
    found: Seq<SkillView>,
) -> Seq<SkillView> {
    skills + found.filter(new_to(skills, category))
}

/// The skills on offer after what was found for each category was added,
/// category by category.
pub open spec fn with_remote(
    skills: Seq<SkillView>,
    remote: Seq<(String, Vec<RemoteDiscoveredSkill>)>,
) -> Seq<SkillView>
    decreases remote.len(),
{
    if remote.len() == 0 {
        skills
    } else {
        with_category(
            with_remote(skills, remote.drop_last()),
            remote.last().0@,
            remote_views(remote.last().1@),
        )
    }
}

/// The skills on offer, given those of the catalogue and what fetching
/// every category returned, if it returned anything.
pub open spec fn offered(
    base: Seq<SkillView>,
    remote: Option<Vec<(String, Vec<RemoteDiscoveredSkill>)>>,
) -> Seq<SkillView> {
    match remote {
        Some(found) => with_remote(base, found@),
        None => base,
    }
}

fn url_in_category(skills: &Vec<DiscoveredSkill>, n: usize, category: &str, url: &str) -> (r: bool)
    requires
        n <= skills.len(),
    ensures
        r == has_url(skill_views(skills@.take(n as int)).filter(of_category(category@)), url@),
{
    let ghost views = skill_views(skills@.take(n as int));
    let mut i: usize = 0;
    proof {
        reveal(Seq::filter);
        assert(views.take(0).filter(of_category(category@)) =~= Seq::<SkillView>::empty());
    }
    while i < n
        invariant
            i <= n <= skills.len(),
            views == skill_views(skills@.take(n as int)),
            !has_url(views.take(i as int).filter(of_category(category@)), url@),
        decreases n - i,
    {
        proof {
            views.lemma_take_succ_push(i as int);
            views.take(i as int).lemma_filter_push(views[i as int], of_category(category@));
        }
        let ghost before = views.take(i as int).filter(of_category(category@));
        if str_eq(skills[i].category.as_str(), category) {
            if str_eq(skills[i].github_url.as_str(), url) {
                proof {
                    let found = views.take(i + 1).filter(of_category(category@));
                    assert(found == before.push(views[i as int]));
                    assert(found[before.len() as int].github_url == url@);
                    crate::discovery_remote::lemma_filter_prefix(
                        views,
                        of_category(category@),
                        i + 1,
                    );
                    let all = views.filter(of_category(category@));
                    assert(all.take(found.len() as int) == found);
                    assert(all[before.len() as int] == found[before.len() as int]);
                }
                return true;
            }
            proof {
                let found = before.push(views[i as int]);
                if has_url(found, url@) {
                    let k = choose|k: int|
                        0 <= k < found.len() && (#[trigger] found[k]).github_url == url@;
                    if k < before.len() {
                        assert(before[k].github_url == url@);
                    }
                }
            }
        }
        i = i + 1;
    }
    proof {
        views.lemma_take_len();
    }
    false
}

/// Adds to the skills on offer what was found for each category: the
/// found skills whose address no skill of that category has yet.
pub fn merge_remote_skills(
    skills: Vec<DiscoveredSkill>,
    remote: &Vec<(String, Vec<RemoteDiscoveredSkill>)>,
) -> (r: Vec<DiscoveredSkill>)
    ensures
        skill_views(r@) == with_remote(skill_views(skills@), remote@),
{
    let ghost base = skill_views(skills@);
    let mut out = skills;
    let mut c: usize = 0;
    assert(remote@.take(0) =~= Seq::<(String, Vec<RemoteDiscoveredSkill>)>::empty());
    while c < remote.len()
        invariant
            c <= remote.len(),
            skill_views(out@) == with_remote(base, remote@.take(c as int)),
        decreases remote.len() - c,
    {
        let n = out.len();
        let ghost start = skill_views(out@);
        let ghost found = remote_views(remote@[c as int].1@);
        let ghost category = remote@[c as int].0@;
        let mut i: usize = 0;
        proof {
            reveal(Seq::filter);
            assert(found.take(0).filter(new_to(start, category)) =~= Seq::<SkillView>::empty());
            assert(skill_views(out@) =~= start + found.take(0).filter(new_to(start, category)));
            assert(out@.take(n as int) =~= out@);
        }
        while i < remote[c].1.len()
            invariant
                c < remote.len(),
                i <= remote[c as int].1.len(),
                n <= out.len(),
                found == remote_views(remote@[c as int].1@),
                category == remote@[c as int].0@,
                skill_views(out@.take(n as int)) == start,
                skill_views(out@) == start + found.take(i as int).filter(new_to(start, category)),
            decreases remote[c as int].1.len() - i,
        {
            proof {
                found.lemma_take_succ_push(i as int);
                found.take(i as int).lemma_filter_push(found[i as int], new_to(start, category));
            }
            let ghost before = out@;
            let item = &remote[c].1[i];
            if !url_in_category(&out, n, remote[c].0.as_str(), item.github_url.as_str()) {
                let skill = DiscoveredSkill {
                    name: item.name.clone(),
                    description: item.description.clone(),
                    github_url: item.github_url.clone(),
                    category: item.category.clone(),
                    tags: clone_strings(&item.tags),
                };
                out.push(skill);
                proof {
                    assert(skill@ == found[i as int]);
                    assert(skill_views(out@) =~= skill_views(before).push(skill@));
                    assert(out@.take(n as int) =~= before.take(n as int));
                    assert(skill_views(out@) =~= start + found.take(i + 1).filter(
                        new_to(start, category),
                    ));
                }
            }
            i = i + 1;
        }
        proof {
            found.lemma_take_len();
            assert(remote@.take(c + 1).drop_last() =~= remote@.take(c as int));
        }
        c = c + 1;
    }
    proof {
        remote@.lemma_take_len();
    }
    out
}

fn offer(skill: &RecommendedSkill) -> (r: DiscoveredSkill)
    ensures
        r@ == skill@,
{
    DiscoveredSkill::from(skill.clone())
}

fn offers(skills: &Vec<&RecommendedSkill>) -> (r: Vec<DiscoveredSkill>)
    ensures
        skill_views(r@) == catalogue_views(skills@.unref()),
{
    let mut out: Vec<DiscoveredSkill> = Vec::new();
    let mut i: usize = 0;
    let ghost all = catalogue_views(skills@.unref());
    assert(skill_views(out@) =~= all.take(0));
    while i < skills.len()
        invariant
            i <= skills.len(),
            all == catalogue_views(skills@.unref()),
            skill_views(out@) == all.take(i as int),
        decreases skills.len() - i,
    {
        let ghost before = out@;
        let skill = offer(skills[i]);
        out.push(skill);
        proof {
            assert(skill_views(out@) =~= skill_views(before).push(skill@));
            assert(all[i as int] == skills@.unref()[i as int]@);
            assert(skill_views(out@) =~= all.take(i + 1));
        }
        i = i + 1;
    }
    proof {
        all.lemma_take_len();
    }
    out
}

/// The skills on offer: those of the built-in catalogue, followed by what
/// was found for each category and is new to it. `remote` is what
/// fetching every category returned, and `None` where the fetch failed.
pub fn get_recommended_skills(remote: Option<Vec<(String, Vec<RemoteDiscoveredSkill>)>>) -> (r:
    Vec<DiscoveredSkill>)
    ensures
        skill_views(r@) == offered(default_skills(), remote),
{
    let config = DiscoveryConfig::get_default();
    let mut all: Vec<&RecommendedSkill> = Vec::new();
    let mut i: usize = 0;
    assert(all@.unref() =~= config.skills@.take(0));
    while i < config.skills.len()
        invariant
            i <= config.skills.len(),
            all@.unref() == config.skills@.take(i as int),
        decreases config.skills.len() - i,
    {
        let ghost before = all@;
        proof {
            config.skills@.lemma_take_succ_push(i as int);
        }
        all.push(&config.skills[i]);
        assert(all@.unref() =~= before.unref().push(config.skills@[i as int]));
        i = i + 1;
    }
    proof {
        config.skills@.lemma_take_len();
    }
    let skills = offers(&all);
    match remote {
        Some(found) => merge_remote_skills(skills, &found),
        None => skills,
    }
}

/// The categories of the built-in catalogue, in its order.
pub fn get_categories() -> (r: Vec<CategoryInfo>)
    ensures
        info_views(r@) == default_categories(),
{
    let config = DiscoveryConfig::get_default();
    let mut out: Vec<CategoryInfo> = Vec::new();
    let mut i: usize = 0;
    while i < config.categories.len()
        invariant
            i <= config.categories.len(),
            out@.len() == i,
            forall|k: int| 0 <= k < i ==> (#[trigger] out@[k])@ == config.categories@[k]@,
        decreases config.categories.len() - i,
    {
        out.push(CategoryInfo::from(config.categories[i].clone()));
        i = i + 1;
    }
    assert(info_views(out@) =~= config@.categories);
    out
}

/// The skills of one category of the built-in catalogue, in its order.
pub fn get_skills_by_category(category_id: &str) -> (r: Vec<DiscoveredSkill>)
    ensures
        skill_views(r@) == default_skills().filter(of_category(category_id@)),
{
    let config = DiscoveryConfig::get_default();
    let found = config.get_skills_by_category(category_id);
    offers(&found)
}

/// The skills of the built-in catalogue whose name, description or tags
/// hold the query, without regard to case, in its order.
pub fn search_skills(query: &str) -> (r: Vec<DiscoveredSkill>)
    ensures
        skill_views(r@) == default_skills().filter(matching_view(query@)),
{
    let config = DiscoveryConfig::get_default();
    let found = config.search_skills(query);
    offers(&found)
}

} // verus!
