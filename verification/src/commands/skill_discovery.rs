//! Answers of the commands that offer skills to discover.

use vstd::prelude::*;
use crate::discovery::{CategoryInfo, DiscoveredSkill};
use crate::discovery_config::{clone_strings, SkillView};
use crate::discovery_remote::{remote_views, RemoteDiscoveredSkill};
use crate::distinct::{position, texts};
use crate::onboarding::DetectedSkill;

verus! {

/// A skill on offer as the commands report it.
#[derive(Debug)]
pub struct DiscoveredSkillDto {
    pub name: String,
    pub description: String,
    pub github_url: String,
    pub category: String,
    pub tags: Vec<String>,
}

impl View for DiscoveredSkillDto {
    type V = SkillView;

    open spec fn view(&self) -> SkillView {
        SkillView {
            name: self.name@,
            description: self.description@,
            github_url: self.github_url@,
            category: self.category@,
            tags: texts(self.tags@),
        }
    }
}

/// A category as the commands report it.
#[derive(Debug)]
pub struct CategoryInfoDto {
    pub id: String,
    pub name: String,
    pub description: String,
    pub icon: String,
    pub color: String,
}

/// One page of skills.
#[derive(Debug)]
pub struct PaginatedSkillsDto {
    pub skills: Vec<DiscoveredSkillDto>,
    pub pagination: PaginationInfo,
}

/// Which page it is, and how many there are.
#[derive(Clone, Copy, Debug, PartialEq, Eq, Structural)]
pub struct PaginationInfo {
    pub current_page: u32,
    pub page_size: u32,
    pub total_items: u32,
    pub total_pages: u32,
}

/// A skill found in a scanned directory, as the commands report it.
#[derive(Debug)]
pub struct LocalDiscoveredSkillDto {
    pub name: String,
    pub path: String,
    pub tool: String,
    pub is_link: bool,
}

/// What the answers of a list say, in order.
pub open spec fn dto_views(list: Seq<DiscoveredSkillDto>) -> Seq<SkillView> {
    list.map_values(|s: DiscoveredSkillDto| s@)
}

/// The answer for one skill on offer.
pub fn skill_dto(skill: &DiscoveredSkill) -> (dto: DiscoveredSkillDto)
    ensures
        dto@ == skill@,
{
    DiscoveredSkillDto {
        name: skill.name.clone(),
        description: skill.description.clone(),
        github_url: skill.github_url.clone(),
        category: skill.category.clone(),
        tags: clone_strings(&skill.tags),
    }
}

/// The answers for a list of skills on offer, in the same order.
pub fn skill_dtos(skills: &Vec<DiscoveredSkill>) -> (dtos: Vec<DiscoveredSkillDto>)
    ensures
        dto_views(dtos@) == crate::discovery::skill_views(skills@),
{
    let ghost all = crate::discovery::skill_views(skills@);
    let mut out: Vec<DiscoveredSkillDto> = Vec::new();
    let mut i: usize = 0;
    assert(dto_views(out@) =~= all.take(0));
    while i < skills.len()
        invariant
            i <= skills.len(),
            all == crate::discovery::skill_views(skills@),
            dto_views(out@) == all.take(i as int),
        decreases skills.len() - i,
    {
        let ghost before = out@;
        let dto = skill_dto(&skills[i]);
        out.push(dto);
        proof {
            assert(dto_views(out@) =~= dto_views(before).push(dto@));
            assert(dto_views(out@) =~= all.take(i + 1));
        }
        i = i + 1;
    }
    proof {
        all.lemma_take_len();
    }
    out
}

/// The answer for one category.
pub fn category_dto(category: &CategoryInfo) -> (dto: CategoryInfoDto)
    ensures
        dto.id@ == category.id@,
        dto.name@ == category.name@,
        dto.description@ == category.description@,
        dto.icon@ == category.icon@,
        dto.color@ == category.color@,
{
    CategoryInfoDto {
        id: category.id.clone(),
        name: category.name.clone(),
        description: category.description.clone(),
        icon: category.icon.clone(),
        color: category.color.clone(),
    }
}

/// The number of pages that `total` items fill at `page_size` items a
/// page. With pages of no items, no page is ever filled: there are as many
/// pages as the count can say, and none where there is no item.
pub open spec fn pages_needed(total: int, page_size: int) -> int {
    if page_size > 0 {
        (total + page_size - 1) / page_size
    } else if total > 0 {
        u32::MAX as int
    } else {
        0
    }
}

/// The page that is shown when `page` is asked for: the first page at
/// least, and the last page at most.
pub open spec fn page_shown(page: int, total_pages: int) -> int {
    let last = if total_pages >= 1 {
        total_pages
    } else {
        1
    };
    if page < 1 {
        1
    } else if page > last {
        last
    } else {
        page
    }
}

/// The items of a page: up to `page_size` of them, from the item at
/// `(page - 1) * page_size` on.
pub open spec fn page_items<A>(all: Seq<A>, page: int, page_size: int) -> Seq<A> {
    let start = (page - 1) * page_size;
    if start >= all.len() {
        Seq::empty()
    } else if start + page_size >= all.len() {
        all.skip(start)
    } else {
        all.subrange(start, start + page_size)
    }
}

/// The number of items as the page information states it: no more than
/// its field can say.
pub open spec fn counted(items: int) -> int {
    if items > u32::MAX {
        u32::MAX as int
    } else {
        items
    }
}

/// The page information for `total` items.
pub fn pagination(total: u32, page: u32, page_size: u32) -> (r: PaginationInfo)
    ensures
        r.total_items == total,
        r.page_size == page_size,
        r.total_pages == pages_needed(total as int, page_size as int),
        r.current_page == page_shown(page as int, r.total_pages as int),
{
    let total_pages: u32 = if page_size > 0 {
        assert((total + page_size - 1) / (page_size as int) <= total) by (nonlinear_arith)
            requires
                total >= 0,
                page_size >= 1,
        ;
        ((total as u64 + page_size as u64 - 1) / (page_size as u64)) as u32
    } else if total > 0 {
        u32::MAX
    } else {
        0
    };
    let last: u32 = if total_pages >= 1 {
        total_pages
    } else {
        1
    };
    let current_page: u32 = if page < 1 {
        1
    } else if page > last {
        last
    } else {
        page
    };
    PaginationInfo { current_page, page_size, total_items: total, total_pages }
}

/// One page of the skills of a category.
pub fn paginate(all_skills: &Vec<RemoteDiscoveredSkill>, page: u32, page_size: u32) -> (r:
    PaginatedSkillsDto)
    ensures
        r.pagination.total_items == counted(all_skills.len() as int),
        r.pagination.page_size == page_size,
        r.pagination.total_pages == pages_needed(
            counted(all_skills.len() as int),
            page_size as int,
        ),
        r.pagination.current_page == page_shown(page as int, r.pagination.total_pages as int),
        dto_views(r.skills@) == page_items(
            remote_views(all_skills@),
            r.pagination.current_page as int,
            page_size as int,
        ),
{
    let total: u32 = if all_skills.len() > 0xffff_ffff {
        0xffff_ffff
    } else {
        all_skills.len() as u32
    };
    let info = pagination(total, page, page_size);
    let ghost all = remote_views(all_skills@);
    assert((info.current_page - 1) * page_size <= 0xffff_ffff * 0xffff_ffff) by (nonlinear_arith)
        requires
            1 <= info.current_page <= 0xffff_ffff,
            0 <= page_size <= 0xffff_ffff,
    ;
    let start: u64 = (info.current_page as u64 - 1) * (page_size as u64);
    let mut out: Vec<DiscoveredSkillDto> = Vec::new();
    if start < all_skills.len() as u64 {
        let end: u64 = if start + page_size as u64 >= all_skills.len() as u64 {
            all_skills.len() as u64
        } else {
            start + page_size as u64
        };
        let mut i: usize = start as usize;
        assert(dto_views(out@) =~= all.subrange(start as int, i as int));
        while (i as u64) < end
            invariant
                start <= i <= end <= all_skills.len(),
                all == remote_views(all_skills@),
                dto_views(out@) == all.subrange(start as int, i as int),
            decreases end - i,
        {
            let ghost before = out@;
            let s = &all_skills[i];
            let dto = DiscoveredSkillDto {
                name: s.name.clone(),
                description: s.description.clone(),
                github_url: s.github_url.clone(),
                category: s.category.clone(),
                tags: clone_strings(&s.tags),
            };
            out.push(dto);
            proof {
                assert(dto@ == all[i as int]);
                assert(dto_views(out@) =~= dto_views(before).push(dto@));
                assert(dto_views(out@) =~= all.subrange(start as int, i + 1));
            }
            i = i + 1;
        }
        assert(all.skip(start as int) =~= all.subrange(start as int, all.len() as int));
    } else {
        assert(dto_views(out@) =~= Seq::<SkillView>::empty());
    }
    PaginatedSkillsDto { skills: out, pagination: info }
}

/// Whether a detected skill is new: no installed skill has its name.
pub open spec fn is_new(installed: Seq<Seq<char>>) -> spec_fn(DetectedSkill) -> bool {
    |s: DetectedSkill| !installed.contains(s.name@)
}

/// What a detected skill says as an answer.
pub ghost struct LocalSkillView {
    pub name: Seq<char>,
    pub path: Seq<char>,
    pub tool: Seq<char>,
    pub is_link: bool,
}

impl View for LocalDiscoveredSkillDto {
    type V = LocalSkillView;

    open spec fn view(&self) -> LocalSkillView {
        LocalSkillView {
            name: self.name@,
            path: self.path@,
            tool: self.tool@,
            is_link: self.is_link,
        }
    }
}

/// What the answers of a list say, in order.
pub open spec fn local_views(list: Seq<LocalDiscoveredSkillDto>) -> Seq<LocalSkillView> {
    list.map_values(|s: LocalDiscoveredSkillDto| s@)
}

/// What a detected skill says as an answer.
pub open spec fn local_view() -> spec_fn(DetectedSkill) -> LocalSkillView {
    |s: DetectedSkill|
        LocalSkillView { name: s.name@, path: s.path@, tool: s.tool@, is_link: s.is_link }
}

/// The answers for those of the detected skills that are new, in their
/// order.
pub fn scan_for_new_skills(detected: &Vec<DetectedSkill>, installed_names: &Vec<String>) -> (r:
    Vec<LocalDiscoveredSkillDto>)
    ensures
        local_views(r@) == detected@.filter(is_new(texts(installed_names@))).map_values(
            local_view(),
        ),
{
    let ghost pick = is_new(texts(installed_names@));
    let mut out: Vec<LocalDiscoveredSkillDto> = Vec::new();
    let mut i: usize = 0;
    proof {
        reveal(Seq::filter);
        assert(detected@.take(0).filter(pick) =~= Seq::<DetectedSkill>::empty());
        assert(local_views(out@) =~= detected@.take(0).filter(pick).map_values(local_view()));
    }
    while i < detected.len()
        invariant
            i <= detected.len(),
            pick == is_new(texts(installed_names@)),
            local_views(out@) == detected@.take(i as int).filter(pick).map_values(local_view()),
        decreases detected.len() - i,
    {
        let ghost chosen = detected@.take(i as int).filter(pick);
        proof {
            detected@.lemma_take_succ_push(i as int);
            detected@.take(i as int).lemma_filter_push(detected@[i as int], pick);
        }
        let skill = &detected[i];
        if position(installed_names, skill.name.as_str()).is_none() {
            let ghost before = out@;
            let dto = LocalDiscoveredSkillDto {
                name: skill.name.clone(),
                path: skill.path.clone(),
                tool: skill.tool.clone(),
                is_link: skill.is_link,
            };
            out.push(dto);
            proof {
                assert(local_views(out@) =~= local_views(before).push(dto@));
                chosen.lemma_push_map_commute(local_view(), detected@[i as int]);
            }
        }
        i = i + 1;
    }
    proof {
        detected@.lemma_take_len();
    }
    out
}

} // verus!
