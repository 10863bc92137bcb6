//! Answers of the commands on managed skills.

use vstd::prelude::*;
use crate::ranking::is_ranking;
use crate::skill_store::{
    is_listing, is_text_listing, target_of, tool_keys, update_times, SkillRecord, SkillStore,
    SkillTargetRecord,
};

verus! {

/// An imported skill as the commands report it.
#[derive(Debug)]
pub struct InstallResultDto {
    pub skill_id: String,
    pub name: String,
    pub central_path: String,
    pub content_hash: Option<String>,
}

/// A managed skill with the tools it is synced to.
#[derive(Debug)]
pub struct ManagedSkillDto {
    pub id: String,
    pub name: String,
    pub description: Option<String>,
    pub category: Option<String>,
    pub source_type: String,
    pub source_ref: Option<String>,
    pub central_path: String,
    pub created_at: i64,
    pub updated_at: i64,
    pub last_sync_at: Option<i64>,
    pub status: String,
    pub targets: Vec<SkillTargetDto>,
}

/// One tool that a managed skill is synced to.
#[derive(Debug)]
pub struct SkillTargetDto {
    pub tool: String,
    pub mode: String,
    pub status: String,
    pub target_path: String,
    pub synced_at: Option<i64>,
}

/// Whether the answer says what the target holds.
pub open spec fn reports_target(dto: SkillTargetDto, target: SkillTargetRecord) -> bool {
    &&& dto.tool == target.tool
    &&& dto.mode == target.mode
    &&& dto.status == target.status
    &&& dto.target_path == target.target_path
    &&& dto.synced_at == target.synced_at
}

/// Whether the answer says what the skill and its targets hold.
pub open spec fn reports_skill(
    dto: ManagedSkillDto,
    skill: SkillRecord,
    targets: Seq<SkillTargetRecord>,
) -> bool {
    &&& dto.id == skill.id
    &&& dto.name == skill.name
    &&& dto.description == skill.description
    &&& dto.category == skill.category
    &&& dto.source_type == skill.source_type
    &&& dto.source_ref == skill.source_ref
    &&& dto.central_path == skill.central_path
    &&& dto.created_at == skill.created_at
    &&& dto.updated_at == skill.updated_at
    &&& dto.last_sync_at == skill.last_sync_at
    &&& dto.status == skill.status
    &&& dto.targets@.len() == targets.len()
    &&& forall|i: int|
        0 <= i < targets.len() ==> reports_target(#[trigger] dto.targets@[i], targets[i])
}

/// The answer for an imported skill.
pub fn to_install_dto(
    skill_id: String,
    name: String,
    central_path: String,
    content_hash: Option<String>,
) -> (dto: InstallResultDto)
    ensures
        dto.skill_id == skill_id,
        dto.name == name,
        dto.central_path == central_path,
        dto.content_hash == content_hash,
{
    InstallResultDto { skill_id, name, central_path, content_hash }
}

/// The answer for one target.
pub fn target_dto(target: &SkillTargetRecord) -> (dto: SkillTargetDto)
    ensures
        reports_target(dto, *target),
{
    SkillTargetDto {
        tool: target.tool.clone(),
        mode: target.mode.clone(),
        status: target.status.clone(),
        target_path: target.target_path.clone(),
        synced_at: target.synced_at,
    }
}

/// The answer for one managed skill and its targets, in their order.
pub fn managed_skill_dto(skill: &SkillRecord, targets: &Vec<SkillTargetRecord>) -> (dto:
    ManagedSkillDto)
    ensures
        reports_skill(dto, *skill, targets@),
{
    let mut out: Vec<SkillTargetDto> = Vec::new();
    let mut i: usize = 0;
    while i < targets.len()
        invariant
            i <= targets.len(),
            out@.len() == i,
            forall|k: int| 0 <= k < i ==> reports_target(#[trigger] out@[k], targets@[k]),
        decreases targets.len() - i,
    {
        out.push(target_dto(&targets[i]));
        i = i + 1;
    }
    ManagedSkillDto {
        id: skill.id.clone(),
        name: skill.name.clone(),
        description: skill.description.clone(),
        category: skill.category.clone(),
        source_type: skill.source_type.clone(),
        source_ref: skill.source_ref.clone(),
        central_path: skill.central_path.clone(),
        created_at: skill.created_at,
        updated_at: skill.updated_at,
        last_sync_at: skill.last_sync_at,
        status: skill.status.clone(),
        targets: out,
    }
}

/// Whether the answer says what the skill holds, with those of the
/// targets that are of the skill, sorted by their tools.
pub open spec fn reports_managed(
    dto: ManagedSkillDto,
    skill: SkillRecord,
    targets: Seq<SkillTargetRecord>,
) -> bool {
    exists|listed: Seq<SkillTargetRecord>, order: Seq<usize>|
        #![trigger is_text_listing(listed, targets.filter(target_of(skill.id@)), tool_keys(targets.filter(target_of(skill.id@))), order)]
        is_text_listing(
            listed,
            targets.filter(target_of(skill.id@)),
            tool_keys(targets.filter(target_of(skill.id@))),
            order,
        ) && reports_skill(dto, skill, listed)
}

/// Whether the answers are those for the skills, the latest updated
/// first, in the given order of the skills.
pub open spec fn reports_all(
    dtos: Seq<ManagedSkillDto>,
    skills: Seq<SkillRecord>,
    targets: Seq<SkillTargetRecord>,
    order: Seq<usize>,
) -> bool {
    &&& is_ranking(update_times(skills), order)
    &&& dtos.len() == skills.len()
    &&& forall|i: int|
        0 <= i < dtos.len() ==> reports_managed(#[trigger] dtos[i], skills[order[i] as int], targets)
}

/// The answers for the managed skills of the catalogue, the latest
/// updated first, each with its targets sorted by their tools.
pub fn get_managed_skills_impl(store: &SkillStore) -> (r: Vec<ManagedSkillDto>)
    ensures
        exists|order: Seq<usize>| #[trigger]
            reports_all(r@, store@.skills, store@.targets, order),
{
    let skills = store.list_skills();
    let ghost order = choose|order: Seq<usize>| #[trigger]
        is_listing(skills@, store@.skills, update_times(store@.skills), order);
    assert(is_listing(skills@, store@.skills, update_times(store@.skills), order));
    let mut out: Vec<ManagedSkillDto> = Vec::new();
    let mut i: usize = 0;
    while i < skills.len()
        invariant
            i <= skills.len(),
            is_listing(skills@, store@.skills, update_times(store@.skills), order),
            out@.len() == i,
            forall|k: int|
                0 <= k < i ==> reports_managed(
                    #[trigger] out@[k],
                    store@.skills[order[k] as int],
                    store@.targets,
                ),
        decreases skills.len() - i,
    {
        let skill = &skills[i];
        assert(skills@[i as int] == store@.skills[order[i as int] as int]);
        let targets = store.list_skill_targets(skill.id.as_str());
        let dto = managed_skill_dto(skill, &targets);
        proof {
            let mine = store@.targets.filter(target_of(skill.id@));
            let torder = choose|torder: Seq<usize>| #[trigger]
                is_text_listing(targets@, mine, tool_keys(mine), torder);
            assert(is_text_listing(targets@, mine, tool_keys(mine), torder));
            assert(reports_managed(dto, *skill, store@.targets));
        }
        out.push(dto);
        i = i + 1;
    }
    assert(reports_all(out@, store@.skills, store@.targets, order));
    out
}

} // verus!
