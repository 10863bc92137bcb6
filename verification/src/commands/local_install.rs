//! Answers of the commands that install a skill from a local directory.

use vstd::prelude::*;

verus! {

/// An installed skill as the commands report it.
#[derive(Debug)]
pub struct InstallResultDto {
    pub skill_id: String,
    pub name: String,
    pub central_path: String,
    pub content_hash: Option<String>,
}

/// The answer for an installed skill.
pub fn to_install_dto(
    skill_id: String,
    name: String,
    central_path: String,
    content_hash: Option<String>,
) -> (dto: InstallResultDto)
    ensures
        dto.skill_id == skill_id,
        dto.name == name,
        dto.central_path == central_path,
        dto.content_hash == content_hash,
{
    InstallResultDto { skill_id, name, central_path, content_hash }
}

} // verus!
