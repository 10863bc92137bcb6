//! Answers of the commands that sync a skill to a tool.

use vstd::prelude::*;

verus! {

/// How and where a skill was synced.
#[derive(Debug)]
pub struct SyncResultDto {
    pub mode_used: String,
    pub target_path: String,
}

/// An updated skill and the targets that were synced again.
#[derive(Debug)]
pub struct UpdateResultDto {
    pub skill_id: String,
    pub name: String,
    pub content_hash: Option<String>,
    pub source_revision: Option<String>,
    pub updated_targets: Vec<String>,
}

} // verus!
