//! Answers of the commands that mirror a curated list of skills.

use vstd::prelude::*;
use crate::distinct::texts;
use crate::skill_store::DiscoveredSkillRecord;
use crate::text::{split_on, split_text, trim, trimmed};

verus! {

/// The outcome of a sync of the curated list.
#[derive(Debug)]
pub struct SyncAwesomeSkillsResult {
    pub total_synced: usize,
    pub source: String,
}

/// A mirrored skill as the commands report it.
#[derive(Debug)]
pub struct DiscoveredSkillDto {
    pub name: String,
    pub description: String,
    pub github_url: String,
    pub category: String,
    pub tags: Vec<String>,
}

/// Whether the answer says what the record holds, the tags taken apart
/// at their commas.
pub open spec fn reports_record(dto: DiscoveredSkillDto, record: DiscoveredSkillRecord) -> bool {
    &&& dto.name@ == record.name@
    &&& dto.description@ == record.description@
    &&& dto.github_url@ == record.github_url@
    &&& dto.category@ == record.category@
    &&& texts(dto.tags@) == tags_of(record.tags@)
}

/// The tags of a record: the parts between its commas, each without the
/// white space at its ends.
pub open spec fn tags_of(tags: Seq<char>) -> Seq<Seq<char>> {
    split_text(tags, ',').map_values(|part: Seq<char>| trimmed(part))
}

/// The tags of a record, taken apart.
pub fn split_tags(tags: &str) -> (r: Vec<String>)
    ensures
        texts(r@) == tags_of(tags@),
{
    let parts = split_on(tags, ',');
    let mut out: Vec<String> = Vec::new();
    let mut i: usize = 0;
    while i < parts.len()
        invariant
            i <= parts.len(),
            out@.len() == i,
            forall|k: int| 0 <= k < i ==> (#[trigger] out@[k])@ == trimmed(parts@[k]@),
        decreases parts.len() - i,
    {
        out.push(trim(parts[i].as_str()));
        i = i + 1;
    }
    proof {
        let names = parts@.map_values(|part: String| part@);
        assert(names == split_text(tags@, ','));
        assert forall|k: int| 0 <= k < out@.len() implies texts(out@)[k] == tags_of(tags@)[k] by {
            assert(names[k] == parts@[k]@);
        }
        assert(texts(out@) =~= tags_of(tags@));
    }
    out
}

/// The answer for one mirrored skill.
pub fn record_dto(record: &DiscoveredSkillRecord) -> (dto: DiscoveredSkillDto)
    ensures
        reports_record(dto, *record),
{
    DiscoveredSkillDto {
        name: record.name.clone(),
        description: record.description.clone(),
        github_url: record.github_url.clone(),
        category: record.category.clone(),
        tags: split_tags(record.tags.as_str()),
    }
}

/// The answers for a list of mirrored skills, in the same order.
pub fn record_dtos(records: &Vec<DiscoveredSkillRecord>) -> (dtos: Vec<DiscoveredSkillDto>)
    ensures
        dtos@.len() == records@.len(),
        forall|i: int| 0 <= i < dtos@.len() ==> reports_record(#[trigger] dtos@[i], records@[i]),
{
    let mut out: Vec<DiscoveredSkillDto> = Vec::new();
    let mut i: usize = 0;
    while i < records.len()
        invariant
            i <= records.len(),
            out@.len() == i,
            forall|k: int| 0 <= k < i ==> reports_record(#[trigger] out@[k], records@[k]),
        decreases records.len() - i,
    {
        out.push(record_dto(&records[i]));
        i = i + 1;
    }
    out
}

/// The outcome of a sync that found the mirror of `source` already
/// filled with `existing` skills.
pub fn cached_result(existing: usize, source: &str) -> (r: SyncAwesomeSkillsResult)
    ensures
        r.total_synced == existing,
        r.source@ == source@ + " (cached)"@,
{
    let mut label = source.to_string();
    label.append(" (cached)");
    SyncAwesomeSkillsResult { total_synced: existing, source: label }
}

} // verus!
