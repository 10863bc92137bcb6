//! Answers of the commands on AI agents.

use vstd::prelude::*;
use crate::skill_store::AiAgentRecord;

verus! {

/// An AI agent as the commands report it.
#[derive(Debug)]
pub struct AiAgentDto {
    pub id: String,
    pub name: String,
    pub api_key: String,
    pub base_url: String,
    pub created_at: i64,
    pub updated_at: i64,
}

/// Whether the answer says what the record holds.
pub open spec fn reports_agent(dto: AiAgentDto, record: AiAgentRecord) -> bool {
    &&& dto.id@ == record.id@
    &&& dto.name@ == record.name@
    &&& dto.api_key@ == record.api_key@
    &&& dto.base_url@ == record.base_url@
    &&& dto.created_at == record.created_at
    &&& dto.updated_at == record.updated_at
}

/// The answer for one stored agent.
pub fn agent_dto(record: &AiAgentRecord) -> (dto: AiAgentDto)
    ensures
        reports_agent(dto, *record),
{
    AiAgentDto {
        id: record.id.clone(),
        name: record.name.clone(),
        api_key: record.api_key.clone(),
        base_url: record.base_url.clone(),
        created_at: record.created_at,
        updated_at: record.updated_at,
    }
}

/// The answers for a list of stored agents, in the same order.
pub fn agent_dtos(records: &Vec<AiAgentRecord>) -> (dtos: Vec<AiAgentDto>)
    ensures
        dtos@.len() == records@.len(),
        forall|i: int| 0 <= i < dtos@.len() ==> reports_agent(#[trigger] dtos@[i], records@[i]),
{
    let mut out: Vec<AiAgentDto> = Vec::new();
    let mut i: usize = 0;
    while i < records.len()
        invariant
            i <= records.len(),
            out@.len() == i,
            forall|k: int| 0 <= k < i ==> reports_agent(#[trigger] out@[k], records@[k]),
        decreases records.len() - i,
    {
        out.push(agent_dto(&records[i]));
        i = i + 1;
    }
    out
}

} // verus!
