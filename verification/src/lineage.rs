//! Agent lineage: who spawned whom within a mission, and which agents are
//! still active.
//!
//! Ids are the 128-bit values of UUIDs; times are milliseconds since the
//! Unix epoch.

use vstd::prelude::*;
use crate::text::string_from_chars;

verus! {

/// A new UUID (version 7) as its 128-bit value.
///
/// Claims nothing: the value depends on the clock and on chance.
#[verifier::external_body]
pub(crate) fn new_uuid_v7() -> (id: u128) {
    uuid::Uuid::now_v7().as_u128()
}

/// chrono's `Utc::now()` in milliseconds since the Unix epoch.
///
/// Claims nothing: the value is the clock's.
#[verifier::external_body]
pub(crate) fn now_millis() -> (t: i64) {
    chrono::Utc::now().timestamp_millis()
}

/// Why a lineage operation failed.
#[derive(Debug, Clone, PartialEq, Eq)]
pub enum LineageError {
    NotFound(String),
}

impl LineageError {
    /// The error's text: `lineage not found: <id>`.
    pub fn message(&self) -> (s: String)
        ensures
            s@ == "lineage not found: "@ + match self {
                LineageError::NotFound(id) => id@,
            },
    {
        match self {
            LineageError::NotFound(id) => {
                let mut s = String::from_str("lineage not found: ");
                s.append(id.as_str());
                s
            },
        }
    }
}

/// One agent in a lineage.
#[derive(Debug, Clone, PartialEq, Eq)]
pub struct LineageEntry {
    pub agent_id: u128,
    pub parent_agent_id: Option<u128>,
    pub role: String,
    pub state: String,
    pub created_at: i64,
    pub terminated_at: Option<i64>,
}

/// The agents of a mission, from its root agent on.
#[derive(Debug, Clone, PartialEq, Eq)]
pub struct Lineage {
    pub id: u128,
    pub mission_id: u128,
    pub root_agent_id: u128,
    pub entries: Vec<LineageEntry>,
    pub created_at: i64,
}

/// An entry as it was added: active, not terminated.
pub open spec fn is_fresh_entry(e: LineageEntry, agent_id: u128, parent: Option<u128>, role: Seq<char>) -> bool {
    &&& e.agent_id == agent_id
    &&& e.parent_agent_id == parent
    &&& e.role@ == role
    &&& e.state@ == "active"@
    &&& e.terminated_at is None
}

/// `new` is `old` with the agent's entries terminated: the same agents,
/// parents, roles and start times, those of `agent_id` now `terminated` with
/// a termination time, the others as they were.
pub open spec fn terminated_in(old: Seq<LineageEntry>, new: Seq<LineageEntry>, agent_id: u128) -> bool {
    &&& new.len() == old.len()
    &&& forall|i: int|
        0 <= i < old.len() ==> {
            if old[i].agent_id == agent_id {
                &&& (#[trigger] new[i]).agent_id == old[i].agent_id
                &&& new[i].parent_agent_id == old[i].parent_agent_id
                &&& new[i].role == old[i].role
                &&& new[i].created_at == old[i].created_at
                &&& new[i].state@ == "terminated"@
                &&& new[i].terminated_at is Some
            } else {
                new[i] == old[i]
            }
        }
}

/// Creates and updates lineages.
pub struct LineageService;

impl LineageService {
    /// A new, empty lineage for a mission and its root agent.
    pub fn create_lineage(mission_id: u128, root_agent_id: u128) -> (l: Lineage)
        ensures
            l.mission_id == mission_id,
            l.root_agent_id == root_agent_id,
            l.entries@.len() == 0,
    {
        let now = now_millis();
        Lineage { id: new_uuid_v7(), mission_id, root_agent_id, entries: Vec::new(), created_at: now }
    }

    /// Appends an active entry for an agent.
    pub fn add_entry(lineage: &mut Lineage, agent_id: u128, parent_agent_id: Option<u128>, role: String)
        ensures
            final(lineage).id == old(lineage).id,
            final(lineage).mission_id == old(lineage).mission_id,
            final(lineage).root_agent_id == old(lineage).root_agent_id,
            final(lineage).created_at == old(lineage).created_at,
            final(lineage).entries@.len() == old(lineage).entries@.len() + 1,
            final(lineage).entries@.take(old(lineage).entries@.len() as int) == old(lineage).entries@,
            is_fresh_entry(final(lineage).entries@.last(), agent_id, parent_agent_id, role@),
    {
        let ghost r = role@;
        let entry = LineageEntry {
            agent_id,
            parent_agent_id,
            role,
            state: String::from_str("active"),
            created_at: now_millis(),
            terminated_at: None,
        };
        lineage.entries.push(entry);
        assert(lineage.entries@.take(old(lineage).entries@.len() as int) =~= old(lineage).entries@);
    }

    /// Marks every entry of the agent terminated.
    pub fn terminate_entry(lineage: &mut Lineage, agent_id: &u128)
        ensures
            final(lineage).id == old(lineage).id,
            final(lineage).mission_id == old(lineage).mission_id,
            final(lineage).root_agent_id == old(lineage).root_agent_id,
            final(lineage).created_at == old(lineage).created_at,
            terminated_in(old(lineage).entries@, final(lineage).entries@, *agent_id),
    {
        let ghost start = lineage.entries@;
        let mut i: usize = 0;
        while i < lineage.entries.len()
            invariant
                lineage.id == old(lineage).id,
                lineage.mission_id == old(lineage).mission_id,
                lineage.root_agent_id == old(lineage).root_agent_id,
                lineage.created_at == old(lineage).created_at,
                start == old(lineage).entries@,
                lineage.entries@.len() == start.len(),
                i <= start.len(),
                forall|j: int|
                    i <= j < start.len() ==> #[trigger] lineage.entries@[j] == start[j],
                terminated_in(start.take(i as int), lineage.entries@.take(i as int), *agent_id),
            decreases lineage.entries.len() - i,
        {
            let ghost before = lineage.entries@;
            if lineage.entries[i].agent_id == *agent_id {
                let old_entry = lineage.entries.remove(i);
                let updated = LineageEntry {
                    agent_id: old_entry.agent_id,
                    parent_agent_id: old_entry.parent_agent_id,
                    role: old_entry.role,
                    state: String::from_str("terminated"),
                    created_at: old_entry.created_at,
                    terminated_at: Some(now_millis()),
                };
                lineage.entries.insert(i, updated);
                proof {
                    assert(lineage.entries@ =~= before.update(i as int, lineage.entries@[i as int]));
                }
            }
            proof {
                assert forall|j: int| 0 <= j < i + 1 implies {
                    if start.take(i + 1)[j].agent_id == *agent_id {
                        &&& (#[trigger] lineage.entries@.take(i + 1)[j]).agent_id == start.take(i + 1)[j].agent_id
                        &&& lineage.entries@.take(i + 1)[j].parent_agent_id == start.take(i + 1)[j].parent_agent_id
                        &&& lineage.entries@.take(i + 1)[j].role == start.take(i + 1)[j].role
                        &&& lineage.entries@.take(i + 1)[j].created_at == start.take(i + 1)[j].created_at
                        &&& lineage.entries@.take(i + 1)[j].state@ == "terminated"@
                        &&& lineage.entries@.take(i + 1)[j].terminated_at is Some
                    } else {
                        lineage.entries@.take(i + 1)[j] == start.take(i + 1)[j]
                    }
                } by {
                    if j < i {
                        assert(lineage.entries@.take(i + 1)[j] == lineage.entries@.take(i as int)[j]);
                        assert(start.take(i + 1)[j] == start.take(i as int)[j]);
                    }
                }
            }
            i = i + 1;
        }
        assert(start.take(start.len() as int) =~= start);
        assert(lineage.entries@.take(start.len() as int) =~= lineage.entries@);
    }
}

} // verus!
