//! The decisions of running an agent end to end: whether it may run, on
//! which worker, with how many turns and which workspace, what the outcome
//! does to the agent and its task, and which events become memories.
//!
//! Loading and saving agents and tasks, the model loop itself and the
//! file system are the caller's.

use vstd::prelude::*;
use crate::text::{append_str, str_eq, string_from_chars};

verus! {

/// Default runtime lease renewal interval in seconds.
pub const DEFAULT_LEASE_SECONDS: u64 = 60;

/// Turns allowed per permitted child.
pub const DEFAULT_TURNS_MULTIPLIER: u32 = 10;

/// Why a run was refused or failed.
#[derive(Debug, Clone, PartialEq, Eq)]
pub enum AgentError {
    AgentNotFound(String),
    Other(String),
}

/// An agent may run when it is `Active` or `Ready` (by its state's name).
pub open spec fn runnable(state_name: Seq<char>) -> bool {
    state_name == "Active"@ || state_name == "Ready"@
}

/// Refuses agents that are not runnable:
/// `agent <id> is in <state> state, cannot execute`.
pub fn ensure_runnable(agent_id: &str, state_name: &str) -> (r: Result<(), AgentError>)
    ensures
        r is Ok <==> runnable(state_name@),
        r matches Err(e) ==> (e matches AgentError::Other(m) && m@ == "agent "@ + agent_id@ + " is in "@
            + state_name@ + " state, cannot execute"@),
{
    if str_eq(state_name, "Active") || str_eq(state_name, "Ready") {
        return Ok(());
    }
    let mut m = String::from_str("agent ");
    m.append(agent_id);
    m.append(" is in ");
    m.append(state_name);
    m.append(" state, cannot execute");
    Err(AgentError::Other(m))
}

/// The worker that runs the agent: the one asked for, else the default.
pub fn choose_worker(worker_override: Option<u128>, default_worker: Option<u128>) -> (r: Result<u128, AgentError>)
    ensures
        match worker_override {
            Some(w) => r == Ok::<u128, AgentError>(w),
            None => match default_worker {
                Some(w) => r == Ok::<u128, AgentError>(w),
                None => r matches Err(AgentError::Other(m)) && m@
                    == "no worker specified and no default worker configured"@,
            },
        },
{
    match worker_override {
        Some(w) => Ok(w),
        None => match default_worker {
            Some(w) => Ok(w),
            None => Err(
                AgentError::Other(String::from_str("no worker specified and no default worker configured")),
            ),
        },
    }
}

/// The turn budget: ten turns per permitted child, at least ten.
pub fn max_turns(max_children: u32) -> (n: u32)
    requires
        max_children <= u32::MAX / 10,
    ensures
        n == (if max_children < 1 { 1 } else { max_children }) * 10,
{
    let c: u32 = if max_children < 1 {
        1
    } else {
        max_children
    };
    c * DEFAULT_TURNS_MULTIPLIER
}

/// The agent's scratch directory, by its id's text.
pub fn workspace_dir(agent_id_text: &str) -> (d: String)
    ensures
        d@ == "/tmp/claw10/"@ + agent_id_text@,
{
    let mut d = String::from_str("/tmp/claw10/");
    d.append(agent_id_text);
    d
}

/// The store key of a skill: `skill:<id>`.
pub fn skill_key(skill_id: &str) -> (k: String)
    ensures
        k@ == "skill:"@ + skill_id@,
{
    let mut k = String::from_str("skill:");
    k.append(skill_id);
    k
}

/// Whether a skill may run, given the name of its state when it was found
/// (`None` when no skill is stored under its key): only an `Active` skill runs.
pub fn check_skill(skill_id: &str, state_name: Option<&str>) -> (r: Result<(), AgentError>)
    ensures
        match state_name {
            None => r matches Err(AgentError::Other(m)) && m@ == "skill not found: "@ + skill_id@,
            Some(st) => if st@ == "Active"@ {
                r is Ok
            } else {
                r matches Err(AgentError::Other(m)) && m@ == "skill "@ + skill_id@ + " is in "@ + st@
                    + " state, must be Active"@
            },
        },
{
    match state_name {
        None => {
            let mut m = String::from_str("skill not found: ");
            m.append(skill_id);
            Err(AgentError::Other(m))
        },
        Some(st) => {
            if str_eq(st, "Active") {
                Ok(())
            } else {
                let mut m = String::from_str("skill ");
                m.append(skill_id);
                m.append(" is in ");
                m.append(st);
                m.append(" state, must be Active");
                Err(AgentError::Other(m))
            }
        },
    }
}

/// How one step of a skill went: the tool ran (`ok`, `Done`), failed (`error`), or
/// no tool has the step's name (`not_found`).
#[derive(Debug, Clone, Copy, PartialEq, Eq, Structural)]
pub enum StepStatus {
    Done,
    Error,
    NotFound,
}

/// The status text a step's record carries.
pub fn step_status_text(s: StepStatus) -> (t: &'static str)
    ensures
        t@ == match s {
            StepStatus::Done => "ok"@,
            StepStatus::Error => "error"@,
            StepStatus::NotFound => "not_found"@,
        },
{
    match s {
        StepStatus::Done => "ok",
        StepStatus::Error => "error",
        StepStatus::NotFound => "not_found",
    }
}

/// The error a step records when no tool has its name:
/// `tool '<step>' not found: <lookup error>`.
pub fn step_not_found_message(step: &str, lookup_error: &str) -> (m: String)
    ensures
        m@ == "tool '"@ + step@ + "' not found: "@ + lookup_error@,
{
    let mut m = String::from_str("tool '");
    m.append(step);
    m.append("' not found: ");
    m.append(lookup_error);
    m
}

/// The record one step of a skill leaves: the step's tool name, how it went,
/// and the tool's result (`ok`) or the error (`error`, `not_found`).
pub struct StepRecord {
    pub step: String,
    pub status: StepStatus,
    pub detail: String,
}

/// Whether `r` records the step `step` whose run went as `run`.
pub open spec fn records_step(r: StepRecord, step: Seq<char>, run: Result<Result<String, String>, String>) -> bool {
    &&& r.step@ == step
    &&& match run {
        Err(lookup) => r.status == StepStatus::NotFound && r.detail@ == "tool '"@ + step + "' not found: "@ + lookup@,
        Ok(Ok(data)) => r.status == StepStatus::Done && r.detail@ == data@,
        Ok(Err(e)) => r.status == StepStatus::Error && r.detail@ == e@,
    }
}

/// The record of one skill step. `run` is `Err` with the lookup error when no
/// tool has the step's name, else what the tool returned: its result, or its
/// error's text.
pub fn step_record(step: &str, run: Result<Result<String, String>, String>) -> (r: StepRecord)
    ensures
        records_step(r, step@, run),
{
    match run {
        Err(lookup) => StepRecord {
            step: String::from_str(step),
            status: StepStatus::NotFound,
            detail: step_not_found_message(step, lookup.as_str()),
        },
        Ok(Ok(data)) => StepRecord { step: String::from_str(step), status: StepStatus::Done, detail: data },
        Ok(Err(e)) => StepRecord { step: String::from_str(step), status: StepStatus::Error, detail: e },
    }
}

/// The records of a skill's steps, in order: the `i`th step's name and how its
/// run went (`runs[i]`, as for [`step_record`]); a failed step does not stop
/// the ones after it.
pub fn step_records(steps: &Vec<String>, runs: Vec<Result<Result<String, String>, String>>) -> (r: Vec<StepRecord>)
    requires
        runs@.len() == steps@.len(),
    ensures
        r@.len() == steps@.len(),
        forall|i: int| 0 <= i < steps@.len() ==> records_step(#[trigger] r@[i], steps@[i]@, runs@[i]),
{
    let ghost all = runs@;
    let mut rest = runs;
    let mut out: Vec<StepRecord> = Vec::new();
    let mut i: usize = 0;
    while i < steps.len()
        invariant
            all.len() == steps@.len(),
            i <= steps@.len(),
            rest@ == all.skip(i as int),
            out@.len() == i,
            forall|j: int| 0 <= j < i ==> records_step(#[trigger] out@[j], steps@[j]@, all[j]),
        decreases steps.len() - i,
    {
        assert(rest@[0] == all[i as int]);
        let run = rest.remove(0);
        assert(rest@ =~= all.skip(i + 1));
        let rec = step_record(steps[i].as_str(), run);
        out.push(rec);
        i = i + 1;
    }
    out
}

/// What running a skill returns: how many steps were run and their records,
/// one per step in order (a failed step does not stop the others).
pub struct SkillReport {
    pub steps_completed: usize,
    pub results: Vec<StepRecord>,
}

/// The report over the records of the steps run.
pub fn skill_report(results: Vec<StepRecord>) -> (r: SkillReport)
    ensures
        r.steps_completed == results@.len(),
        r.results@ == results@,
{
    SkillReport { steps_completed: results.len(), results }
}

/// A task's state as a run moves it.
#[derive(Debug, Clone, Copy, PartialEq, Eq, Structural)]
pub enum TaskState {
    Running,
    Accepted,
    Failed,
}

/// How the model loop ended.
#[derive(Debug, Clone, Copy, PartialEq, Eq, Structural)]
pub enum RunOutcome {
    /// The executor returned an error.
    Errored,
    /// The session ended; `completed` says whether it reached its objective.
    Ended { completed: bool },
}

/// What follows a run: whether the agent becomes `Active`, the task state
/// to record (only when the run was for a task), and whether the session's
/// events are written to memory.
#[derive(Debug, Clone, Copy, PartialEq, Eq, Structural)]
pub struct RunFollowUp {
    pub agent_active: bool,
    pub task_state: Option<TaskState>,
    pub write_memory: bool,
    pub save_agent: bool,
}

/// A completed session makes the agent active, accepts the task and writes
/// memories; any other ending fails the task. An executor error fails the
/// task and leaves the agent unsaved.
pub fn run_follow_up(outcome: RunOutcome, for_task: bool) -> (f: RunFollowUp)
    ensures
        f == (match outcome {
            RunOutcome::Errored => RunFollowUp {
                agent_active: false,
                task_state: if for_task { Some(TaskState::Failed) } else { None },
                write_memory: false,
                save_agent: false,
            },
            RunOutcome::Ended { completed } => RunFollowUp {
                agent_active: completed,
                task_state: if !for_task {
                    None
                } else if completed {
                    Some(TaskState::Accepted)
                } else {
                    Some(TaskState::Failed)
                },
                write_memory: completed,
                save_agent: true,
            },
        }),
{
    match outcome {
        RunOutcome::Errored => RunFollowUp {
            agent_active: false,
            task_state: if for_task {
                Some(TaskState::Failed)
            } else {
                None
            },
            write_memory: false,
            save_agent: false,
        },
        RunOutcome::Ended { completed } => RunFollowUp {
            agent_active: completed,
            task_state: if !for_task {
                None
            } else if completed {
                Some(TaskState::Accepted)
            } else {
                Some(TaskState::Failed)
            },
            write_memory: completed,
            save_agent: true,
        },
    }
}

/// The kind of memory an event is written as.
#[derive(Debug, Clone, Copy, PartialEq, Eq, Structural)]
pub enum MemoryType {
    Working,
    Episodic,
}

/// A session event, by what memory write-back reads of it.
pub enum SessionEvent {
    Thought { content: String },
    ObjectiveComplete { summary: String },
    Other,
}

/// The memory an event becomes, if any: a non-empty thought as working
/// memory, a non-empty completion summary as an episode that names the
/// objective.
pub open spec fn memory_of(objective: Seq<char>, e: SessionEvent) -> Option<(Seq<char>, MemoryType)> {
    match e {
        SessionEvent::Thought { content } => if content@.len() > 0 {
            Some((content@, MemoryType::Working))
        } else {
            None
        },
        SessionEvent::ObjectiveComplete { summary } => if summary@.len() > 0 {
            Some(("Objective: "@ + objective + "\n\nResult: "@ + summary@, MemoryType::Episodic))
        } else {
            None
        },
        SessionEvent::Other => None,
    }
}

pub open spec fn memories_of(objective: Seq<char>, es: Seq<SessionEvent>) -> Seq<(Seq<char>, MemoryType)>
    decreases es.len(),
{
    if es.len() == 0 {
        Seq::empty()
    } else {
        let before = memories_of(objective, es.drop_last());
        match memory_of(objective, es.last()) {
            Some(m) => before.push(m),
            None => before,
        }
    }
}

/// The memories a completed session writes back, in event order.
pub fn session_memories(objective: &str, events: &[SessionEvent]) -> (r: Vec<(String, MemoryType)>)
    ensures
        r@.map_values(|m: (String, MemoryType)| (m.0@, m.1)) == memories_of(objective@, events@),
{
    let ghost view = |m: (String, MemoryType)| (m.0@, m.1);
    let mut out: Vec<(String, MemoryType)> = Vec::new();
    let mut i: usize = 0;
    while i < events.len()
        invariant
            i <= events@.len(),
            view == (|m: (String, MemoryType)| (m.0@, m.1)),
            out@.map_values(view) == memories_of(objective@, events@.take(i as int)),
        decreases events.len() - i,
    {
        proof {
            assert(events@.take(i + 1).drop_last() =~= events@.take(i as int));
            assert(events@.take(i + 1).last() == events@[i as int]);
        }
        let ghost before = out@.map_values(view);
        match &events[i] {
            SessionEvent::Thought { content } => {
                if !content.as_str().is_empty() {
                    out.push((content.clone(), MemoryType::Working));
                    assert(out@.map_values(view) =~= before.push((content@, MemoryType::Working)));
                } else {
                    assert(content@.len() == 0);
                }
            },
            SessionEvent::ObjectiveComplete { summary } => {
                if !summary.as_str().is_empty() {
                    let mut v: Vec<char> = Vec::new();
                    append_str(&mut v, "Objective: ");
                    append_str(&mut v, objective);
                    append_str(&mut v, "\n\nResult: ");
                    append_str(&mut v, summary.as_str());
                    let text = string_from_chars(&v);
                    assert(text@ =~= "Objective: "@ + objective@ + "\n\nResult: "@ + summary@);
                    out.push((text, MemoryType::Episodic));
                    assert(out@.map_values(view) =~= before.push((text@, MemoryType::Episodic)));
                } else {
                    assert(summary@.len() == 0);
                }
            },
            SessionEvent::Other => {},
        }
        i = i + 1;
    }
    assert(events@.take(events@.len() as int) =~= events@);
    out
}

/// What `serde_json::from_str::<Vec<String>>` makes of a text: the list, or
/// `None` when the text is not a JSON array of strings.
pub uninterp spec fn json_string_list(s: Seq<char>) -> Option<Seq<Seq<char>>>;

/// Calls serde_json's `from_str::<Vec<String>>`; the outcome is named
/// `json_string_list`.
#[verifier::external_body]
fn parse_string_list(s: &str) -> (r: Option<Vec<String>>)
    ensures
        match r {
            Some(v) => json_string_list(s@) == Some(crate::text::strings_view(v@)),
            None => json_string_list(s@) is None,
        },
{
    serde_json::from_str::<Vec<String>>(s).ok()
}

/// The chat history passed in the `chat_history` context entry (a JSON list
/// of strings); none when the entry is missing, empty or not such a list.
pub fn chat_history(raw: Option<&str>) -> (h: Vec<String>)
    ensures
        crate::text::strings_view(h@) == match raw {
            Some(s) => if s@.len() == 0 {
                Seq::<Seq<char>>::empty()
            } else {
                match json_string_list(s@) {
                    Some(l) => l,
                    None => Seq::<Seq<char>>::empty(),
                }
            },
            None => Seq::<Seq<char>>::empty(),
        },
{
    let empty: Vec<String> = Vec::new();
    assert(crate::text::strings_view(empty@) =~= Seq::<Seq<char>>::empty());
    match raw {
        Some(s) => {
            if s.is_empty() {
                return empty;
            }
            match parse_string_list(s) {
                Some(v) => v,
                None => empty,
            }
        },
        None => empty,
    }
}

/// The store entries that fill the agent's context, as (store key, context
/// key): its distilled memory and the agent and operator profile.
pub fn profile_context_keys(agent_id_text: &str) -> (r: Vec<(String, &'static str)>)
    ensures
        r@.len() == 7,
        r@[0].0@ == "memory:distilled:agent:"@ + agent_id_text@ && r@[0].1@ == "distilled_memory"@,
        r@[1].0@ == "profile:agent:soul"@ && r@[1].1@ == "agent_soul"@,
        r@[2].0@ == "profile:agent:name"@ && r@[2].1@ == "agent_name"@,
        r@[3].0@ == "profile:operator:name"@ && r@[3].1@ == "operator_name"@,
        r@[4].0@ == "profile:operator:timezone"@ && r@[4].1@ == "operator_timezone"@,
        r@[5].0@ == "profile:operator:language"@ && r@[5].1@ == "operator_language"@,
        r@[6].0@ == "profile:operator:style"@ && r@[6].1@ == "operator_style"@,
{
    let mut k = String::from_str("memory:distilled:agent:");
    k.append(agent_id_text);
    let mut r: Vec<(String, &'static str)> = Vec::new();
    r.push((k, "distilled_memory"));
    r.push((String::from_str("profile:agent:soul"), "agent_soul"));
    r.push((String::from_str("profile:agent:name"), "agent_name"));
    r.push((String::from_str("profile:operator:name"), "operator_name"));
    r.push((String::from_str("profile:operator:timezone"), "operator_timezone"));
    r.push((String::from_str("profile:operator:language"), "operator_language"));
    r.push((String::from_str("profile:operator:style"), "operator_style"));
    r
}

} // verus!
