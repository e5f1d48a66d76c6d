//! The control API's errors, responses and audit-event filtering.
//!
//! HTTP routing and JSON encoding are the caller's.

use vstd::prelude::*;
use crate::text::str_eq;

verus! {

/// An error the API answers with.
#[derive(Debug, Clone, PartialEq, Eq)]
pub enum ApiError {
    NotFound(String),
    Validation(String),
    Unauthorized(String),
    PolicyDenied(String),
    Conflict(String),
    Internal(String),
}

/// The HTTP status and message of an error. Internal errors are not shown:
/// their message is `internal error`.
pub open spec fn api_error_reply(e: ApiError) -> (u16, Seq<char>) {
    match e {
        ApiError::NotFound(m) => (404, m@),
        ApiError::Validation(m) => (400, m@),
        ApiError::Unauthorized(m) => (403, m@),
        ApiError::PolicyDenied(m) => (403, m@),
        ApiError::Conflict(m) => (409, m@),
        ApiError::Internal(_) => (500, "internal error"@),
    }
}

impl ApiError {
    /// The status code and the message sent back as `{"error": message}`.
    pub fn status_and_message(&self) -> (r: (u16, String))
        ensures
            (r.0, r.1@) == api_error_reply(*self),
    {
        match self {
            ApiError::NotFound(m) => (404, m.clone()),
            ApiError::Validation(m) => (400, m.clone()),
            ApiError::Unauthorized(m) => (403, m.clone()),
            ApiError::PolicyDenied(m) => (403, m.clone()),
            ApiError::Conflict(m) => (409, m.clone()),
            ApiError::Internal(_) => (500, String::from_str("internal error")),
        }
    }
}

#[derive(Debug, Clone, PartialEq, Eq)]
pub struct AgentResponse {
    pub id: String,
    pub name: String,
    pub state: String,
}

#[derive(Debug, Clone, PartialEq, Eq)]
pub struct SpawnResponse {
    pub id: String,
    pub state: String,
}

#[derive(Debug, Clone, PartialEq, Eq)]
pub struct CreateSpawnRequest {
    pub mission_id: String,
    pub reason: String,
}

#[derive(Debug, Clone, PartialEq, Eq)]
pub struct WorkerResponse {
    pub id: String,
    pub worker_type: String,
    pub state: String,
}

#[derive(Debug, Clone, PartialEq, Eq)]
pub struct PolicyResponse {
    pub result: String,
}

#[derive(Debug, Clone, PartialEq, Eq)]
pub struct CompilePolicyRequest {
    pub source: String,
}

/// The placeholder agent answer: every field empty.
pub fn empty_agent_response() -> (r: AgentResponse)
    ensures
        r.id@.len() == 0 && r.name@.len() == 0 && r.state@.len() == 0,
{
    AgentResponse { id: String::new(), name: String::new(), state: String::new() }
}

/// The placeholder spawn answer: every field empty.
pub fn empty_spawn_response() -> (r: SpawnResponse)
    ensures
        r.id@.len() == 0 && r.state@.len() == 0,
{
    SpawnResponse { id: String::new(), state: String::new() }
}

/// The placeholder worker answer: every field empty.
pub fn empty_worker_response() -> (r: WorkerResponse)
    ensures
        r.id@.len() == 0 && r.worker_type@.len() == 0 && r.state@.len() == 0,
{
    WorkerResponse { id: String::new(), worker_type: String::new(), state: String::new() }
}

/// The answer to compiling a policy.
pub fn compile_policy_response() -> (r: PolicyResponse)
    ensures
        r.result@ == "compiled"@,
{
    PolicyResponse { result: String::from_str("compiled") }
}

/// The answer to simulating a policy.
pub fn simulate_policy_response() -> (r: PolicyResponse)
    ensures
        r.result@ == "simulated"@,
{
    PolicyResponse { result: String::from_str("simulated") }
}

/// An audit event as the API shows it.
#[derive(Debug, Clone, PartialEq, Eq)]
pub struct AuditEventResponse {
    pub id: String,
    pub event_type: String,
    pub agent_id: Option<String>,
    pub mission_id: Option<String>,
    pub task_id: Option<String>,
    pub status: String,
    pub timestamp: String,
}

/// The filters of an audit listing; each given one must hold.
#[derive(Debug, Clone, PartialEq, Eq)]
pub struct AuditQuery {
    pub agent_id: Option<String>,
    pub mission_id: Option<String>,
    pub task_id: Option<String>,
    pub event_type: Option<String>,
}

pub open spec fn opt_matches(field: Option<String>, wanted: Option<String>) -> bool {
    match wanted {
        None => true,
        Some(w) => match field {
            Some(f) => f@ == w@,
            None => false,
        },
    }
}

/// Whether an event passes the query.
pub open spec fn audit_matches(e: AuditEventResponse, q: AuditQuery) -> bool {
    &&& opt_matches(e.agent_id, q.agent_id)
    &&& opt_matches(e.mission_id, q.mission_id)
    &&& opt_matches(e.task_id, q.task_id)
    &&& match q.event_type {
        None => true,
        Some(t) => e.event_type@ == t@,
    }
}

fn opt_field_matches(field: &Option<String>, wanted: &Option<String>) -> (b: bool)
    ensures
        b == opt_matches(*field, *wanted),
{
    match wanted {
        None => true,
        Some(w) => match field {
            Some(f) => str_eq(f.as_str(), w.as_str()),
            None => false,
        },
    }
}

fn passes(e: &AuditEventResponse, q: &AuditQuery) -> (b: bool)
    ensures
        b == audit_matches(*e, *q),
{
    opt_field_matches(&e.agent_id, &q.agent_id) && opt_field_matches(&e.mission_id, &q.mission_id)
        && opt_field_matches(&e.task_id, &q.task_id) && match &q.event_type {
        None => true,
        Some(t) => str_eq(e.event_type.as_str(), t.as_str()),
    }
}

fn copy_opt(o: &Option<String>) -> (r: Option<String>)
    ensures
        r == *o,
{
    match o {
        Some(s) => Some(s.clone()),
        None => None,
    }
}

fn copy_event(e: &AuditEventResponse) -> (r: AuditEventResponse)
    ensures
        r == *e,
{
    AuditEventResponse {
        id: e.id.clone(),
        event_type: e.event_type.clone(),
        agent_id: copy_opt(&e.agent_id),
        mission_id: copy_opt(&e.mission_id),
        task_id: copy_opt(&e.task_id),
        status: e.status.clone(),
        timestamp: e.timestamp.clone(),
    }
}

/// The events that pass every filter of the query, in order.
pub fn filter_audit_events(events: &Vec<AuditEventResponse>, query: &AuditQuery) -> (r: Vec<AuditEventResponse>)
    ensures
        r@ == events@.filter(|e: AuditEventResponse| audit_matches(e, *query)),
{
    let ghost f = |e: AuditEventResponse| audit_matches(e, *query);
    let mut kept: Vec<AuditEventResponse> = Vec::new();
    let mut i: usize = 0;
    while i < events.len()
        invariant
            i <= events@.len(),
            f == (|e: AuditEventResponse| audit_matches(e, *query)),
            kept@ == events@.take(i as int).filter(f),
        decreases events.len() - i,
    {
        proof {
            assert(events@.take(i + 1).drop_last() =~= events@.take(i as int));
            assert(events@.take(i + 1) =~= events@.take(i as int).push(events@[i as int]));
            events@.take(i as int).lemma_filter_push(events@[i as int], f);
        }
        if passes(&events[i], query) {
            kept.push(copy_event(&events[i]));
        }
        i = i + 1;
    }
    assert(events@.take(events@.len() as int) =~= events@);
    kept
}

} // verus!
