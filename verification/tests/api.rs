use clawhive::api::{
    compile_policy_response, filter_audit_events, simulate_policy_response, ApiError, AuditEventResponse,
    AuditQuery,
};

#[test]
fn error_statuses() {
    assert_eq!(ApiError::NotFound("x".into()).status_and_message(), (404, "x".to_string()));
    assert_eq!(ApiError::Validation("v".into()).status_and_message(), (400, "v".to_string()));
    assert_eq!(ApiError::Unauthorized("u".into()).status_and_message(), (403, "u".to_string()));
    assert_eq!(ApiError::PolicyDenied("p".into()).status_and_message(), (403, "p".to_string()));
    assert_eq!(ApiError::Conflict("c".into()).status_and_message(), (409, "c".to_string()));
    assert_eq!(ApiError::Internal("secret".into()).status_and_message(), (500, "internal error".to_string()));
}

#[test]
fn policy_stub_responses() {
    assert_eq!(compile_policy_response().result, "compiled");
    assert_eq!(simulate_policy_response().result, "simulated");
}

fn ev(id: &str, t: &str, agent: Option<&str>) -> AuditEventResponse {
    AuditEventResponse {
        id: id.to_string(),
        event_type: t.to_string(),
        agent_id: agent.map(|a| a.to_string()),
        mission_id: None,
        task_id: None,
        status: "ok".to_string(),
        timestamp: "0".to_string(),
    }
}

#[test]
fn audit_filter_keeps_matching_events_in_order() {
    let events = vec![ev("1", "spawn", Some("a")), ev("2", "kill", Some("b")), ev("3", "spawn", None), ev("4", "spawn", Some("a"))];
    let all = AuditQuery { agent_id: None, mission_id: None, task_id: None, event_type: None };
    assert_eq!(filter_audit_events(&events, &all).len(), 4);
    let q = AuditQuery { agent_id: Some("a".into()), mission_id: None, task_id: None, event_type: Some("spawn".into()) };
    let ids: Vec<String> = filter_audit_events(&events, &q).into_iter().map(|e| e.id).collect();
    assert_eq!(ids, vec!["1".to_string(), "4".to_string()]);
    let q = AuditQuery { agent_id: None, mission_id: Some("m".into()), task_id: None, event_type: None };
    assert!(filter_audit_events(&events, &q).is_empty());
}
