use clawhive::audit::{AuditEvent, AuditService};

/// The cost and the payload, which the log carries without reading.
#[derive(Debug, Clone, PartialEq)]
struct Details {
    cost_usd: f64,
    payload: String,
}

fn make_event(id: &str) -> AuditEvent<Details> {
    AuditEvent {
        id: uuid::Uuid::parse_str(id).unwrap().as_u128(),
        tenant_id: "tenant-1".into(),
        mission_id: Some("mission-1".into()),
        task_id: Some("task-1".into()),
        agent_id: Some("agent-1".into()),
        parent_agent_id: None,
        lineage_id: Some("lineage-1".into()),
        worker_id: None,
        trace_id: Some("trace-1".into()),
        event_type: "task.completed".into(),
        lifecycle_mode: Some("persistent".into()),
        risk_level: Some("low".into()),
        status: "success".into(),
        timestamp_ms: 0,
        details: Details { cost_usd: 0.0, payload: "{\"detail\":\"ok\"}".into() },
    }
}

#[test]
fn test_emit_and_get() {
    let mut svc = AuditService::new();
    let event = make_event("00000000-0000-0000-0000-000000000001");
    let id = event.id;
    let stamped = svc.emit_event(event);
    assert!(stamped > 0);

    let retrieved = svc.get_event(id).unwrap();
    assert_eq!(retrieved.event_type, "task.completed");
    assert_eq!(retrieved.agent_id.as_deref(), Some("agent-1"));
    assert_eq!(retrieved.timestamp_ms, stamped);
    assert_eq!(retrieved.details.payload, "{\"detail\":\"ok\"}");
}

#[test]
fn test_get_nonexistent() {
    let svc: AuditService<Details> = AuditService::new();
    let retrieved = svc.get_event(uuid::Uuid::nil().as_u128());
    assert!(retrieved.is_none());
}

#[test]
fn test_list_all() {
    let mut svc = AuditService::new();
    let e1 = make_event("00000000-0000-0000-0000-000000000001");
    let e2 = make_event("00000000-0000-0000-0000-000000000002");
    svc.emit_event(e1);
    svc.emit_event(e2);

    let all = svc.list_all();
    assert_eq!(all.len(), 2);
}

#[test]
fn test_list_by_agent() {
    let mut svc = AuditService::new();
    let mut e1 = make_event("00000000-0000-0000-0000-000000000001");
    let mut e2 = make_event("00000000-0000-0000-0000-000000000002");
    e1.agent_id = Some("agent-a".into());
    e2.agent_id = Some("agent-b".into());
    svc.emit_event(e1);
    svc.emit_event(e2);

    let by_a = svc.list_by_agent("agent-a");
    assert_eq!(by_a.len(), 1);
    assert_eq!(by_a[0].agent_id.as_deref(), Some("agent-a"));
}

#[test]
fn test_list_by_event_type() {
    let mut svc = AuditService::new();
    let mut e1 = make_event("00000000-0000-0000-0000-000000000001");
    let mut e2 = make_event("00000000-0000-0000-0000-000000000002");
    e1.event_type = "spawn.approved".into();
    e2.event_type = "task.completed".into();
    svc.emit_event(e1);
    svc.emit_event(e2);

    let completed = svc.list_by_event_type("task.completed");
    assert_eq!(completed.len(), 1);
}

#[test]
fn test_count() {
    let mut svc = AuditService::new();
    svc.emit_event(make_event("00000000-0000-0000-0000-000000000001"));
    svc.emit_event(make_event("00000000-0000-0000-0000-000000000002"));
    assert_eq!(svc.count(), 2);
}

#[test]
fn audit_log_keeps_id_order_and_replaces_same_id() {
    let mut svc = AuditService::new();
    svc.emit_event(make_event("00000000-0000-0000-0000-000000000003"));
    svc.emit_event(make_event("00000000-0000-0000-0000-000000000001"));
    let mut again = make_event("00000000-0000-0000-0000-000000000003");
    again.status = "failed".into();
    again.mission_id = None;
    svc.emit_event(again);
    svc.emit_event(make_event("00000000-0000-0000-0000-000000000002"));
    let ids: Vec<u128> = svc.list_all().iter().map(|e| e.id).collect();
    assert_eq!(ids, vec![1, 2, 3]);
    assert_eq!(svc.count(), 3);
    assert_eq!(svc.get_event(3).unwrap().status, "failed");
    assert_eq!(svc.list_by_mission("mission-1").len(), 2);
    assert_eq!(svc.list_by_task("task-1").len(), 3);
    assert!(svc.list_by_task("task-2").is_empty());
}
