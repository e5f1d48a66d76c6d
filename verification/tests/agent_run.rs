use clawhive::agent_run::{
    chat_history, check_skill, choose_worker, ensure_runnable, max_turns, profile_context_keys, run_follow_up,
    session_memories, skill_key, skill_report, step_not_found_message, step_record, step_records, step_status_text, workspace_dir, AgentError, MemoryType,
    RunOutcome, SessionEvent, StepStatus, TaskState,
};

#[test]
fn only_active_or_ready_agents_run() {
    assert_eq!(ensure_runnable("a1", "Active"), Ok(()));
    assert_eq!(ensure_runnable("a1", "Ready"), Ok(()));
    assert_eq!(
        ensure_runnable("a1", "Hibernated"),
        Err(AgentError::Other("agent a1 is in Hibernated state, cannot execute".to_string()))
    );
}

#[test]
fn worker_override_wins_over_default() {
    assert_eq!(choose_worker(Some(7), Some(9)), Ok(7));
    assert_eq!(choose_worker(None, Some(9)), Ok(9));
    assert_eq!(
        choose_worker(None, None),
        Err(AgentError::Other("no worker specified and no default worker configured".to_string()))
    );
}

#[test]
fn turn_budget_is_ten_per_child_and_at_least_ten() {
    assert_eq!(max_turns(0), 10);
    assert_eq!(max_turns(1), 10);
    assert_eq!(max_turns(5), 50);
}

#[test]
fn workspace_is_under_tmp() {
    assert_eq!(workspace_dir("abc"), "/tmp/claw10/abc");
}

#[test]
fn follow_up_of_each_outcome() {
    let f = run_follow_up(RunOutcome::Ended { completed: true }, true);
    assert!(f.agent_active && f.write_memory && f.save_agent);
    assert_eq!(f.task_state, Some(TaskState::Accepted));
    let f = run_follow_up(RunOutcome::Ended { completed: false }, true);
    assert!(!f.agent_active && !f.write_memory && f.save_agent);
    assert_eq!(f.task_state, Some(TaskState::Failed));
    let f = run_follow_up(RunOutcome::Errored, true);
    assert!(!f.save_agent);
    assert_eq!(f.task_state, Some(TaskState::Failed));
    let f = run_follow_up(RunOutcome::Ended { completed: true }, false);
    assert_eq!(f.task_state, None);
}

#[test]
fn memories_come_from_thoughts_and_completion() {
    let events = vec![
        SessionEvent::Thought { content: "look around".to_string() },
        SessionEvent::Thought { content: String::new() },
        SessionEvent::Other,
        SessionEvent::ObjectiveComplete { summary: "done".to_string() },
    ];
    let m = session_memories("find it", &events);
    assert_eq!(
        m,
        vec![
            ("look around".to_string(), MemoryType::Working),
            ("Objective: find it\n\nResult: done".to_string(), MemoryType::Episodic),
        ]
    );
}

#[test]
fn chat_history_is_a_json_list_or_nothing() {
    assert_eq!(chat_history(Some("[\"hi\",\"there\"]")), vec!["hi".to_string(), "there".to_string()]);
    assert!(chat_history(Some("not json")).is_empty());
    assert!(chat_history(Some("")).is_empty());
    assert!(chat_history(None).is_empty());
}

#[test]
fn profile_keys_name_the_agent() {
    let k = profile_context_keys("a1");
    assert_eq!(k.len(), 7);
    assert_eq!(k[0].0, "memory:distilled:agent:a1");
    assert_eq!(k[0].1, "distilled_memory");
    assert_eq!(k[6].0, "profile:operator:style");
}

#[test]
fn skill_checks() {
    assert_eq!(skill_key("abc"), "skill:abc");
    match check_skill("s1", None) {
        Err(AgentError::Other(m)) => assert_eq!(m, "skill not found: s1"),
        _ => panic!("expected not found"),
    }
    match check_skill("s1", Some("Candidate")) {
        Err(AgentError::Other(m)) => {
            assert_eq!(m, "skill s1 is in Candidate state, must be Active");
            assert!(m.contains("Candidate"));
        }
        _ => panic!("expected state error"),
    }
    assert!(check_skill("s1", Some("Active")).is_ok());
    assert_eq!(step_status_text(StepStatus::Done), "ok");
    assert_eq!(step_status_text(StepStatus::Error), "error");
    assert_eq!(step_status_text(StepStatus::NotFound), "not_found");
    assert_eq!(step_not_found_message("grep", "tool not found: grep"), "tool 'grep' not found: tool not found: grep");
}

#[test]
fn skill_step_records() {
    let a = step_record("shell", Ok(Ok("{\"ok\":true}".to_string())));
    assert_eq!((a.step.as_str(), a.status, a.detail.as_str()), ("shell", StepStatus::Done, "{\"ok\":true}"));
    let b = step_record("shell", Ok(Err("execution failed: boom".to_string())));
    assert_eq!((b.status, b.detail.as_str()), (StepStatus::Error, "execution failed: boom"));
    let c = step_record("grep", Err("tool not found: grep".to_string()));
    assert_eq!((c.status, c.detail.as_str()), (StepStatus::NotFound, "tool 'grep' not found: tool not found: grep"));
    let report = skill_report(vec![a, b, c]);
    assert_eq!(report.steps_completed, 3);
    assert_eq!(report.results[2].step, "grep");
    assert_eq!(skill_report(vec![]).steps_completed, 0);
}

#[test]
fn skill_steps_all_run_in_order() {
    let steps = vec!["read".to_string(), "missing".to_string(), "shell".to_string()];
    let runs = vec![
        Ok(Ok("text".to_string())),
        Err("no such tool".to_string()),
        Ok(Err("exit 1".to_string())),
    ];
    let records = step_records(&steps, runs);
    let seen: Vec<(&str, StepStatus, &str)> =
        records.iter().map(|r| (r.step.as_str(), r.status, r.detail.as_str())).collect();
    assert_eq!(
        seen,
        vec![
            ("read", StepStatus::Done, "text"),
            ("missing", StepStatus::NotFound, "tool 'missing' not found: no such tool"),
            ("shell", StepStatus::Error, "exit 1"),
        ]
    );
    assert_eq!(skill_report(records).steps_completed, 3);
}
