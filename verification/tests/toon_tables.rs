use clawhive::toon::{
    context_stats, AgentRow, EvidenceRow, LineageFields, LineageRow, MemoryRow, MissionFields, PolicyBundleFields,
    PolicyRuleFields, SkillRow, TaskFields, ToonEncoder, WorkerRow,
};

fn s(x: &str) -> String {
    x.to_string()
}

#[test]
fn task_and_mission_are_key_value_lines() {
    let t = TaskFields { id: s("TaskId(1)"), objective: s("fix, then ship"), state: s("Running"), risk: s("Low"), deadline: None };
    assert_eq!(
        ToonEncoder::encode_task(&t).unwrap(),
        "id: TaskId(1)\nobjective: \"fix, then ship\"\nstate: Running\nrisk: Low\ndeadline: none"
    );
    let m = MissionFields { id: s("M"), objective: s("grow"), mode: s("Persistent") };
    assert_eq!(ToonEncoder::encode_mission(&m).unwrap(), "id: M\nobjective: grow\nmode: Persistent");
}

#[test]
fn tables_have_a_header_and_indented_rows() {
    assert_eq!(ToonEncoder::encode_memories(&[]).unwrap(), "memories: []");
    let ms = vec![MemoryRow { content: s("likes tea"), memory_type: s("working"), confidence: s("0.85") }];
    assert_eq!(ToonEncoder::encode_memories(&ms).unwrap(), "memories[1]{content,type,confidence}:\n  likes tea,working,0.85");
    let agents = vec![
        AgentRow { id: s("A1"), role: s("lead"), state: s("Active") },
        AgentRow { id: s("A2"), role: s("a,b"), state: s("Ready") },
    ];
    assert_eq!(
        ToonEncoder::encode_agent_roster(&agents).unwrap(),
        "agents[2]{id,role,state}:\n  A1,lead,Active\n  A2,\"a,b\",Ready"
    );
    let ev = vec![EvidenceRow { id: s("E"), evidence_type: s("Log"), accepted: false }];
    assert_eq!(ToonEncoder::encode_evidence(&ev).unwrap(), "evidence[1]{id,type,accepted}:\n  E,Log,false");
    let sk = vec![SkillRow { name: s("scan"), version: s("1.0"), state: s("Active"), cost: s("0.10") }];
    assert_eq!(ToonEncoder::encode_skills(&sk).unwrap(), "skills[1]{name,version,state,cost}:\n  scan,1.0,Active,0.10");
    let w = vec![WorkerRow { name: s("w1"), worker_type: s("Local"), state: s("Online") }];
    assert_eq!(ToonEncoder::encode_workers(&w).unwrap(), "workers[1]{name,type,state}:\n  w1,Local,Online");
}

#[test]
fn only_active_policy_bundles_are_listed() {
    let rule = |allow: bool, a: &str| PolicyRuleFields { allow, action: s(a), resource: s("*") };
    let bundles = vec![
        PolicyBundleFields { id: s("B1"), is_active: true, rules: vec![rule(true, "read"), rule(false, "delete")] },
        PolicyBundleFields { id: s("B2"), is_active: false, rules: vec![rule(true, "write")] },
    ];
    assert_eq!(
        ToonEncoder::encode_policy_summary(&bundles).unwrap(),
        "policies[2]{bundle_id,effect,action,resource}:\n  B1,ALLOW,read,*\n  B1,DENY,delete,*"
    );
    assert_eq!(ToonEncoder::encode_policy_summary(&bundles[1..]).unwrap(), "policies: []");
}

#[test]
fn lineage_lists_parents() {
    let l = LineageFields {
        root_agent_id: s("R"),
        entries: vec![
            LineageRow { agent_id: s("R"), parent_agent_id: None, state: s("Active") },
            LineageRow { agent_id: s("C"), parent_agent_id: Some(s("R")), state: s("Ready") },
        ],
    };
    assert_eq!(
        ToonEncoder::encode_lineage(&l).unwrap(),
        "root_agent_id: R\nentries[2]{agent_id,parent_agent_id,state}:\n  R,none,Active\n  C,R,Ready"
    );
    let empty = LineageFields { root_agent_id: s("R"), entries: vec![] };
    assert_eq!(ToonEncoder::encode_lineage(&empty).unwrap(), "root_agent_id: R\nentries: []");
}

#[test]
fn context_sections_in_fixed_order() {
    let t = TaskFields { id: s("T"), objective: s("o"), state: s("S"), risk: s("R"), deadline: Some(s("2024-01-01T00:00:00Z")) };
    let agents = vec![AgentRow { id: s("A"), role: s("r"), state: s("Active") }];
    let doc = ToonEncoder::build_context(Some(&t), None, &[], &[], &agents, None, &[]).unwrap();
    assert_eq!(
        doc,
        "[TOON v1]\n[task]\nid: T\nobjective: o\nstate: S\nrisk: R\ndeadline: 2024-01-01T00:00:00Z\n[agents]\nagents[1]{id,role,state}:\n  A,r,Active"
    );
    assert_eq!(ToonEncoder::build_context(None, None, &[], &[], &[], None, &[]).unwrap(), "[TOON v1]");
}

#[test]
fn stats_count_bytes_brackets_and_specials() {
    let st = context_stats("[TOON v1]\n{a}: é_-.!");
    assert_eq!(st.bytes, "[TOON v1]\n{a}: é_-.!".len() as u64);
    assert_eq!(st.brackets, 2);
    assert_eq!(st.braces, 2);
    assert_eq!(st.specials, 6);
}
