use clawhive::events::{EventKind, InMemoryEventBus, SubscriptionId};

fn subject_matching_cases() {
    assert!(InMemoryEventBus::matches("clawhive.agent.*", "clawhive.agent.spawned"));
    assert!(InMemoryEventBus::matches("clawhive.>", "clawhive.agent.spawned"));
    assert!(InMemoryEventBus::matches("clawhive.agent.spawned", "clawhive.agent.spawned"));
    assert!(!InMemoryEventBus::matches("clawhive.task.*", "clawhive.agent.spawned"));
    assert!(!InMemoryEventBus::matches("clawhive.agent.hibernated", "clawhive.agent.spawned"));
}

#[test]
fn inmemory_test_subject_matching() {
    subject_matching_cases();
}

#[test]
fn inmemory_test_test_subject_matching() {
    subject_matching_cases();
}

#[test]
fn wildcard_needs_a_token_and_tail_needs_one() {
    assert!(!InMemoryEventBus::matches("clawhive.agent.*", "clawhive.agent"));
    assert!(!InMemoryEventBus::matches("clawhive.>", "clawhive"));
    assert!(!InMemoryEventBus::matches("clawhive.agent", "clawhive.agent.spawned"));
}

#[test]
fn subscriptions_route_by_pattern() {
    let mut t = InMemoryEventBus::new();
    let a = t.subscribe("clawhive.agent.*");
    let b = t.subscribe("clawhive.>");
    assert_ne!(a, b);
    let hits = t.matching(EventKind::AgentSpawned.subject());
    assert_eq!(hits, vec![a.clone(), b.clone()]);
    t.unsubscribe(&a);
    assert_eq!(t.matching("clawhive.agent.spawned"), vec![b.clone()]);
    t.unsubscribe(&SubscriptionId("nope".into()));
    assert_eq!(t.matching("clawhive.task.failed"), vec![b]);
}

#[test]
fn subscription_ids_are_uuid_text() {
    let mut t = InMemoryEventBus::new();
    let a = t.subscribe("clawhive.>");
    let b = t.subscribe("clawhive.task.*");
    for id in [&a, &b] {
        let text: Vec<char> = id.0.chars().collect();
        assert_eq!(text.len(), 36);
        for (i, c) in text.iter().enumerate() {
            if i == 8 || i == 13 || i == 18 || i == 23 {
                assert_eq!(*c, '-');
            } else {
                assert!(c.is_ascii_hexdigit() && !c.is_ascii_uppercase());
            }
        }
    }
    // the earlier subscription is still there after the later one
    assert_eq!(t.matching("clawhive.agent.spawned"), vec![a.clone()]);
    assert_eq!(t.matching("clawhive.task.failed"), vec![a, b]);
}
