use clawhive::gateway::{ChannelType, GatewayError, SessionState};
use clawhive::gateway_service::GatewayService;

fn service() -> GatewayService<String> {
    GatewayService::new()
}

#[test]
fn channels_register_activate_and_list() {
    let mut g = service();
    let a = g.register_channel(ChannelType::Webhook, "{\"url\":\"http://a\"}".to_string());
    let b = g.register_channel(ChannelType::Telegram, "{}".to_string());
    assert_ne!(a, b);
    assert_eq!(a.len(), 36);

    let ch = g.get_channel(&a).unwrap();
    assert_eq!(ch.id, a);
    assert_eq!(ch.channel_type, ChannelType::Webhook);
    assert!(ch.is_active);
    assert_eq!(ch.config, "{\"url\":\"http://a\"}");
    assert!(g.get_channel("missing").is_none());

    let all: Vec<&str> = g.list_channels(None).iter().map(|c| c.id.as_str()).collect();
    let mut expected = vec![a.as_str(), b.as_str()];
    expected.sort();
    assert_eq!(all, expected);
    let tg: Vec<&str> = g.list_channels(Some(ChannelType::Telegram)).iter().map(|c| c.id.as_str()).collect();
    assert_eq!(tg, vec![b.as_str()]);
    assert!(g.list_channels(Some(ChannelType::Slack)).is_empty());

    g.deactivate_channel(&a).unwrap();
    assert!(!g.get_channel(&a).unwrap().is_active);
    assert!(g.get_channel(&b).unwrap().is_active);
    g.activate_channel(&a).unwrap();
    assert!(g.get_channel(&a).unwrap().is_active);
    match g.activate_channel("nope") {
        Err(GatewayError::ChannelNotFound(id)) => assert_eq!(id, "nope"),
        _ => panic!("expected ChannelNotFound"),
    }
    assert!(matches!(g.deactivate_channel("nope"), Err(GatewayError::ChannelNotFound(_))));
}

#[test]
fn sessions_open_end_and_expire() {
    let mut g = service();
    let ch = g.register_channel(ChannelType::Rest, String::new());
    match g.create_session("user-1".to_string(), "no-such-channel".to_string(), 60, 1_000) {
        Err(GatewayError::ChannelNotFound(id)) => assert_eq!(id, "no-such-channel"),
        _ => panic!("expected ChannelNotFound"),
    }
    let s1 = g.create_session("user-1".to_string(), ch.clone(), 60, 1_000).unwrap();
    assert_eq!(s1.state, SessionState::Active);
    assert_eq!((s1.created_at, s1.expires_at), (1_000, 61_000));
    assert_eq!(s1.identity_id, "user-1");
    assert_eq!(s1.channel_id, ch);
    let s2 = g.create_session("user-2".to_string(), ch.clone(), 3600, 1_000).unwrap();
    let s3 = g.create_session("user-1".to_string(), ch.clone(), 10, 1_000).unwrap();
    assert_eq!(g.get_session(&s2.id).unwrap().identity_id, "user-2");
    assert!(g.get_session("missing").is_none());

    let mine: Vec<&str> = g.list_sessions("user-1").iter().map(|s| s.id.as_str()).collect();
    let mut expected = vec![s1.id.as_str(), s3.id.as_str()];
    expected.sort();
    assert_eq!(mine, expected);

    g.terminate_session(&s3.id).unwrap();
    assert_eq!(g.get_session(&s3.id).unwrap().state, SessionState::Terminated);
    match g.terminate_session("gone") {
        Err(GatewayError::SessionNotFound(id)) => assert_eq!(id, "gone"),
        _ => panic!("expected SessionNotFound"),
    }

    // At 100 s only s1 (expired at 61 s, still active) is stale; s3 was ended.
    assert_eq!(g.expire_stale_sessions(100_000), 1);
    assert_eq!(g.get_session(&s1.id).unwrap().state, SessionState::Expired);
    assert_eq!(g.get_session(&s2.id).unwrap().state, SessionState::Active);
    assert_eq!(g.get_session(&s3.id).unwrap().state, SessionState::Terminated);
    assert_eq!(g.expire_stale_sessions(100_000), 0);
}
