use clawhive::gateway::{ChannelInfo, ChannelType};
use clawhive::telegram::{
    channel_agent, delete_webhook_url, find_poll_channel, get_updates_url, poll_step, reply_text, token_usable,
    PollAction, PollChannel, PollOutcome, UpdateInfo,
};

fn tg(id: &str, token: &str, active: bool) -> PollChannel {
    PollChannel {
        id: id.into(),
        info: ChannelInfo {
            channel_type: ChannelType::Telegram,
            is_active: active,
            url: None,
            bridge_url: None,
            bot_token: Some(token.into()),
            chat_id: None,
            webhook_url: None,
        },
        agent_id: Some("0190a1b2-c3d4-7e5f-8a9b-0c1d2e3f4a5b".into()),
    }
}

#[test]
fn token_and_channel_selection() {
    assert!(!token_usable(None));
    assert!(!token_usable(Some("   ")));
    assert!(token_usable(Some("abc")));
    let chans = vec![tg("a", "other", true), tg("b", "tok", false), tg("c", "tok", true)];
    assert_eq!(find_poll_channel(&chans, "tok"), Some(2));
    assert_eq!(find_poll_channel(&chans, "none"), None);
    assert_eq!(channel_agent(chans[2].agent_id.as_deref()), Some(0x0190a1b2_c3d4_7e5f_8a9b_0c1d2e3f4a5b));
    assert_eq!(channel_agent(Some("not-a-uuid")), None);
}

#[test]
fn urls() {
    assert_eq!(delete_webhook_url("T"), "https://api.telegram.org/botT/deleteWebhook");
    assert_eq!(get_updates_url("T", -3), "https://api.telegram.org/botT/getUpdates?offset=-3&timeout=20");
}

fn update(id: Option<i64>, text: Option<&str>, chat: Option<&str>) -> UpdateInfo {
    UpdateInfo {
        update_id: id,
        has_message: true,
        text: text.map(|s| s.to_string()),
        chat_id: chat.map(|s| s.to_string()),
        username: None,
    }
}

#[test]
fn poll_turns() {
    assert!(matches!(poll_step(5, &PollOutcome::RequestFailed), PollAction::Retry { delay_ms: 3000, error: None }));
    assert!(matches!(poll_step(5, &PollOutcome::Unparsable), PollAction::Retry { delay_ms: 2000, error: None }));
    match poll_step(5, &PollOutcome::Answer { ok: Some(false), description: None, updates: None }) {
        PollAction::Retry { delay_ms: 5000, error: Some(e) } => assert_eq!(e, "unknown"),
        _ => panic!("expected a retry"),
    }
    assert!(matches!(
        poll_step(5, &PollOutcome::Answer { ok: Some(true), description: None, updates: None }),
        PollAction::Retry { delay_ms: 1000, .. }
    ));
    let ups = vec![
        update(Some(10), Some("  hi  "), Some("77")),
        update(Some(11), Some("   "), Some("77")),
        update(None, Some("x"), None),
    ];
    match poll_step(5, &PollOutcome::Answer { ok: Some(true), description: None, updates: Some(ups) }) {
        PollAction::Deliver { messages, offset, pause_ms } => {
            assert_eq!(offset, 12);
            assert_eq!(pause_ms, 0);
            assert_eq!(messages.len(), 1);
            assert_eq!(messages[0].text, "hi");
            assert_eq!(messages[0].chat_id, "77");
            assert_eq!(messages[0].username, "user");
        }
        _ => panic!("expected delivery"),
    }
    match poll_step(5, &PollOutcome::Answer { ok: Some(true), description: None, updates: Some(vec![]) }) {
        PollAction::Deliver { messages, offset, pause_ms } => {
            assert!(messages.is_empty());
            assert_eq!((offset, pause_ms), (5, 200));
        }
        _ => panic!("expected delivery"),
    }
}

#[test]
fn replies() {
    let msgs = vec![(false, "q".to_string()), (true, "first".to_string()), (true, "last".to_string()), (false, "tool".to_string())];
    assert_eq!(reply_text(&msgs), "last");
    assert_eq!(reply_text(&[(false, "q".to_string())]), "(no response)");
}
