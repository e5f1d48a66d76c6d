use clawhive::gateway::{
    channel_key, channel_type_matches, check_session_channel, expire_stale_sessions, plan_dispatch, session_key,
    sessions_of, dispatch_result, request_failed, ChannelInfo, ChannelType, DispatchPlan, GatewayError, Message, Session,
    SessionState,
};

fn channel(t: ChannelType) -> ChannelInfo {
    ChannelInfo {
        channel_type: t,
        is_active: true,
        url: None,
        bridge_url: None,
        bot_token: None,
        chat_id: None,
        webhook_url: None,
    }
}

fn msg(subject: Option<&str>) -> Message {
    Message { recipient: "ops".into(), subject: subject.map(|s| s.to_string()), body: "hello".into() }
}

#[test]
fn dispatch_refusals() {
    assert_eq!(plan_dispatch("c1", None, &msg(None)), Err(GatewayError::ChannelNotFound("c1".into())));
    let mut off = channel(ChannelType::Webhook);
    off.is_active = false;
    let e = plan_dispatch("c1", Some(&off), &msg(None)).unwrap_err();
    assert_eq!(e.message(), "channel c1 is inactive");
    let e = plan_dispatch("c1", Some(&channel(ChannelType::Rest)), &msg(None)).unwrap_err();
    assert_eq!(e.message(), "unsupported channel type for dispatch: Rest");
    assert_eq!(e, GatewayError::UnsupportedDispatch(ChannelType::Rest));
    for t in [ChannelType::Mobile, ChannelType::Terminal] {
        assert_eq!(plan_dispatch("c1", Some(&channel(t)), &msg(None)), Err(GatewayError::UnsupportedDispatch(t)));
    }
    let e = plan_dispatch("c1", Some(&channel(ChannelType::Webhook)), &msg(None)).unwrap_err();
    assert_eq!(e, GatewayError::Other("channel c1 missing url/bridge_url config".into()));
    let e = plan_dispatch("c1", Some(&channel(ChannelType::Telegram)), &msg(None)).unwrap_err();
    assert_eq!(e.message(), "channel c1 missing bot_token");
    let e = plan_dispatch("c1", Some(&channel(ChannelType::Discord)), &msg(None)).unwrap_err();
    assert_eq!(e.message(), "channel c1 missing webhook_url");
}

#[test]
fn dispatch_plans() {
    let mut wa = channel(ChannelType::WhatsApp);
    wa.bridge_url = Some("http://bridge".into());
    assert_eq!(plan_dispatch("c", Some(&wa), &msg(None)).unwrap(), DispatchPlan::Webhook { url: "http://bridge".into() });
    // WhatsApp goes through its bridge even when a url is set too.
    wa.url = Some("http://primary".into());
    assert_eq!(plan_dispatch("c", Some(&wa), &msg(None)).unwrap(), DispatchPlan::Webhook { url: "http://bridge".into() });
    wa.bridge_url = None;
    assert_eq!(plan_dispatch("c", Some(&wa), &msg(None)).unwrap(), DispatchPlan::Webhook { url: "http://primary".into() });
    // Other webhook-like channels take their url first.
    let mut hook = channel(ChannelType::Slack);
    hook.url = Some("http://a".into());
    hook.bridge_url = Some("http://b".into());
    assert_eq!(plan_dispatch("c", Some(&hook), &msg(None)).unwrap(), DispatchPlan::Webhook { url: "http://a".into() });

    let mut tg = channel(ChannelType::Telegram);
    tg.bot_token = Some("TOKEN".into());
    let e = plan_dispatch("c", Some(&tg), &msg(None)).unwrap_err();
    assert_eq!(e.message(), "channel c missing chat_id");
    tg.chat_id = Some("42".into());
    assert_eq!(
        plan_dispatch("c", Some(&tg), &msg(Some("Alert"))).unwrap(),
        DispatchPlan::Telegram {
            url: "https://api.telegram.org/botTOKEN/sendMessage".into(),
            chat_id: "42".into(),
            text: "*Alert*\n\nhello".into(),
        }
    );
    assert_eq!(plan_dispatch("c", Some(&channel(ChannelType::InternalBus)), &msg(None)).unwrap(), DispatchPlan::InternalEcho);
}

#[test]
fn keys_and_filters() {
    assert_eq!(channel_key("abc"), "gateway:channel:abc");
    assert_eq!(session_key("s1"), "gateway:session:s1");
    assert!(channel_type_matches(ChannelType::Slack, None));
    assert!(!channel_type_matches(ChannelType::Slack, Some(ChannelType::Discord)));
    assert_eq!(check_session_channel("c9", false), Err(GatewayError::ChannelNotFound("c9".into())));
    assert_eq!(GatewayError::SessionExpired("s".into()).message(), "session s is expired");
}

fn session(id: &str, who: &str, state: SessionState, expires_at: i64) -> Session {
    Session { id: id.into(), identity_id: who.into(), channel_id: "c".into(), state, created_at: 0, expires_at }
}

#[test]
fn stale_sessions_expire() {
    let mut s = vec![
        session("a", "u1", SessionState::Active, 10),
        session("b", "u2", SessionState::Active, 100),
        session("c", "u1", SessionState::Terminated, 10),
    ];
    assert_eq!(expire_stale_sessions(&mut s, 50), 1);
    assert_eq!(s[0].state, SessionState::Expired);
    assert_eq!(s[1].state, SessionState::Active);
    assert_eq!(s[2].state, SessionState::Terminated);
    assert_eq!(expire_stale_sessions(&mut s, 50), 0);
    let mine: Vec<String> = sessions_of(&s, "u1").into_iter().map(|x| x.id).collect();
    assert_eq!(mine, vec!["a", "c"]);
}

#[test]
fn dispatch_results() {
    let echo = dispatch_result("c9", &DispatchPlan::InternalEcho, String::new(), 1_700);
    assert_eq!(echo.channel_id, "c9");
    assert!(echo.success);
    assert_eq!(echo.response.as_deref(), Some("internal bus echo"));
    assert_eq!(echo.dispatched_at_ms, 1_700);
    let hook = DispatchPlan::Webhook { url: "http://a".into() };
    assert_eq!(dispatch_result("c9", &hook, "ok!".into(), 5).response.as_deref(), Some("ok!"));
    assert_eq!(request_failed(&hook, false, "timeout"), GatewayError::Other("webhook request failed: timeout".into()));
    let d = DispatchPlan::Discord { url: "http://d".into() };
    assert_eq!(request_failed(&d, true, "eof").message(), "discord read body failed: eof");
}
