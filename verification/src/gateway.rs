//! The message gateway: channels, sessions, and how a message is sent
//! through each kind of channel.
//!
//! Channels and sessions are kept by `gateway_service` (a store keeps them
//! under the prefixes below); the HTTP requests are made by the caller. The
//! functions here make the decisions and build what is sent.

use vstd::prelude::*;
use crate::text::lit;
use crate::text::{append_str, str_eq, string_from_chars};

verus! {

/// Key prefix of channels in the store.
pub const CHANNEL_PREFIX: &'static str = "gateway:channel:";
/// Key prefix of sessions in the store.
pub const SESSION_PREFIX: &'static str = "gateway:session:";

/// The kind of a channel.
#[derive(Debug, Clone, Copy, PartialEq, Eq, Structural)]
pub enum ChannelType {
    Webhook,
    Slack,
    WhatsApp,
    Telegram,
    Discord,
    InternalBus,
    Mobile,
    Rest,
    Terminal,
}

/// The `Debug` name of a channel type.
pub open spec fn channel_type_name_spec(t: ChannelType) -> Seq<char> {
    match t {
        ChannelType::Webhook => "Webhook"@,
        ChannelType::Slack => "Slack"@,
        ChannelType::WhatsApp => "WhatsApp"@,
        ChannelType::Telegram => "Telegram"@,
        ChannelType::Discord => "Discord"@,
        ChannelType::InternalBus => "InternalBus"@,
        ChannelType::Mobile => "Mobile"@,
        ChannelType::Rest => "Rest"@,
        ChannelType::Terminal => "Terminal"@,
    }
}

pub fn channel_type_name(t: ChannelType) -> (s: &'static str)
    ensures
        s@ == channel_type_name_spec(t),
{
    match t {
        ChannelType::Webhook => "Webhook",
        ChannelType::Slack => "Slack",
        ChannelType::WhatsApp => "WhatsApp",
        ChannelType::Telegram => "Telegram",
        ChannelType::Discord => "Discord",
        ChannelType::InternalBus => "InternalBus",
        ChannelType::Mobile => "Mobile",
        ChannelType::Rest => "Rest",
        ChannelType::Terminal => "Terminal",
    }
}

/// Why a gateway operation failed.
#[derive(Debug, Clone, PartialEq, Eq)]
pub enum GatewayError {
    ChannelNotFound(String),
    ChannelInactive(String),
    SessionNotFound(String),
    SessionExpired(String),
    UnsupportedDispatch(ChannelType),
    Other(String),
}

pub open spec fn gateway_error_text(e: GatewayError) -> Seq<char> {
    match e {
        GatewayError::ChannelNotFound(s) => "channel not found: "@ + s@,
        GatewayError::ChannelInactive(s) => "channel "@ + s@ + " is inactive"@,
        GatewayError::SessionNotFound(s) => "session not found: "@ + s@,
        GatewayError::SessionExpired(s) => "session "@ + s@ + " is expired"@,
        GatewayError::UnsupportedDispatch(t) => "unsupported channel type for dispatch: "@
            + channel_type_name_spec(t),
        GatewayError::Other(s) => s@,
    }
}

impl GatewayError {
    /// The error's text.
    pub fn message(&self) -> (s: String)
        ensures
            s@ == gateway_error_text(*self),
    {
        let mut v: Vec<char> = Vec::new();
        match self {
            GatewayError::ChannelNotFound(s) => {
                append_str(&mut v, "channel not found: ");
                append_str(&mut v, s.as_str());
            },
            GatewayError::ChannelInactive(s) => {
                append_str(&mut v, "channel ");
                append_str(&mut v, s.as_str());
                append_str(&mut v, " is inactive");
            },
            GatewayError::SessionNotFound(s) => {
                append_str(&mut v, "session not found: ");
                append_str(&mut v, s.as_str());
            },
            GatewayError::SessionExpired(s) => {
                append_str(&mut v, "session ");
                append_str(&mut v, s.as_str());
                append_str(&mut v, " is expired");
            },
            GatewayError::UnsupportedDispatch(t) => {
                append_str(&mut v, "unsupported channel type for dispatch: ");
                append_str(&mut v, channel_type_name(*t));
            },
            GatewayError::Other(s) => {
                append_str(&mut v, s.as_str());
            },
        }
        assert(v@ =~= gateway_error_text(*self));
        string_from_chars(&v)
    }
}

/// The store key of a channel.
pub fn channel_key(channel_id: &str) -> (k: String)
    ensures
        k@ == CHANNEL_PREFIX@ + channel_id@,
{
    let mut k = lit(CHANNEL_PREFIX);
    k.append(channel_id);
    k
}

/// The store key of a session.
pub fn session_key(session_id: &str) -> (k: String)
    ensures
        k@ == SESSION_PREFIX@ + session_id@,
{
    let mut k = lit(SESSION_PREFIX);
    k.append(session_id);
    k
}

/// What dispatching reads of a channel: its type, whether it is active,
/// and the string entries of its configuration that dispatch uses.
#[derive(Debug, Clone, PartialEq, Eq)]
pub struct ChannelInfo {
    pub channel_type: ChannelType,
    pub is_active: bool,
    pub url: Option<String>,
    pub bridge_url: Option<String>,
    pub bot_token: Option<String>,
    pub chat_id: Option<String>,
    pub webhook_url: Option<String>,
}

/// A message to be dispatched through a channel.
#[derive(Debug, Clone, PartialEq, Eq)]
pub struct Message {
    pub recipient: String,
    pub subject: Option<String>,
    pub body: String,
}

/// How a message goes out.
#[derive(Debug, Clone, PartialEq, Eq)]
pub enum DispatchPlan {
    /// POST the generic JSON payload to `url` (webhook, Slack, WhatsApp bridge).
    Webhook { url: String },
    /// Telegram `sendMessage` at `url`, with this chat and text (MarkdownV2).
    Telegram { url: String, chat_id: String, text: String },
    /// POST to a Discord webhook: the body as content, the recipient as user
    /// name, and an embed titled with the subject if there is one.
    Discord { url: String },
    /// Echoed on the internal bus; nothing is sent.
    InternalEcho,
}

pub open spec fn opt_string(o: Option<String>) -> Option<Seq<char>> {
    match o {
        Some(s) => Some(s@),
        None => None,
    }
}

/// The text Telegram gets: the subject in bold and a blank line, if there
/// is a subject, then the body.
pub open spec fn telegram_text(subject: Option<Seq<char>>, body: Seq<char>) -> Seq<char> {
    match subject {
        Some(s) => "*"@ + s + "*\n\n"@ + body,
        None => body,
    }
}

/// Where a webhook-like channel posts: a WhatsApp channel to its
/// `bridge_url` (its bridge to WhatsApp), else its `url`; the others to their
/// `url`, else their `bridge_url`.
pub open spec fn target_url(c: ChannelInfo) -> Option<Seq<char>> {
    if c.channel_type == ChannelType::WhatsApp {
        if c.bridge_url is Some {
            opt_string(c.bridge_url)
        } else {
            opt_string(c.url)
        }
    } else if c.url is Some {
        opt_string(c.url)
    } else {
        opt_string(c.bridge_url)
    }
}

/// Channel types that messages cannot be dispatched through.
pub open spec fn undispatchable(t: ChannelType) -> bool {
    t == ChannelType::Mobile || t == ChannelType::Rest || t == ChannelType::Terminal
}

/// The outcome of dispatching through a channel, before anything is sent.
pub open spec fn dispatch_plan_spec(id: Seq<char>, ch: Option<ChannelInfo>, subject: Option<Seq<char>>, body: Seq<char>) -> Result<
    (int, Seq<char>, Seq<char>, Seq<char>),
    Seq<char>,
> {
    match ch {
        None => Err("channel not found: "@ + id),
        Some(c) => if !c.is_active {
            Err("channel "@ + id + " is inactive"@)
        } else {
            match c.channel_type {
                ChannelType::Webhook | ChannelType::Slack | ChannelType::WhatsApp => match target_url(c) {
                    Some(u) => Ok((0, u, Seq::<char>::empty(), Seq::<char>::empty())),
                    None => Err("channel "@ + id + " missing url/bridge_url config"@),
                },
                ChannelType::Telegram => match (opt_string(c.bot_token), opt_string(c.chat_id)) {
                    (None, _) => Err("channel "@ + id + " missing bot_token"@),
                    (Some(_), None) => Err("channel "@ + id + " missing chat_id"@),
                    (Some(t), Some(chat)) => Ok(
                        (
                            1,
                            "https://api.telegram.org/bot"@ + t + "/sendMessage"@,
                            chat,
                            telegram_text(subject, body),
                        ),
                    ),
                },
                ChannelType::Discord => match opt_string(c.webhook_url) {
                    Some(u) => Ok((2, u, Seq::<char>::empty(), Seq::<char>::empty())),
                    None => Err("channel "@ + id + " missing webhook_url"@),
                },
                ChannelType::InternalBus => Ok((3, Seq::<char>::empty(), Seq::<char>::empty(), Seq::<char>::empty())),
                _ => Err("unsupported channel type for dispatch: "@ + channel_type_name_spec(c.channel_type)),
            }
        },
    }
}

/// A plan as the tuple `dispatch_plan_spec` speaks of.
pub open spec fn plan_tuple(p: DispatchPlan) -> (int, Seq<char>, Seq<char>, Seq<char>) {
    match p {
        DispatchPlan::Webhook { url } => (0, url@, Seq::<char>::empty(), Seq::<char>::empty()),
        DispatchPlan::Telegram { url, chat_id, text } => (1, url@, chat_id@, text@),
        DispatchPlan::Discord { url } => (2, url@, Seq::<char>::empty(), Seq::<char>::empty()),
        DispatchPlan::InternalEcho => (3, Seq::<char>::empty(), Seq::<char>::empty(), Seq::<char>::empty()),
    }
}

fn copy_opt(o: &Option<String>) -> (r: Option<String>)
    ensures
        opt_string(r) == opt_string(*o),
{
    match o {
        Some(s) => Some(s.clone()),
        None => None,
    }
}

fn missing(channel_id: &str, what: &str) -> (e: GatewayError)
    ensures
        e == GatewayError::Other(e->Other_0),
        e->Other_0@ == "channel "@ + channel_id@ + what@,
{
    let mut m = lit("channel ");
    m.append(channel_id);
    m.append(what);
    GatewayError::Other(m)
}

/// Decides how a message goes out through the channel `channel_id`
/// (`None`: no such channel in the store).
pub fn plan_dispatch(channel_id: &str, channel: Option<&ChannelInfo>, message: &Message) -> (r: Result<
    DispatchPlan,
    GatewayError,
>)
    ensures
        match dispatch_plan_spec(channel_id@, match channel { Some(c) => Some(*c), None => None }, opt_string(message.subject), message.body@) {
            Ok(t) => r matches Ok(p) && plan_tuple(p) == t,
            Err(m) => r matches Err(e) && gateway_error_text(e) == m,
        },
        channel is None ==> (r matches Err(GatewayError::ChannelNotFound(x)) && x@ == channel_id@),
        (channel matches Some(c) && !c.is_active) ==> (r matches Err(GatewayError::ChannelInactive(x)) && x@ == channel_id@),
        (channel matches Some(c) && c.is_active && undispatchable(c.channel_type)) ==> r == Err::<DispatchPlan, GatewayError>(
            GatewayError::UnsupportedDispatch(channel->0.channel_type),
        ),
        (channel matches Some(c) && c.is_active && !undispatchable(c.channel_type)) ==> (r matches Err(e) ==> e is Other),
{
    let c = match channel {
        None => {
            return Err(GatewayError::ChannelNotFound(lit(channel_id)));
        },
        Some(c) => c,
    };
    if !c.is_active {
        return Err(GatewayError::ChannelInactive(lit(channel_id)));
    }
    match c.channel_type {
        ChannelType::Webhook | ChannelType::Slack | ChannelType::WhatsApp => {
            let url = if c.channel_type == ChannelType::WhatsApp {
                if c.bridge_url.is_some() {
                    copy_opt(&c.bridge_url)
                } else {
                    copy_opt(&c.url)
                }
            } else if c.url.is_some() {
                copy_opt(&c.url)
            } else {
                copy_opt(&c.bridge_url)
            };
            match url {
                Some(u) => Ok(DispatchPlan::Webhook { url: u }),
                None => Err(missing(channel_id, " missing url/bridge_url config")),
            }
        },
        ChannelType::Telegram => {
            let token = match &c.bot_token {
                Some(t) => t,
                None => {
                    return Err(missing(channel_id, " missing bot_token"));
                },
            };
            let chat = match &c.chat_id {
                Some(x) => x,
                None => {
                    return Err(missing(channel_id, " missing chat_id"));
                },
            };
            let mut url = lit("https://api.telegram.org/bot");
            url.append(token.as_str());
            url.append("/sendMessage");
            let mut text = String::new();
            match &message.subject {
                Some(s) => {
                    text.append("*");
                    text.append(s.as_str());
                    text.append("*\n\n");
                },
                None => {},
            }
            text.append(message.body.as_str());
            assert(text@ =~= telegram_text(opt_string(message.subject), message.body@));
            Ok(DispatchPlan::Telegram { url, chat_id: chat.clone(), text })
        },
        ChannelType::Discord => match copy_opt(&c.webhook_url) {
            Some(u) => Ok(DispatchPlan::Discord { url: u }),
            None => Err(missing(channel_id, " missing webhook_url")),
        },
        ChannelType::InternalBus => Ok(DispatchPlan::InternalEcho),
        _ => Err(GatewayError::UnsupportedDispatch(c.channel_type)),
    }
}

/// The result of a message sent through a channel.
#[derive(Debug, Clone, PartialEq, Eq)]
pub struct DispatchResult {
    pub channel_id: String,
    pub success: bool,
    pub response: Option<String>,
    /// When it was sent, in milliseconds since the Unix epoch.
    pub dispatched_at_ms: i64,
}

/// The result of carrying out `plan` at `now_ms`: a success whose response is
/// the body of the channel's reply (`reply_body`), or, for the internal bus,
/// `internal bus echo` (nothing is sent there).
pub fn dispatch_result(channel_id: &str, plan: &DispatchPlan, reply_body: String, now_ms: i64) -> (r: DispatchResult)
    ensures
        r.channel_id@ == channel_id@,
        r.success,
        r.response matches Some(x) && x@ == (if plan is InternalEcho {
            "internal bus echo"@
        } else {
            reply_body@
        }),
        r.dispatched_at_ms == now_ms,
{
    let response = match plan {
        DispatchPlan::InternalEcho => lit("internal bus echo"),
        _ => reply_body,
    };
    DispatchResult { channel_id: lit(channel_id), success: true, response: Some(response), dispatched_at_ms: now_ms }
}

/// The name a plan's requests are reported under: `telegram`, `discord`, or
/// `webhook` (also for Slack and WhatsApp).
pub open spec fn transport_name(plan: DispatchPlan) -> Seq<char> {
    match plan {
        DispatchPlan::Telegram { .. } => "telegram"@,
        DispatchPlan::Discord { .. } => "discord"@,
        _ => "webhook"@,
    }
}

/// The error of a request that failed (`<transport> request failed: <detail>`)
/// or whose reply body could not be read (`<transport> read body failed: <detail>`).
pub fn request_failed(plan: &DispatchPlan, reading_body: bool, detail: &str) -> (e: GatewayError)
    ensures
        e matches GatewayError::Other(m) && m@ == transport_name(*plan) + (if reading_body {
            " read body failed: "@
        } else {
            " request failed: "@
        }) + detail@,
{
    let mut m = match plan {
        DispatchPlan::Telegram { .. } => lit("telegram"),
        DispatchPlan::Discord { .. } => lit("discord"),
        _ => lit("webhook"),
    };
    if reading_body {
        m.append(" read body failed: ");
    } else {
        m.append(" request failed: ");
    }
    m.append(detail);
    GatewayError::Other(m)
}

/// Whether a channel passes a type filter (`None` lets every channel through).
pub fn channel_type_matches(t: ChannelType, filter: Option<ChannelType>) -> (b: bool)
    ensures
        b == match filter {
            Some(f) => t == f,
            None => true,
        },
{
    match filter {
        Some(f) => t == f,
        None => true,
    }
}

/// The state of a session.
#[derive(Debug, Clone, Copy, PartialEq, Eq, Structural)]
pub enum SessionState {
    Active,
    Expired,
    Terminated,
}

/// A session, with times in milliseconds since the Unix epoch.
#[derive(Debug, Clone, PartialEq, Eq)]
pub struct Session {
    pub id: String,
    pub identity_id: String,
    pub channel_id: String,
    pub state: SessionState,
    pub created_at: i64,
    pub expires_at: i64,
}

/// A session is stale when it is still active past its expiry time.
pub open spec fn is_stale(s: Session, now: i64) -> bool {
    s.expires_at < now && s.state == SessionState::Active
}

pub open spec fn count_stale(s: Seq<Session>, now: i64) -> nat
    decreases s.len(),
{
    if s.len() == 0 {
        0
    } else {
        count_stale(s.drop_last(), now) + if is_stale(s.last(), now) {
            1nat
        } else {
            0nat
        }
    }
}

/// Marks the stale sessions expired and counts them; the others are left as
/// they were.
pub fn expire_stale_sessions(sessions: &mut Vec<Session>, now: i64) -> (n: usize)
    ensures
        n == count_stale(old(sessions)@, now),
        final(sessions)@.len() == old(sessions)@.len(),
        forall|i: int|
            0 <= i < old(sessions)@.len() ==> (#[trigger] final(sessions)@[i]) == (if is_stale(
                old(sessions)@[i],
                now,
            ) {
                Session { state: SessionState::Expired, ..old(sessions)@[i] }
            } else {
                old(sessions)@[i]
            }),
{
    let ghost start = sessions@;
    let mut n: usize = 0;
    let mut i: usize = 0;
    while i < sessions.len()
        invariant
            start == old(sessions)@,
            sessions@.len() == start.len(),
            i <= start.len(),
            n == count_stale(start.take(i as int), now),
            n <= i,
            forall|j: int|
                0 <= j < start.len() ==> (#[trigger] sessions@[j]) == (if j < i && is_stale(start[j], now) {
                    Session { state: SessionState::Expired, ..start[j] }
                } else {
                    start[j]
                }),
        decreases sessions.len() - i,
    {
        proof {
            assert(start.take(i + 1).drop_last() =~= start.take(i as int));
            assert(start.take(i + 1).last() == start[i as int]);
        }
        if sessions[i].expires_at < now && sessions[i].state == SessionState::Active {
            let mut s = sessions.remove(i);
            s.state = SessionState::Expired;
            sessions.insert(i, s);
            n = n + 1;
        }
        i = i + 1;
    }
    assert(start.take(start.len() as int) =~= start);
    n
}

/// The sessions of one identity, in order.
pub fn sessions_of(sessions: &Vec<Session>, identity_id: &str) -> (r: Vec<Session>)
    ensures
        r@ == sessions@.filter(|s: Session| s.identity_id@ == identity_id@),
{
    let ghost f = |s: Session| s.identity_id@ == identity_id@;
    let mut out: Vec<Session> = Vec::new();
    let mut i: usize = 0;
    while i < sessions.len()
        invariant
            i <= sessions@.len(),
            f == (|s: Session| s.identity_id@ == identity_id@),
            out@ == sessions@.take(i as int).filter(f),
        decreases sessions.len() - i,
    {
        proof {
            assert(sessions@.take(i + 1).drop_last() =~= sessions@.take(i as int));
            assert(sessions@.take(i + 1) =~= sessions@.take(i as int).push(sessions@[i as int]));
            sessions@.take(i as int).lemma_filter_push(sessions@[i as int], f);
        }
        let s: &Session = &sessions[i];
        if str_eq(s.identity_id.as_str(), identity_id) {
            out.push(
                Session {
                    id: s.id.clone(),
                    identity_id: s.identity_id.clone(),
                    channel_id: s.channel_id.clone(),
                    state: s.state,
                    created_at: s.created_at,
                    expires_at: s.expires_at,
                },
            );
        }
        i = i + 1;
    }
    assert(sessions@.take(sessions@.len() as int) =~= sessions@);
    out
}

/// A new session needs its channel to exist.
pub fn check_session_channel(channel_id: &str, channel_exists: bool) -> (r: Result<(), GatewayError>)
    ensures
        r is Ok <==> channel_exists,
        r matches Err(e) ==> (e matches GatewayError::ChannelNotFound(x) && x@ == channel_id@),
{
    if !channel_exists {
        return Err(GatewayError::ChannelNotFound(lit(channel_id)));
    }
    Ok(())
}

} // verus!
