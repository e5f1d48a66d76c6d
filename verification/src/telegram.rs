//! Telegram long polling: which channel to poll for, the request URLs, and
//! what to do with each `getUpdates` answer.
//!
//! The caller runs the loop: it makes the requests, sleeps, and starts an
//! agent for each delivered message; [`poll_step`] decides each turn.

use vstd::prelude::*;
use crate::gateway::{ChannelInfo, ChannelType};
use crate::text::{
    append_chars, append_str, chars_of, int_decimal, is_ws, str_eq, string_from_chars, trim,
    trim_spec,
};

verus! {

/// Polling runs only with a bot token that is not blank.
pub fn token_usable(token: Option<&str>) -> (b: bool)
    ensures
        b == match token {
            Some(t) => trim_spec(t@).len() > 0,
            None => false,
        },
{
    match token {
        Some(t) => {
            let c = chars_of(t);
            let x = trim(&c);
            x.len() > 0
        },
        None => false,
    }
}

/// A stored channel as the poller sees it.
pub struct PollChannel {
    pub id: String,
    pub info: ChannelInfo,
    pub agent_id: Option<String>,
}

/// The channel to poll for: an active Telegram channel whose bot token is
/// this token.
pub open spec fn polls_for(c: PollChannel, token: Seq<char>) -> bool {
    c.info.channel_type == ChannelType::Telegram && c.info.is_active && match c.info.bot_token {
        Some(t) => t@ == token,
        None => false,
    }
}

/// The first channel to poll for, if any.
pub fn find_poll_channel(channels: &[PollChannel], token: &str) -> (r: Option<usize>)
    ensures
        match r {
            Some(i) => i < channels@.len() && polls_for(channels@[i as int], token@) && forall|j: int|
                0 <= j < i ==> !polls_for(#[trigger] channels@[j], token@),
            None => forall|j: int| 0 <= j < channels@.len() ==> !polls_for(#[trigger] channels@[j], token@),
        },
{
    let mut i: usize = 0;
    while i < channels.len()
        invariant
            i <= channels@.len(),
            forall|j: int| 0 <= j < i ==> !polls_for(#[trigger] channels@[j], token@),
        decreases channels.len() - i,
    {
        let c = &channels[i];
        let ok = c.info.channel_type == ChannelType::Telegram && c.info.is_active && match &c.info.bot_token {
            Some(t) => str_eq(t.as_str(), token),
            None => false,
        };
        if ok {
            return Some(i);
        }
        i = i + 1;
    }
    None
}

/// What `uuid::Uuid::parse_str` makes of a text: the UUID's value, or `None`.
pub uninterp spec fn uuid_parse(s: Seq<char>) -> Option<u128>;

/// Calls uuid's `Uuid::parse_str` (hyphenated, simple, braced and URN forms);
/// the outcome is named `uuid_parse`.
#[verifier::external_body]
fn parse_uuid(s: &str) -> (r: Option<u128>)
    ensures
        r == uuid_parse(s@),
{
    match uuid::Uuid::parse_str(s) {
        Ok(u) => Some(u.as_u128()),
        Err(_) => None,
    }
}

/// The agent a channel's messages go to: its `agent_id`, read as a UUID.
pub fn channel_agent(agent_id: Option<&str>) -> (r: Option<u128>)
    ensures
        r == match agent_id {
            Some(a) => uuid_parse(a@),
            None => None,
        },
{
    match agent_id {
        Some(a) => parse_uuid(a),
        None => None,
    }
}

/// `https://api.telegram.org/bot<token>/deleteWebhook`
pub fn delete_webhook_url(token: &str) -> (u: String)
    ensures
        u@ == "https://api.telegram.org/bot"@ + token@ + "/deleteWebhook"@,
{
    let mut u = String::from_str("https://api.telegram.org/bot");
    u.append(token);
    u.append("/deleteWebhook");
    u
}

/// `https://api.telegram.org/bot<token>/getUpdates?offset=<offset>&timeout=20`
pub fn get_updates_url(token: &str, offset: i64) -> (u: String)
    ensures
        u@ == "https://api.telegram.org/bot"@ + token@ + "/getUpdates?offset="@ + int_decimal(offset as int)
            + "&timeout=20"@,
{
    let mut v: Vec<char> = Vec::new();
    append_str(&mut v, "https://api.telegram.org/bot");
    append_str(&mut v, token);
    append_str(&mut v, "/getUpdates?offset=");
    append_chars(&mut v, &crate::text::fmt_i64(offset));
    append_str(&mut v, "&timeout=20");
    assert(v@ =~= "https://api.telegram.org/bot"@ + token@ + "/getUpdates?offset="@ + int_decimal(offset as int)
        + "&timeout=20"@);
    string_from_chars(&v)
}

/// One update of a `getUpdates` answer, as plain values: its id, whether it
/// holds a message, and the message's text, chat id (as JSON text) and
/// sender's user name.
pub struct UpdateInfo {
    pub update_id: Option<i64>,
    pub has_message: bool,
    pub text: Option<String>,
    pub chat_id: Option<String>,
    pub username: Option<String>,
}

/// What came back from one `getUpdates` request.
pub enum PollOutcome {
    /// The request failed.
    RequestFailed,
    /// The answer was not JSON.
    Unparsable,
    /// The answer, by its `ok` and `description` fields and its `result` list.
    Answer { ok: Option<bool>, description: Option<String>, updates: Option<Vec<UpdateInfo>> },
}

/// A message to hand to the agent.
pub struct Incoming {
    pub text: String,
    pub chat_id: String,
    pub username: String,
}

/// What the loop does next.
pub enum PollAction {
    /// Wait this long and ask again with the same offset.
    Retry { delay_ms: u64, error: Option<String> },
    /// Hand these messages to the agent, continue from `offset`, after
    /// waiting `pause_ms`.
    Deliver { messages: Vec<Incoming>, offset: i64, pause_ms: u64 },
}

/// The offset after a batch of updates: one past the last update id seen
/// (wrapping at the top of `i64`).
pub open spec fn next_offset(offset: i64, ids: Seq<Option<i64>>) -> i64
    decreases ids.len(),
{
    if ids.len() == 0 {
        offset
    } else {
        match ids.last() {
            Some(id) => vstd::wrapping::i64_specs::wrapping_add(id, 1),
            None => next_offset(offset, ids.drop_last()),
        }
    }
}

/// An update carries a deliverable message: a message with non-blank text
/// and a chat id.
pub open spec fn deliverable(u: UpdateInfo) -> bool {
    u.has_message && match (u.text, u.chat_id) {
        (Some(t), Some(_)) => trim_spec(t@).len() > 0,
        _ => false,
    }
}

pub open spec fn update_ids(us: Seq<UpdateInfo>) -> Seq<Option<i64>> {
    us.map_values(|u: UpdateInfo| u.update_id)
}

/// The message an update delivers.
pub open spec fn incoming_of(u: UpdateInfo, m: Incoming) -> bool {
    &&& m.text@ == trim_spec(u.text.unwrap()@)
    &&& m.chat_id@ == u.chat_id.unwrap()@
    &&& m.username@ == match u.username {
        Some(n) => n@,
        None => "user"@,
    }
}

/// Decides one turn of the polling loop.
///
/// Failed requests are retried after 3 s, unreadable answers after 2 s,
/// answers whose `ok` is not `true` after 5 s (with their description,
/// default `unknown`), and answers without a result list after 1 s. A
/// result list moves the offset past every update id in it and delivers the
/// updates that carry a message; an empty list makes the loop pause 200 ms.
pub fn poll_step(offset: i64, outcome: &PollOutcome) -> (a: PollAction)
    ensures
        match outcome {
            PollOutcome::RequestFailed => a matches PollAction::Retry { delay_ms: 3000, error: None },
            PollOutcome::Unparsable => a matches PollAction::Retry { delay_ms: 2000, error: None },
            PollOutcome::Answer { ok, description, updates } => if *ok != Some(true) {
                a matches PollAction::Retry { delay_ms: 5000, error: Some(e) } && e@ == match description {
                    Some(d) => d@,
                    None => "unknown"@,
                }
            } else {
                match updates {
                    None => a matches PollAction::Retry { delay_ms: 1000, error: None },
                    Some(us) => a matches PollAction::Deliver { messages, offset: o, pause_ms } && o
                        == next_offset(offset, update_ids(us@)) && pause_ms == (if us@.len() == 0 {
                        200u64
                    } else {
                        0u64
                    }) && messages@.len() == us@.filter(|u: UpdateInfo| deliverable(u)).len() && forall|k: int|
                        0 <= k < messages@.len() ==> incoming_of(
                            us@.filter(|u: UpdateInfo| deliverable(u))[k],
                            #[trigger] messages@[k],
                        ),
                }
            },
        },
{
    match outcome {
        PollOutcome::RequestFailed => PollAction::Retry { delay_ms: 3000, error: None },
        PollOutcome::Unparsable => PollAction::Retry { delay_ms: 2000, error: None },
        PollOutcome::Answer { ok, description, updates } => {
            if *ok != Some(true) {
                let e = match description {
                    Some(d) => d.clone(),
                    None => String::from_str("unknown"),
                };
                return PollAction::Retry { delay_ms: 5000, error: Some(e) };
            }
            match updates {
                None => PollAction::Retry { delay_ms: 1000, error: None },
                Some(us) => {
                    let ghost f = |u: UpdateInfo| deliverable(u);
                    let mut off = offset;
                    let mut msgs: Vec<Incoming> = Vec::new();
                    let mut i: usize = 0;
                    while i < us.len()
                        invariant
                            i <= us@.len(),
                            f == (|u: UpdateInfo| deliverable(u)),
                            off == next_offset(offset, update_ids(us@.take(i as int))),
                            msgs@.len() == us@.take(i as int).filter(f).len(),
                            forall|k: int| 0 <= k < msgs@.len() ==> incoming_of(us@.take(i as int).filter(f)[k], #[trigger] msgs@[k]),
                        decreases us.len() - i,
                    {
                        let u: &UpdateInfo = &us[i];
                        proof {
                            assert(us@.take(i + 1).drop_last() =~= us@.take(i as int));
                            assert(us@.take(i + 1) =~= us@.take(i as int).push(us@[i as int]));
                            assert(update_ids(us@.take(i + 1)).drop_last() =~= update_ids(us@.take(i as int)));
                            assert(update_ids(us@.take(i + 1)).last() == u.update_id);
                            us@.take(i as int).lemma_filter_push(us@[i as int], f);
                        }
                        match u.update_id {
                            Some(id) => {
                                off = id.wrapping_add(1);
                            },
                            None => {},
                        }
                        if u.has_message {
                            match (&u.text, &u.chat_id) {
                                (Some(t), Some(c)) => {
                                    let tc = chars_of(t.as_str());
                                    let tt = trim(&tc);
                                    if tt.len() > 0 {
                                        let name = match &u.username {
                                            Some(n) => n.clone(),
                                            None => String::from_str("user"),
                                        };
                                        let ghost before = msgs@;
                                        msgs.push(Incoming { text: string_from_chars(&tt), chat_id: c.clone(), username: name });
                                        proof {
                                            assert(us@.take(i + 1).filter(f) == us@.take(i as int).filter(f).push(us@[i as int]));
                                            assert forall|k: int| 0 <= k < msgs@.len() implies incoming_of(us@.take(i + 1).filter(f)[k], #[trigger] msgs@[k]) by {
                                                if k < before.len() {
                                                    assert(msgs@[k] == before[k]);
                                                }
                                            }
                                        }
                                    }
                                },
                                _ => {},
                            }
                        }
                        i = i + 1;
                    }
                    assert(us@.take(us@.len() as int) =~= us@);
                    let pause: u64 = if us.len() == 0 {
                        200
                    } else {
                        0
                    };
                    PollAction::Deliver { messages: msgs, offset: off, pause_ms: pause }
                },
            }
        },
    }
}

/// The agent's reply to send back: the content of the last assistant
/// message, or `(no response)`.
pub fn reply_text(messages: &[(bool, String)]) -> (r: String)
    ensures
        (exists|i: int| 0 <= i < messages@.len() && messages@[i].0) ==> exists|i: int|
            0 <= i < messages@.len() && messages@[i].0 && r@ == messages@[i].1@ && forall|j: int|
                i < j < messages@.len() ==> !(#[trigger] messages@[j]).0,
        (forall|i: int| 0 <= i < messages@.len() ==> !(#[trigger] messages@[i]).0) ==> r@ == "(no response)"@,
{
    let mut i: usize = messages.len();
    while i > 0
        invariant
            i <= messages@.len(),
            forall|j: int| i <= j < messages@.len() ==> !(#[trigger] messages@[j]).0,
        decreases i,
    {
        if messages[i - 1].0 {
            return messages[i - 1].1.clone();
        }
        i = i - 1;
    }
    String::from_str("(no response)")
}

} // verus!
