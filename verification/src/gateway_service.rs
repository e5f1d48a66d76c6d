//! The gateway's channels and sessions: registered, looked up, listed in id
//! order, switched on and off, opened, ended and expired.

use vstd::prelude::*;
use crate::gateway::{count_stale, is_stale, ChannelType, GatewayError, Session, SessionState};
use crate::lineage::new_uuid_v7;
use crate::scheduler::format_uuid;
use crate::store::keys_sorted;
use crate::table::KeyedTable;
use crate::text::str_eq;

verus! {

/// A channel: its id, its kind, its configuration and whether it is active.
pub struct Channel<C> {
    pub id: String,
    pub channel_type: ChannelType,
    pub config: C,
    pub is_active: bool,
}

/// Whether a channel of type `t` passes the type filter `f`.
pub open spec fn type_selected(t: ChannelType, f: Option<ChannelType>) -> bool {
    match f {
        Some(x) => t == x,
        None => true,
    }
}

/// The keys of `ks` whose channel in `m` passes the type filter, in order.
pub open spec fn channels_where<C>(m: Map<Seq<char>, Channel<C>>, ks: Seq<Seq<char>>, f: Option<ChannelType>) -> Seq<Seq<char>>
    decreases ks.len(),
{
    if ks.len() == 0 {
        Seq::empty()
    } else {
        channels_where(m, ks.drop_last(), f) + if type_selected(m[ks.last()].channel_type, f) {
            seq![ks.last()]
        } else {
            Seq::empty()
        }
    }
}

/// The keys of `ks` whose session in `m` belongs to `identity`, in order.
pub open spec fn sessions_where(m: Map<Seq<char>, Session>, ks: Seq<Seq<char>>, identity: Seq<char>) -> Seq<Seq<char>>
    decreases ks.len(),
{
    if ks.len() == 0 {
        Seq::empty()
    } else {
        sessions_where(m, ks.drop_last(), identity) + if m[ks.last()].identity_id@ == identity {
            seq![ks.last()]
        } else {
            Seq::empty()
        }
    }
}

/// An instant that chrono's `DateTime<Utc>` can hold, in milliseconds since
/// the Unix epoch (from -262143-01-01T00:00:00 to 262142-12-31T23:59:59.999).
pub open spec fn instant_ms_ok(t: int) -> bool {
    -8334601228800000 <= t <= 8210266876799999
}

/// A session as `expire_stale_sessions` leaves it at `now`.
pub open spec fn expired_at(s: Session, now: i64) -> Session {
    if is_stale(s, now) {
        Session { state: SessionState::Expired, ..s }
    } else {
        s
    }
}

/// The gateway's channels and sessions, each kept by id.
pub struct GatewayService<C> {
    channels: KeyedTable<Channel<C>>,
    sessions: KeyedTable<Session>,
}

impl<C> GatewayService<C> {
    /// The channels by id.
    pub closed spec fn channels(&self) -> Map<Seq<char>, Channel<C>> {
        self.channels@
    }

    /// The channel ids in ascending order.
    pub closed spec fn channel_order(&self) -> Seq<Seq<char>> {
        self.channels.key_seq()
    }

    /// The sessions by id.
    pub closed spec fn sessions(&self) -> Map<Seq<char>, Session> {
        self.sessions@
    }

    /// The session ids in ascending order.
    pub closed spec fn session_order(&self) -> Seq<Seq<char>> {
        self.sessions.key_seq()
    }

    /// The sessions in id order.
    pub open spec fn session_list(&self) -> Seq<Session> {
        self.session_order().map_values(|k: Seq<char>| self.sessions()[k])
    }

    /// Each channel and session is kept under its own id.
    pub closed spec fn wf(&self) -> bool {
        &&& self.channels.wf()
        &&& self.sessions.wf()
        &&& forall|k: Seq<char>| #[trigger] self.channels@.contains_key(k) ==> self.channels@[k].id@ == k
        &&& forall|k: Seq<char>| #[trigger] self.sessions@.contains_key(k) ==> self.sessions@[k].id@ == k
    }

    /// The listing orders are the ids in ascending order, each once.
    pub proof fn lemma_orders(&self)
        requires
            self.wf(),
        ensures
            keys_sorted(self.channel_order()),
            forall|k: Seq<char>| self.channels().contains_key(k) <==> self.channel_order().contains(k),
            keys_sorted(self.session_order()),
            forall|k: Seq<char>| self.sessions().contains_key(k) <==> self.session_order().contains(k),
    {
        self.channels.lemma_order();
        self.sessions.lemma_order();
    }

    /// No channels and no sessions.
    pub fn new() -> (g: Self)
        ensures
            g.wf(),
            g.channels() == Map::<Seq<char>, Channel<C>>::empty(),
            g.sessions() == Map::<Seq<char>, Session>::empty(),
    {
        GatewayService { channels: KeyedTable::new(), sessions: KeyedTable::new() }
    }

    /// Registers an active channel under a fresh id, which it returns.
    pub fn register_channel(&mut self, channel_type: ChannelType, config: C) -> (id: String)
        requires
            old(self).wf(),
        ensures
            final(self).wf(),
            final(self).channels() == old(self).channels().insert(
                id@,
                Channel { id: id, channel_type, config, is_active: true },
            ),
            final(self).sessions() == old(self).sessions(),
    {
        let id = format_uuid(new_uuid_v7());
        let c = Channel { id: id.clone(), channel_type, config, is_active: true };
        self.channels.put(id.as_str(), c);
        id
    }

    /// The channel with this id, if there is one.
    pub fn get_channel(&self, channel_id: &str) -> (r: Option<&Channel<C>>)
        requires
            self.wf(),
        ensures
            match r {
                Some(c) => self.channels().contains_key(channel_id@) && *c == self.channels()[channel_id@],
                None => !self.channels().contains_key(channel_id@),
            },
    {
        self.channels.get(channel_id)
    }

    /// The channels, in id order, of the given type (all of them for `None`).
    pub fn list_channels(&self, type_filter: Option<ChannelType>) -> (r: Vec<&Channel<C>>)
        requires
            self.wf(),
        ensures
            r@.len() == channels_where(self.channels(), self.channel_order(), type_filter).len(),
            forall|i: int|
                0 <= i < r@.len() ==> *r@[i] == self.channels()[channels_where(
                    self.channels(),
                    self.channel_order(),
                    type_filter,
                )[i]],
    {
        let all = self.channels.values();
        let ghost ks = self.channels.key_seq();
        let ghost m = self.channels@;
        let mut out: Vec<&Channel<C>> = Vec::new();
        let mut i: usize = 0;
        while i < all.len()
            invariant
                ks == self.channels.key_seq(),
                m == self.channels@,
                all@.len() == ks.len(),
                forall|j: int| 0 <= j < all@.len() ==> *all@[j] == m[ks[j]],
                i <= all@.len(),
                out@.len() == channels_where(m, ks.take(i as int), type_filter).len(),
                forall|j: int| 0 <= j < out@.len() ==> *out@[j] == m[channels_where(m, ks.take(i as int), type_filter)[j]],
            decreases all.len() - i,
        {
            proof {
                assert(ks.take(i + 1).drop_last() =~= ks.take(i as int));
                assert(ks.take(i + 1).last() == ks[i as int]);
            }
            let c: &Channel<C> = all[i];
            let keep = match type_filter {
                Some(t) => c.channel_type == t,
                None => true,
            };
            if keep {
                out.push(c);
            }
            i = i + 1;
        }
        assert(ks.take(ks.len() as int) =~= ks);
        out
    }

    fn set_channel_active(&mut self, channel_id: &str, active: bool) -> (r: Result<(), GatewayError>)
        requires
            old(self).wf(),
        ensures
            final(self).wf(),
            final(self).sessions() == old(self).sessions(),
            match r {
                Ok(()) => old(self).channels().contains_key(channel_id@) && final(self).channels()
                    == old(self).channels().insert(
                    channel_id@,
                    Channel { is_active: active, ..old(self).channels()[channel_id@] },
                ),
                Err(e) => !old(self).channels().contains_key(channel_id@) && final(self).channels()
                    == old(self).channels() && (e matches GatewayError::ChannelNotFound(x) && x@ == channel_id@),
            },
    {
        let ghost before = self.channels@;
        match self.channels.remove(channel_id) {
            None => {
                assert(before.remove(channel_id@) =~= before);
                Err(GatewayError::ChannelNotFound(String::from_str(channel_id)))
            },
            Some(c) => {
                let updated = Channel { is_active: active, ..c };
                self.channels.put(channel_id, updated);
                assert(before.remove(channel_id@).insert(channel_id@, updated) =~= before.insert(channel_id@, updated));
                Ok(())
            },
        }
    }

    /// Marks a channel active; `ChannelNotFound` when there is none.
    pub fn activate_channel(&mut self, channel_id: &str) -> (r: Result<(), GatewayError>)
        requires
            old(self).wf(),
        ensures
            final(self).wf(),
            final(self).sessions() == old(self).sessions(),
            match r {
                Ok(()) => old(self).channels().contains_key(channel_id@) && final(self).channels()
                    == old(self).channels().insert(
                    channel_id@,
                    Channel { is_active: true, ..old(self).channels()[channel_id@] },
                ),
                Err(e) => !old(self).channels().contains_key(channel_id@) && final(self).channels()
                    == old(self).channels() && (e matches GatewayError::ChannelNotFound(x) && x@ == channel_id@),
            },
    {
        self.set_channel_active(channel_id, true)
    }

    /// Marks a channel inactive; `ChannelNotFound` when there is none.
    pub fn deactivate_channel(&mut self, channel_id: &str) -> (r: Result<(), GatewayError>)
        requires
            old(self).wf(),
        ensures
            final(self).wf(),
            final(self).sessions() == old(self).sessions(),
            match r {
                Ok(()) => old(self).channels().contains_key(channel_id@) && final(self).channels()
                    == old(self).channels().insert(
                    channel_id@,
                    Channel { is_active: false, ..old(self).channels()[channel_id@] },
                ),
                Err(e) => !old(self).channels().contains_key(channel_id@) && final(self).channels()
                    == old(self).channels() && (e matches GatewayError::ChannelNotFound(x) && x@ == channel_id@),
            },
    {
        self.set_channel_active(channel_id, false)
    }

    /// Opens an active session of `identity_id` on an existing channel, under
    /// a fresh id, from `now_ms` for `ttl_seconds`; `ChannelNotFound` when the
    /// channel does not exist.
    pub fn create_session(&mut self, identity_id: String, channel_id: String, ttl_seconds: i64, now_ms: i64) -> (r:
        Result<Session, GatewayError>)
        requires
            old(self).wf(),
            -(i64::MAX / 1000) <= ttl_seconds <= i64::MAX / 1000,
            instant_ms_ok(now_ms as int),
            instant_ms_ok(now_ms + ttl_seconds * 1000),
        ensures
            final(self).wf(),
            final(self).channels() == old(self).channels(),
            match r {
                Ok(s) => old(self).channels().contains_key(channel_id@) && s.identity_id == identity_id && s.channel_id
                    == channel_id && s.state == SessionState::Active && s.created_at == now_ms && s.expires_at
                    == now_ms + ttl_seconds * 1000 && final(self).sessions() == old(self).sessions().insert(s.id@, s),
                Err(e) => !old(self).channels().contains_key(channel_id@) && final(self).sessions() == old(
                    self,
                ).sessions() && e == GatewayError::ChannelNotFound(channel_id),
            },
    {
        if self.channels.get(channel_id.as_str()).is_none() {
            return Err(GatewayError::ChannelNotFound(channel_id));
        }
        let id = format_uuid(new_uuid_v7());
        let expires_at: i64 = now_ms + ttl_seconds * 1000;
        let stored = Session {
            id: id.clone(),
            identity_id: identity_id.clone(),
            channel_id: channel_id.clone(),
            state: SessionState::Active,
            created_at: now_ms,
            expires_at,
        };
        self.sessions.put(id.as_str(), stored);
        Ok(Session { id, identity_id, channel_id, state: SessionState::Active, created_at: now_ms, expires_at })
    }

    /// The session with this id, if there is one.
    pub fn get_session(&self, session_id: &str) -> (r: Option<&Session>)
        requires
            self.wf(),
        ensures
            match r {
                Some(s) => self.sessions().contains_key(session_id@) && *s == self.sessions()[session_id@],
                None => !self.sessions().contains_key(session_id@),
            },
    {
        self.sessions.get(session_id)
    }

    /// Ends a session; `SessionNotFound` when there is none.
    pub fn terminate_session(&mut self, session_id: &str) -> (r: Result<(), GatewayError>)
        requires
            old(self).wf(),
        ensures
            final(self).wf(),
            final(self).channels() == old(self).channels(),
            match r {
                Ok(()) => old(self).sessions().contains_key(session_id@) && final(self).sessions()
                    == old(self).sessions().insert(
                    session_id@,
                    Session { state: SessionState::Terminated, ..old(self).sessions()[session_id@] },
                ),
                Err(e) => !old(self).sessions().contains_key(session_id@) && final(self).sessions()
                    == old(self).sessions() && (e matches GatewayError::SessionNotFound(x) && x@ == session_id@),
            },
    {
        let ghost before = self.sessions@;
        match self.sessions.remove(session_id) {
            None => {
                assert(before.remove(session_id@) =~= before);
                Err(GatewayError::SessionNotFound(String::from_str(session_id)))
            },
            Some(s) => {
                let ended = Session { state: SessionState::Terminated, ..s };
                self.sessions.put(session_id, ended);
                assert(before.remove(session_id@).insert(session_id@, ended) =~= before.insert(session_id@, ended));
                Ok(())
            },
        }
    }

    /// The sessions of one identity, in id order.
    pub fn list_sessions(&self, identity_id: &str) -> (r: Vec<&Session>)
        requires
            self.wf(),
        ensures
            r@.len() == sessions_where(self.sessions(), self.session_order(), identity_id@).len(),
            forall|i: int|
                0 <= i < r@.len() ==> *r@[i] == self.sessions()[sessions_where(
                    self.sessions(),
                    self.session_order(),
                    identity_id@,
                )[i]],
    {
        let all = self.sessions.values();
        let ghost ks = self.sessions.key_seq();
        let ghost m = self.sessions@;
        let mut out: Vec<&Session> = Vec::new();
        let mut i: usize = 0;
        while i < all.len()
            invariant
                ks == self.sessions.key_seq(),
                m == self.sessions@,
                all@.len() == ks.len(),
                forall|j: int| 0 <= j < all@.len() ==> *all@[j] == m[ks[j]],
                i <= all@.len(),
                out@.len() == sessions_where(m, ks.take(i as int), identity_id@).len(),
                forall|j: int|
                    0 <= j < out@.len() ==> *out@[j] == m[sessions_where(m, ks.take(i as int), identity_id@)[j]],
            decreases all.len() - i,
        {
            proof {
                assert(ks.take(i + 1).drop_last() =~= ks.take(i as int));
                assert(ks.take(i + 1).last() == ks[i as int]);
            }
            let s: &Session = all[i];
            if str_eq(s.identity_id.as_str(), identity_id) {
                out.push(s);
            }
            i = i + 1;
        }
        assert(ks.take(ks.len() as int) =~= ks);
        out
    }

    /// Marks every active session past its expiry at `now_ms` expired, and
    /// counts them.
    pub fn expire_stale_sessions(&mut self, now_ms: i64) -> (n: usize)
        requires
            old(self).wf(),
        ensures
            final(self).wf(),
            final(self).channels() == old(self).channels(),
            final(self).sessions().dom() == old(self).sessions().dom(),
            forall|k: Seq<char>|
                #[trigger] old(self).sessions().contains_key(k) ==> final(self).sessions()[k] == expired_at(
                    old(self).sessions()[k],
                    now_ms,
                ),
            n == count_stale(old(self).session_list(), now_ms),
    {
        let ghost m0 = self.sessions@;
        let ghost ks = self.sessions.key_seq();
        let ghost vals = old(self).session_list();
        let mut stale: Vec<String> = Vec::new();
        {
            let all = self.sessions.values();
            proof {
                assert forall|j: int| 0 <= j < ks.len() implies #[trigger] m0.contains_key(ks[j]) by {
                    assert(self.sessions@.contains_key(self.sessions.key_seq()[j]));
                }
                assert forall|k: Seq<char>| #[trigger] m0.contains_key(k) implies ks.contains(k) by {}
            }
            let mut i: usize = 0;
            while i < all.len()
                invariant
                    ks == self.sessions.key_seq(),
                    m0 == self.sessions@,
                    vals == ks.map_values(|k: Seq<char>| m0[k]),
                    all@.len() == ks.len(),
                    forall|j: int| 0 <= j < ks.len() ==> #[trigger] m0.contains_key(ks[j]),
                    forall|k: Seq<char>| #[trigger] m0.contains_key(k) ==> ks.contains(k),
                    forall|j: int| #![trigger all@[j]] 0 <= j < all@.len() ==> *all@[j] == m0[ks[j]],
                    forall|k: Seq<char>| #[trigger] m0.contains_key(k) ==> m0[k].id@ == k,
                    i <= all@.len(),
                    stale@.len() == count_stale(vals.take(i as int), now_ms),
                    stale@.len() <= i,
                    forall|j: int| 0 <= j < stale@.len() ==> m0.contains_key(#[trigger] stale@[j]@) && is_stale(m0[stale@[j]@], now_ms),
                    forall|j: int| 0 <= j < i && is_stale(m0[ks[j]], now_ms) ==> exists|x: int| 0 <= x < stale@.len() && #[trigger] stale@[x]@ == ks[j],
                decreases all.len() - i,
            {
                proof {
                    assert(vals.take(i + 1).drop_last() =~= vals.take(i as int));
                    assert(vals.take(i + 1).last() == vals[i as int]);
                }
                let s: &Session = all[i];
                if s.expires_at < now_ms && s.state == SessionState::Active {
                    let ghost before = stale@;
                    proof {
                        assert(m0.contains_key(ks[i as int]));
                        assert(*all@[i as int] == m0[ks[i as int]]);
                        assert(s.id@ == ks[i as int]);
                    }
                    stale.push(s.id.clone());
                    proof {
                        assert(stale@[before.len() as int]@ == ks[i as int]);
                        assert forall|j: int| 0 <= j < i + 1 && is_stale(m0[ks[j]], now_ms) implies exists|x: int|
                            0 <= x < stale@.len() && #[trigger] stale@[x]@ == ks[j] by {
                            if j < i {
                                let x = choose|x: int| 0 <= x < before.len() && before[x]@ == ks[j];
                                assert(stale@[x] == before[x]);
                            } else {
                                assert(stale@[before.len() as int]@ == ks[j]);
                            }
                        }
                    }
                }
                i = i + 1;
            }
            assert(vals.take(vals.len() as int) =~= vals);
            proof {
                assert forall|k: Seq<char>| #[trigger] m0.contains_key(k) && is_stale(m0[k], now_ms) implies exists|x: int|
                    0 <= x < stale@.len() && stale@[x]@ == k by {
                    assert(ks.contains(k));
                    let j = choose|j: int| 0 <= j < ks.len() && ks[j] == k;
                    let x = choose|x: int| 0 <= x < stale@.len() && #[trigger] stale@[x]@ == ks[j];
                }
            }
        }
        let n = stale.len();
        let mut j: usize = 0;
        while j < stale.len()
            invariant
                self.sessions.wf(),
                self.channels == old(self).channels,
                m0 == old(self).sessions@,
                forall|k: Seq<char>| #[trigger] m0.contains_key(k) ==> m0[k].id@ == k,
                forall|x: int| 0 <= x < stale@.len() ==> m0.contains_key(#[trigger] stale@[x]@) && is_stale(m0[stale@[x]@], now_ms),
                forall|k: Seq<char>| #[trigger] m0.contains_key(k) && is_stale(m0[k], now_ms) ==> exists|x: int| 0 <= x < stale@.len() && stale@[x]@ == k,
                j <= stale@.len(),
                self.sessions@.dom() == m0.dom(),
                forall|k: Seq<char>| #[trigger] m0.contains_key(k) ==> self.sessions@[k] == if exists|x: int|
                    0 <= x < j && stale@[x]@ == k {
                    expired_at(m0[k], now_ms)
                } else {
                    m0[k]
                },
            decreases stale.len() - j,
        {
            let ghost cur = self.sessions@;
            let ghost key = stale@[j as int]@;
            match self.sessions.remove(stale[j].as_str()) {
                Some(s) => {
                    let updated = Session { state: SessionState::Expired, ..s };
                    self.sessions.put(stale[j].as_str(), updated);
                    proof {
                        assert(updated == expired_at(m0[key], now_ms)) by {
                            if exists|x: int| 0 <= x < j && stale@[x]@ == key {
                                assert(s == expired_at(m0[key], now_ms));
                            }
                        }
                        assert(self.sessions@ =~= cur.insert(key, updated));
                        assert forall|k: Seq<char>| #[trigger] m0.contains_key(k) implies self.sessions@[k] == if exists|x: int|
                            0 <= x < j + 1 && stale@[x]@ == k {
                            expired_at(m0[k], now_ms)
                        } else {
                            m0[k]
                        } by {
                            if k == key {
                                assert(stale@[j as int]@ == k);
                            } else {
                                if exists|x: int| 0 <= x < j + 1 && stale@[x]@ == k {
                                    let x = choose|x: int| 0 <= x < j + 1 && stale@[x]@ == k;
                                    assert(x != j);
                                    assert(0 <= x < j && stale@[x]@ == k);
                                }
                            }
                        }
                        assert(self.sessions@.dom() =~= m0.dom());
                    }
                },
                None => {
                    assert(false);
                },
            }
            j = j + 1;
        }
        proof {
            assert forall|k: Seq<char>| #[trigger] m0.contains_key(k) implies self.sessions@[k] == expired_at(m0[k], now_ms) by {
                if exists|x: int| 0 <= x < stale@.len() && stale@[x]@ == k {
                    let x = choose|x: int| 0 <= x < stale@.len() && stale@[x]@ == k;
                    assert(is_stale(m0[k], now_ms));
                } else {
                    if is_stale(m0[k], now_ms) {
                        let x = choose|x: int| 0 <= x < stale@.len() && stale@[x]@ == k;
                    }
                }
            }
            assert forall|k: Seq<char>| #[trigger] self.sessions@.contains_key(k) implies self.sessions@[k].id@ == k by {
                assert(m0.contains_key(k));
            }
        }
        n
    }
}

} // verus!
