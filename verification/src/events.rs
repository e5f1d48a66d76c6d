//! Domain event subjects (`clawhive.<domain>.<action>`), subject patterns with
//! `*` (one segment) and `>` (all remaining segments), and the subscription
//! table of the in-memory event bus.

use vstd::prelude::*;
use crate::scheduler::uuid_text;
use crate::text::{chars_of, split_char, split_on};

verus! {

/// Why an event bus operation failed.
#[derive(Debug)]
pub enum EventBusError {
    /// `publish gagal: {0}`
    Publish(String),
    /// `subscribe gagal: {0}`
    Subscribe(String),
    /// `serialisasi event gagal: {0}`
    Serialization(String),
    /// `bus error: {0}`
    Other(String),
}

/// Identifies a subscription so that it can be cancelled.
#[derive(Debug, Clone, PartialEq, Eq, Hash)]
pub struct SubscriptionId(pub String);

/// Why an agent was woken from hibernation.
#[derive(Debug, Clone)]
pub enum WakeTrigger {
    ScheduleDue,
    EventSubscription { event_type: String },
    ManualWake,
    Heartbeat,
}

/// Why an agent was terminated.
#[derive(Debug, Clone, Copy, PartialEq, Eq)]
pub enum TerminationReason {
    TaskCompleted,
    BudgetExhausted,
    TtlExpired,
    ParentTerminated,
    PolicyViolation,
    OperatorKill,
    Orphaned,
}

/// The kinds of domain event, one per variant of the platform's event type.
#[derive(Debug, Clone, Copy, PartialEq, Eq)]
pub enum EventKind {
    AgentSpawned,
    AgentHibernated,
    AgentWoken,
    AgentTerminated,
    AgentMigrated,
    SpawnRequestApproved,
    SpawnRequestDenied,
    ScheduleDue,
    MemoryCandidateSubmitted,
    MemoryActivated,
    MemoryRejected,
    TaskVerified,
    TaskFailed,
    WorkerHeartbeat,
    WorkerStale,
}

impl EventKind {
    /// The subject an event of this kind is published under.
    pub fn subject(&self) -> (s: &'static str)
        ensures
            s@ == subject_of(*self),
    {
        match self {
            EventKind::AgentSpawned => "clawhive.agent.spawned",
            EventKind::AgentHibernated => "clawhive.agent.hibernated",
            EventKind::AgentWoken => "clawhive.agent.woken",
            EventKind::AgentTerminated => "clawhive.agent.terminated",
            EventKind::AgentMigrated => "clawhive.agent.migrated",
            EventKind::SpawnRequestApproved => "clawhive.spawn.approved",
            EventKind::SpawnRequestDenied => "clawhive.spawn.denied",
            EventKind::ScheduleDue => "clawhive.schedule.due",
            EventKind::MemoryCandidateSubmitted => "clawhive.memory.submitted",
            EventKind::MemoryActivated => "clawhive.memory.activated",
            EventKind::MemoryRejected => "clawhive.memory.rejected",
            EventKind::TaskVerified => "clawhive.task.verified",
            EventKind::TaskFailed => "clawhive.task.failed",
            EventKind::WorkerHeartbeat => "clawhive.worker.heartbeat",
            EventKind::WorkerStale => "clawhive.worker.stale",
        }
    }
}

/// The subject of each kind of event.
pub open spec fn subject_of(k: EventKind) -> Seq<char> {
    match k {
        EventKind::AgentSpawned => "clawhive.agent.spawned"@,
        EventKind::AgentHibernated => "clawhive.agent.hibernated"@,
        EventKind::AgentWoken => "clawhive.agent.woken"@,
        EventKind::AgentTerminated => "clawhive.agent.terminated"@,
        EventKind::AgentMigrated => "clawhive.agent.migrated"@,
        EventKind::SpawnRequestApproved => "clawhive.spawn.approved"@,
        EventKind::SpawnRequestDenied => "clawhive.spawn.denied"@,
        EventKind::ScheduleDue => "clawhive.schedule.due"@,
        EventKind::MemoryCandidateSubmitted => "clawhive.memory.submitted"@,
        EventKind::MemoryActivated => "clawhive.memory.activated"@,
        EventKind::MemoryRejected => "clawhive.memory.rejected"@,
        EventKind::TaskVerified => "clawhive.task.verified"@,
        EventKind::TaskFailed => "clawhive.task.failed"@,
        EventKind::WorkerHeartbeat => "clawhive.worker.heartbeat"@,
        EventKind::WorkerStale => "clawhive.worker.stale"@,
    }
}

/// Segment-wise matching: `*` takes one segment, `>` all remaining ones (at
/// least one), anything else must equal the segment.
pub open spec fn segments_match(p: Seq<Seq<char>>, s: Seq<Seq<char>>) -> bool
    decreases p.len(),
{
    if p.len() == 0 {
        s.len() == 0
    } else if s.len() == 0 {
        false
    } else if p[0] == seq!['>'] {
        true
    } else if p[0] == seq!['*'] || p[0] == s[0] {
        segments_match(p.drop_first(), s.drop_first())
    } else {
        false
    }
}

/// A `*` pattern segment stands for exactly one subject segment, whatever it
/// is: matching goes on with the rest of the pattern against the rest of the
/// subject.
pub proof fn law_star_takes_one_segment(p: Seq<Seq<char>>, x: Seq<char>, s: Seq<Seq<char>>)
    ensures
        segments_match(seq![seq!['*']] + p, seq![x] + s) == segments_match(p, s),
{
    let pp = seq![seq!['*']] + p;
    let ss = seq![x] + s;
    assert(pp[0] == seq!['*']);
    assert(seq!['*'] != seq!['>']) by {
        assert(seq!['*'][0] != seq!['>'][0]);
    }
    assert(pp.drop_first() =~= p);
    assert(ss.drop_first() =~= s);
}

/// A pattern without `>` matches exactly the subjects with as many segments,
/// equal to it at every segment that is not `*`.
pub proof fn law_pattern_without_rest(p: Seq<Seq<char>>, s: Seq<Seq<char>>)
    requires
        forall|i: int| 0 <= i < p.len() ==> p[i] != seq!['>'],
    ensures
        segments_match(p, s) <==> (p.len() == s.len() && forall|i: int|
            0 <= i < p.len() ==> p[i] == seq!['*'] || p[i] == s[i]),
    decreases p.len(),
{
    if p.len() > 0 && s.len() > 0 {
        let pr = p.drop_first();
        let sr = s.drop_first();
        assert forall|i: int| 0 <= i < pr.len() implies pr[i] != seq!['>'] by {
            assert(pr[i] == p[i + 1]);
        }
        law_pattern_without_rest(pr, sr);
        if p.len() == s.len() && forall|i: int| 0 <= i < p.len() ==> p[i] == seq!['*'] || p[i] == s[i] {
            assert(p[0] == seq!['*'] || p[0] == s[0]);
            assert forall|i: int| 0 <= i < pr.len() implies pr[i] == seq!['*'] || pr[i] == sr[i] by {
                assert(pr[i] == p[i + 1] && sr[i] == s[i + 1]);
            }
        }
        if segments_match(p, s) {
            assert forall|i: int| 0 <= i < p.len() implies p[i] == seq!['*'] || p[i] == s[i] by {
                if i > 0 {
                    assert(pr[i - 1] == p[i] && sr[i - 1] == s[i]);
                }
            }
        }
    } else if p.len() > 0 {
        assert(!segments_match(p, s));
    }
}

/// Whether a subscription pattern covers a subject (both split on `.`).
pub open spec fn subject_matches(pattern: Seq<char>, subject: Seq<char>) -> bool {
    segments_match(split_char(pattern, '.'), split_char(subject, '.'))
}

fn seg_is(s: &Vec<char>, c: char) -> (b: bool)
    ensures
        b == (s@ == seq![c]),
{
    if s.len() == 1 && s[0] == c {
        assert(s@ =~= seq![c]);
        true
    } else {
        false
    }
}

fn seg_eq(a: &Vec<char>, b: &Vec<char>) -> (r: bool)
    ensures
        r == (a@ == b@),
{
    if a.len() != b.len() {
        return false;
    }
    let mut i: usize = 0;
    while i < a.len()
        invariant
            a@.len() == b@.len(),
            i <= a@.len(),
            forall|j: int| 0 <= j < i ==> a@[j] == b@[j],
        decreases a.len() - i,
    {
        if a[i] != b[i] {
            return false;
        }
        i = i + 1;
    }
    assert(a@ =~= b@);
    true
}

/// A new subscription identifier: uuid's `Uuid::now_v7`, as text.
///
/// Claimed: the text is the hyphenated lower-case form of some 128-bit value
/// (uuid's `Display`). Which value is not stated: it depends on the clock and
/// on chance.
#[verifier::external_body]
fn fresh_subscription_id() -> (id: String)
    ensures
        exists|v: u128| id@ == uuid_text(v),
{
    uuid::Uuid::now_v7().to_string()
}

/// The ids of the subscriptions in `e` whose pattern covers `subject`, in order.
pub open spec fn receivers(e: Seq<(String, String)>, subject: Seq<char>) -> Seq<Seq<char>> {
    e.filter(|x: (String, String)| subject_matches(x.1@, subject)).map_values(|x: (String, String)| x.0@)
}

/// A subscription is told of exactly the events whose subject its pattern
/// covers: with ids unique, its id is among the receivers of a subject if and
/// only if its pattern covers that subject.
pub proof fn law_subscriber_receives(
    e: Seq<(String, String)>,
    i: int,
    subject: Seq<char>,
)
    requires
        ids_of(e).no_duplicates(),
        0 <= i < e.len(),
    ensures
        receivers(e, subject).contains(e[i].0@) <==> subject_matches(e[i].1@, subject),
{
    let f = |x: (String, String)| subject_matches(x.1@, subject);
    let g = |x: (String, String)| x.0@;
    let fl = e.filter(f);
    if subject_matches(e[i].1@, subject) {
        e.lemma_filter_contains(f, i);
        let k = choose|k: int| 0 <= k < fl.len() && fl[k] == e[i];
        assert(fl.map_values(g)[k] == e[i].0@);
    }
    if receivers(e, subject).contains(e[i].0@) {
        let k = choose|k: int| 0 <= k < fl.map_values(g).len() && fl.map_values(g)[k] == e[i].0@;
        e.lemma_filter_pred(f, k);
        assert(fl.contains(fl[k]));
        e.lemma_filter_contains_rev(f, fl[k]);
        let j = choose|j: int| 0 <= j < e.len() && e[j] == fl[k];
        assert(ids_of(e)[j] == ids_of(e)[i]);
        assert(j == i);
    }
}

/// The subscriptions of an in-memory event bus: an id and a subject pattern each.
pub struct InMemoryEventBus {
    entries: Vec<(String, String)>,
}

impl InMemoryEventBus {
    /// The subscriptions, in the order they were made: an id and a pattern each.
    pub closed spec fn subscriptions(&self) -> Seq<(String, String)> {
        self.entries@
    }
}

impl View for InMemoryEventBus {
    type V = Seq<(String, String)>;

    open spec fn view(&self) -> Seq<(String, String)> {
        self.subscriptions()
    }
}

pub open spec fn ids_of(e: Seq<(String, String)>) -> Seq<Seq<char>> {
    e.map_values(|p: (String, String)| p.0@)
}

impl InMemoryEventBus {
    /// Whether the subject pattern `pattern` covers `subject`.
    pub fn matches(pattern: &str, subject: &str) -> (b: bool)
        ensures
            b == subject_matches(pattern@, subject@),
    {
        let pc = chars_of(pattern);
        let sc = chars_of(subject);
        let pp = split_on(&pc, '.');
        let sp = split_on(&sc, '.');
        let ghost pv = pp.deep_view();
        let ghost sv = sp.deep_view();
        let mut pi: usize = 0;
        let mut si: usize = 0;
        assert(pv.skip(0) =~= pv && sv.skip(0) =~= sv);
        while pi < pp.len() && si < sp.len()
            invariant
                pv == split_char(pattern@, '.'),
                sv == split_char(subject@, '.'),
                pv == pp.deep_view(),
                sv == sp.deep_view(),
                pi <= pv.len(),
                si <= sv.len(),
                pi == si,
                segments_match(pv, sv) == segments_match(pv.skip(pi as int), sv.skip(si as int)),
            decreases pp.len() - pi,
        {
            assert(pv.skip(pi as int)[0] == pp@[pi as int]@) by {
                assert(pp@[pi as int].deep_view() =~= pp@[pi as int]@);
            }
            assert(sv.skip(si as int)[0] == sp@[si as int]@) by {
                assert(sp@[si as int].deep_view() =~= sp@[si as int]@);
            }
            assert(pv.skip(pi as int).drop_first() =~= pv.skip(pi + 1));
            assert(sv.skip(si as int).drop_first() =~= sv.skip(si + 1));
            if seg_is(&pp[pi], '>') {
                return true;
            } else if seg_is(&pp[pi], '*') || seg_eq(&pp[pi], &sp[si]) {
                pi = pi + 1;
                si = si + 1;
            } else {
                return false;
            }
        }
        assert(pv.skip(pi as int).len() == 0 ==> pv.skip(pi as int) =~= Seq::<Seq<char>>::empty());
        pi == pp.len() && si == sp.len()
    }

    /// No id occurs twice.
    pub open spec fn wf(&self) -> bool {
        ids_of(self@).no_duplicates()
    }

    pub fn new() -> (t: InMemoryEventBus)
        ensures
            t.wf(),
            t@.len() == 0,
    {
        InMemoryEventBus { entries: Vec::new() }
    }

    fn position(&self, id: &str) -> (r: Option<usize>)
        ensures
            r matches Some(i) ==> i < self.entries@.len() && self.entries@[i as int].0@ == id@,
            r is None ==> forall|j: int| 0 <= j < self.entries@.len() ==> self.entries@[j].0@ != id@,
    {
        let key = chars_of(id);
        let mut i: usize = 0;
        while i < self.entries.len()
            invariant
                key@ == id@,
                i <= self.entries@.len(),
                forall|j: int| 0 <= j < i ==> self.entries@[j].0@ != id@,
            decreases self.entries.len() - i,
        {
            let k = chars_of(self.entries[i].0.as_str());
            if seg_eq(&k, &key) {
                return Some(i);
            }
            i = i + 1;
        }
        None
    }

    /// Records `pattern` under `id` (replacing the pattern of an existing `id`).
    pub fn insert(&mut self, id: String, pattern: String)
        requires
            old(self).wf(),
        ensures
            final(self).wf(),
            exists|i: int| 0 <= i < final(self)@.len() && final(self)@[i].0@ == id@ && final(self)@[i].1@ == pattern@,
            forall|k: Seq<char>| k != id@ ==> (ids_of(final(self)@).contains(k) == ids_of(old(self)@).contains(k)),
            forall|j: int| 0 <= j < old(self)@.len() && old(self)@[j].0@ != id@ ==> final(self)@.contains(old(self)@[j]),
            forall|j: int| 0 <= j < final(self)@.len() && final(self)@[j].0@ != id@ ==> old(self)@.contains(final(self)@[j]),
    {
        let ghost old_e = self.entries@;
        match self.position(id.as_str()) {
            Some(i) => {
                let ghost idv = id@;
                self.entries.set(i, (id, pattern));
                assert(ids_of(self.entries@) =~= ids_of(old_e).update(i as int, idv));
                assert(ids_of(old_e)[i as int] == idv);
                assert(ids_of(self.entries@) =~= ids_of(old_e));
                assert forall|j: int| 0 <= j < old_e.len() && old_e[j].0@ != idv implies self.entries@.contains(old_e[j]) by {
                    assert(j != i);
                    assert(self.entries@[j] == old_e[j]);
                }
                assert forall|j: int| 0 <= j < self.entries@.len() && self.entries@[j].0@ != idv implies old_e.contains(self.entries@[j]) by {
                    assert(j != i);
                    assert(old_e[j] == self.entries@[j]);
                }
                assert(self.entries@[i as int].0@ == idv);
            },
            None => {
                let ghost idv = id@;
                self.entries.push((id, pattern));
                assert(ids_of(self.entries@) =~= ids_of(old_e).push(idv));
                assert forall|j: int| 0 <= j < old_e.len() && old_e[j].0@ != idv implies self.entries@.contains(old_e[j]) by {
                    assert(self.entries@[j] == old_e[j]);
                }
                assert forall|j: int| 0 <= j < self.entries@.len() && self.entries@[j].0@ != idv implies old_e.contains(self.entries@[j]) by {
                    assert(old_e[j] == self.entries@[j]);
                }
                assert(self.entries@[old_e.len() as int].0@ == idv);
                assert forall|k: Seq<char>| k != idv implies (ids_of(self.entries@).contains(k) == ids_of(old_e).contains(k)) by {
                    if ids_of(self.entries@).contains(k) {
                        let j = choose|j: int| 0 <= j < ids_of(self.entries@).len() && ids_of(self.entries@)[j] == k;
                        assert(ids_of(old_e)[j] == k);
                    }
                    if ids_of(old_e).contains(k) {
                        let j = choose|j: int| 0 <= j < ids_of(old_e).len() && ids_of(old_e)[j] == k;
                        assert(ids_of(self.entries@)[j] == k);
                    }
                }
            },
        }
    }

    /// Subscribes `pattern` under a fresh id and returns the id.
    pub fn subscribe(&mut self, pattern: &str) -> (id: SubscriptionId)
        requires
            old(self).wf(),
        ensures
            final(self).wf(),
            exists|i: int| 0 <= i < final(self)@.len() && final(self)@[i].0@ == id.0@ && final(self)@[i].1@ == pattern@,
            forall|k: Seq<char>| k != id.0@ ==> (ids_of(final(self)@).contains(k) == ids_of(old(self)@).contains(k)),
            forall|j: int| 0 <= j < old(self)@.len() && old(self)@[j].0@ != id.0@ ==> final(self)@.contains(old(self)@[j]),
            forall|j: int| 0 <= j < final(self)@.len() && final(self)@[j].0@ != id.0@ ==> old(self)@.contains(final(self)@[j]),
            exists|v: u128| id.0@ == uuid_text(v),
    {
        let id = fresh_subscription_id();
        let p = crate::text::string_from_chars(&chars_of(pattern));
        let id2 = id.clone();
        self.insert(id2, p);
        SubscriptionId(id)
    }

    /// Cancels the subscription `id` (nothing happens for an unknown id).
    pub fn unsubscribe(&mut self, id: &SubscriptionId)
        requires
            old(self).wf(),
        ensures
            final(self).wf(),
            !ids_of(final(self)@).contains(id.0@),
            forall|j: int| 0 <= j < old(self)@.len() && old(self)@[j].0@ != id.0@ ==> final(self)@.contains(old(self)@[j]),
            forall|j: int| 0 <= j < final(self)@.len() ==> old(self)@.contains(final(self)@[j]),
    {
        let ghost old_e = self.entries@;
        match self.position(id.0.as_str()) {
            Some(i) => {
                self.entries.remove(i);
                assert(ids_of(self.entries@) =~= ids_of(old_e).remove(i as int));
                assert forall|j: int| 0 <= j < old_e.len() && old_e[j].0@ != id.0@ implies self.entries@.contains(old_e[j]) by {
                    if j < i {
                        assert(self.entries@[j] == old_e[j]);
                    } else {
                        assert(j != i);
                        assert(self.entries@[j - 1] == old_e[j]);
                    }
                }
                assert forall|j: int| 0 <= j < self.entries@.len() implies old_e.contains(self.entries@[j]) by {
                    if j < i {
                        assert(old_e[j] == self.entries@[j]);
                    } else {
                        assert(old_e[j + 1] == self.entries@[j]);
                    }
                }
                assert(!ids_of(self.entries@).contains(id.0@)) by {
                    if ids_of(self.entries@).contains(id.0@) {
                        let j = choose|j: int| 0 <= j < ids_of(self.entries@).len() && ids_of(self.entries@)[j] == id.0@;
                        if j < i {
                            assert(ids_of(old_e)[j] == ids_of(old_e)[i as int]);
                        } else {
                            assert(ids_of(old_e)[j + 1] == ids_of(old_e)[i as int]);
                        }
                    }
                }
            },
            None => {
                assert forall|j: int| 0 <= j < self.entries@.len() implies old_e.contains(self.entries@[j]) by {
                    assert(old_e[j] == self.entries@[j]);
                }
                assert forall|j: int| 0 <= j < old_e.len() && old_e[j].0@ != id.0@ implies self.entries@.contains(old_e[j]) by {
                    assert(self.entries@[j] == old_e[j]);
                }
            },
        }
    }

    /// The ids of the subscriptions whose pattern covers `subject`, in table order.
    pub fn matching(&self, subject: &str) -> (ids: Vec<SubscriptionId>)
        ensures
            ids@.len() <= self@.len(),
            ids@.map_values(|i: SubscriptionId| i.0@) == receivers(self@, subject@),
    {
        let mut out: Vec<SubscriptionId> = Vec::new();
        let mut i: usize = 0;
        let ghost f = |e: (String, String)| subject_matches(e.1@, subject@);
        while i < self.entries.len()
            invariant
                i <= self.entries@.len(),
                f == (|e: (String, String)| subject_matches(e.1@, subject@)),
                out@.map_values(|x: SubscriptionId| x.0@) == self.entries@.take(i as int).filter(f).map_values(|e: (String, String)| e.0@),
                out@.len() <= i,
            decreases self.entries.len() - i,
        {
            let ghost before = out@;
            proof {
                assert(self.entries@.take(i + 1) =~= self.entries@.take(i as int).push(self.entries@[i as int]));
                self.entries@.take(i as int).lemma_filter_push(self.entries@[i as int], f);
                self.entries@.take(i as int).lemma_filter_len(f);
            }
            if Self::matches(self.entries[i].1.as_str(), subject) {
                let id = self.entries[i].0.clone();
                out.push(SubscriptionId(id));
                assert(out@.map_values(|x: SubscriptionId| x.0@) =~= before.map_values(|x: SubscriptionId| x.0@).push(self.entries@[i as int].0@));
                assert(self.entries@.take(i + 1).filter(f).map_values(|e: (String, String)| e.0@) =~= self.entries@.take(i as int).filter(f).map_values(|e: (String, String)| e.0@).push(self.entries@[i as int].0@));
            }
            i = i + 1;
        }
        assert(self.entries@.take(self.entries@.len() as int) =~= self.entries@);
        out
    }
}

} // verus!
