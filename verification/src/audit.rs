//! The audit log: audit events kept by id, listed in id order (the order in
//! which a scan of their `audit:<id>` keys finds them), and filtered by agent,
//! mission, task or event type.

use vstd::prelude::*;
use crate::lineage::now_millis;
use crate::text::str_eq;

verus! {

/// An audit event. `details` is what the log carries without reading it
/// (the event's cost and payload).
pub struct AuditEvent<X> {
    pub id: u128,
    pub tenant_id: String,
    pub mission_id: Option<String>,
    pub task_id: Option<String>,
    pub agent_id: Option<String>,
    pub parent_agent_id: Option<String>,
    pub lineage_id: Option<String>,
    pub worker_id: Option<String>,
    pub trace_id: Option<String>,
    pub event_type: String,
    pub lifecycle_mode: Option<String>,
    pub risk_level: Option<String>,
    pub status: String,
    /// When the event was recorded, in milliseconds since the Unix epoch.
    pub timestamp_ms: i64,
    pub details: X,
}

pub open spec fn opt_chars(o: Option<String>) -> Option<Seq<char>> {
    match o {
        Some(s) => Some(s@),
        None => None,
    }
}

/// Ids strictly increasing along the log.
pub open spec fn ordered<X>(s: Seq<AuditEvent<X>>) -> bool {
    forall|i: int, j: int| 0 <= i < j < s.len() ==> s[i].id < s[j].id
}

/// Whether an event with this id is in the log.
pub open spec fn has_id<X>(s: Seq<AuditEvent<X>>, id: u128) -> bool {
    exists|i: int| 0 <= i < s.len() && s[i].id == id
}

/// The event with this id (meaningful when there is one).
pub open spec fn event_with<X>(s: Seq<AuditEvent<X>>, id: u128) -> AuditEvent<X> {
    s[choose|i: int| 0 <= i < s.len() && s[i].id == id]
}

/// The events of `s` that satisfy `p`, in order.
pub open spec fn events_where<X>(s: Seq<AuditEvent<X>>, p: spec_fn(AuditEvent<X>) -> bool) -> Seq<AuditEvent<X>>
    decreases s.len(),
{
    if s.len() == 0 {
        Seq::empty()
    } else {
        events_where(s.drop_last(), p) + if p(s.last()) {
            seq![s.last()]
        } else {
            Seq::empty()
        }
    }
}

/// Which field a listing filters on.
pub enum AuditFilter {
    Agent,
    Mission,
    Task,
    EventType,
}

/// Whether `e` is listed by the filter `f` for the value `v`: the field is
/// set and equal to `v` (the event type is always set).
pub open spec fn selected<X>(f: AuditFilter, v: Seq<char>, e: AuditEvent<X>) -> bool {
    match f {
        AuditFilter::Agent => opt_chars(e.agent_id) == Some(v),
        AuditFilter::Mission => opt_chars(e.mission_id) == Some(v),
        AuditFilter::Task => opt_chars(e.task_id) == Some(v),
        AuditFilter::EventType => e.event_type@ == v,
    }
}

fn opt_eq(o: &Option<String>, v: &str) -> (b: bool)
    ensures
        b == (opt_chars(*o) == Some(v@)),
{
    match o {
        Some(s) => str_eq(s.as_str(), v),
        None => false,
    }
}

fn is_selected<X>(f: &AuditFilter, v: &str, e: &AuditEvent<X>) -> (b: bool)
    ensures
        b == selected(*f, v@, *e),
{
    match f {
        AuditFilter::Agent => opt_eq(&e.agent_id, v),
        AuditFilter::Mission => opt_eq(&e.mission_id, v),
        AuditFilter::Task => opt_eq(&e.task_id, v),
        AuditFilter::EventType => str_eq(e.event_type.as_str(), v),
    }
}

/// The audit log.
pub struct AuditService<X> {
    events: Vec<AuditEvent<X>>,
}

impl<X> AuditService<X> {
    /// The events in id order.
    pub closed spec fn log(&self) -> Seq<AuditEvent<X>> {
        self.events@
    }

    pub closed spec fn wf(&self) -> bool {
        ordered(self.events@)
    }

    /// An empty log.
    pub fn new() -> (s: Self)
        ensures
            s.wf(),
            s.log() == Seq::<AuditEvent<X>>::empty(),
    {
        AuditService { events: Vec::new() }
    }

    /// Records `event`, stamped with the current time, which it returns; an
    /// event with the same id is replaced.
    pub fn emit_event(&mut self, event: AuditEvent<X>) -> (stamped_at: i64)
        requires
            old(self).wf(),
        ensures
            final(self).wf(),
            has_id(final(self).log(), event.id),
            event_with(final(self).log(), event.id) == (AuditEvent { timestamp_ms: stamped_at, ..event }),
            forall|id: u128| id != event.id ==> has_id(final(self).log(), id) == has_id(old(self).log(), id),
            forall|id: u128|
                id != event.id && has_id(old(self).log(), id) ==> event_with(final(self).log(), id) == event_with(
                    old(self).log(),
                    id,
                ),
    {
        let t = now_millis();
        let e = AuditEvent { timestamp_ms: t, ..event };
        let ghost s = self.events@;
        let mut i: usize = 0;
        while i < self.events.len() && self.events[i].id < e.id
            invariant
                s == self.events@,
                ordered(s),
                i <= s.len(),
                forall|k: int| 0 <= k < i ==> s[k].id < e.id,
            decreases self.events.len() - i,
        {
            i = i + 1;
        }
        if i < self.events.len() && self.events[i].id == e.id {
            self.events.set(i, e);
            proof {
                let n = self.events@;
                assert(n =~= s.update(i as int, e));
                assert(n[i as int].id == e.id);
                let c = choose|c: int| 0 <= c < n.len() && n[c].id == e.id;
                assert(c == i as int) by {
                    if c < i {
                        assert(s[c].id < e.id);
                    } else if c > i {
                        assert(s[i as int].id < s[c].id);
                    }
                }
                assert forall|id: u128| id != e.id implies has_id(n, id) == has_id(s, id) by {
                    if has_id(s, id) {
                        let k = choose|k: int| 0 <= k < s.len() && s[k].id == id;
                        assert(n[k].id == id);
                    }
                    if has_id(n, id) {
                        let k = choose|k: int| 0 <= k < n.len() && n[k].id == id;
                        assert(s[k].id == id);
                    }
                }
                assert forall|id: u128| id != e.id && has_id(s, id) implies event_with(n, id) == event_with(s, id) by {
                    let k = choose|k: int| 0 <= k < s.len() && s[k].id == id;
                    let kn = choose|k: int| 0 <= k < n.len() && n[k].id == id;
                    assert(n[kn].id == s[kn].id);
                    assert(kn == k) by {
                        if kn < k {
                            assert(s[kn].id < s[k].id);
                        } else if kn > k {
                            assert(s[k].id < s[kn].id);
                        }
                    }
                }
            }
        } else {
            self.events.insert(i, e);
            proof {
                let n = self.events@;
                assert(n =~= s.insert(i as int, e));
                assert(forall|k: int| i <= k < s.len() ==> s[k].id > e.id) by {
                    assert forall|k: int| i <= k < s.len() implies s[k].id > e.id by {
                        if k > i {
                            assert(s[i as int].id < s[k].id);
                        }
                    }
                }
                assert(n[i as int].id == e.id);
                let c = choose|c: int| 0 <= c < n.len() && n[c].id == e.id;
                assert(c == i as int) by {
                    if c < i {
                        assert(n[c] == s[c]);
                    } else if c > i {
                        assert(n[c] == s[c - 1]);
                    }
                }
                assert forall|id: u128| id != e.id implies has_id(n, id) == has_id(s, id) by {
                    if has_id(s, id) {
                        let k = choose|k: int| 0 <= k < s.len() && s[k].id == id;
                        if k < i {
                            assert(n[k].id == id);
                        } else {
                            assert(n[k + 1].id == id);
                        }
                    }
                    if has_id(n, id) {
                        let k = choose|k: int| 0 <= k < n.len() && n[k].id == id;
                        if k < i {
                            assert(s[k].id == id);
                        } else {
                            assert(s[k - 1].id == id);
                        }
                    }
                }
                assert forall|id: u128| id != e.id && has_id(s, id) implies event_with(n, id) == event_with(s, id) by {
                    let k = choose|k: int| 0 <= k < s.len() && s[k].id == id;
                    let kn = choose|k: int| 0 <= k < n.len() && n[k].id == id;
                    let m = if k < i { k } else { k + 1 };
                    assert(n[m] == s[k]);
                    assert(kn == m) by {
                        if kn < m {
                            assert(n[kn].id < n[m].id);
                        } else if kn > m {
                            assert(n[m].id < n[kn].id);
                        }
                    }
                }
            }
        }
        t
    }

    /// The event with this id, if one was recorded.
    pub fn get_event(&self, id: u128) -> (r: Option<&AuditEvent<X>>)
        requires
            self.wf(),
        ensures
            r is Some <==> has_id(self.log(), id),
            r matches Some(e) ==> *e == event_with(self.log(), id),
    {
        let mut i: usize = 0;
        while i < self.events.len()
            invariant
                ordered(self.events@),
                i <= self.events@.len(),
                forall|k: int| 0 <= k < i ==> self.events@[k].id != id,
            decreases self.events.len() - i,
        {
            if self.events[i].id == id {
                proof {
                    let c = choose|c: int| 0 <= c < self.events@.len() && self.events@[c].id == id;
                    assert(c == i as int) by {
                        if c > i {
                            assert(self.events@[i as int].id < self.events@[c].id);
                        }
                    }
                }
                return Some(&self.events[i]);
            }
            i = i + 1;
        }
        None
    }

    /// Every event, in id order.
    pub fn list_all(&self) -> (r: Vec<&AuditEvent<X>>)
        requires
            self.wf(),
        ensures
            ordered(self.log()),
            r@.len() == self.log().len(),
            forall|i: int| 0 <= i < r@.len() ==> *r@[i] == self.log()[i],
    {
        let mut out: Vec<&AuditEvent<X>> = Vec::new();
        let mut i: usize = 0;
        while i < self.events.len()
            invariant
                i <= self.events@.len(),
                out@.len() == i,
                forall|k: int| 0 <= k < i ==> *out@[k] == self.events@[k],
            decreases self.events.len() - i,
        {
            out.push(&self.events[i]);
            i = i + 1;
        }
        out
    }

    /// The events the filter `f` selects for `value`, in id order.
    pub fn list_where(&self, f: AuditFilter, value: &str) -> (r: Vec<&AuditEvent<X>>)
        ensures
            r@.len() == events_where(self.log(), |e: AuditEvent<X>| selected(f, value@, e)).len(),
            forall|i: int|
                0 <= i < r@.len() ==> *r@[i] == events_where(self.log(), |e: AuditEvent<X>| selected(f, value@, e))[i],
    {
        let ghost p = |e: AuditEvent<X>| selected(f, value@, e);
        let ghost s = self.events@;
        let mut out: Vec<&AuditEvent<X>> = Vec::new();
        let mut i: usize = 0;
        while i < self.events.len()
            invariant
                s == self.events@,
                p == (|e: AuditEvent<X>| selected(f, value@, e)),
                i <= s.len(),
                out@.len() == events_where(s.take(i as int), p).len(),
                forall|k: int| 0 <= k < out@.len() ==> *out@[k] == events_where(s.take(i as int), p)[k],
            decreases self.events.len() - i,
        {
            proof {
                assert(s.take(i + 1).drop_last() =~= s.take(i as int));
                assert(s.take(i + 1).last() == s[i as int]);
            }
            if is_selected(&f, value, &self.events[i]) {
                out.push(&self.events[i]);
            }
            i = i + 1;
        }
        assert(s.take(s.len() as int) =~= s);
        out
    }

    /// The events of one agent.
    pub fn list_by_agent(&self, agent_id: &str) -> (r: Vec<&AuditEvent<X>>)
        ensures
            r@.len() == events_where(self.log(), |e: AuditEvent<X>| selected(AuditFilter::Agent, agent_id@, e)).len(),
            forall|i: int|
                0 <= i < r@.len() ==> *r@[i] == events_where(
                    self.log(),
                    |e: AuditEvent<X>| selected(AuditFilter::Agent, agent_id@, e),
                )[i],
    {
        self.list_where(AuditFilter::Agent, agent_id)
    }

    /// The events of one mission.
    pub fn list_by_mission(&self, mission_id: &str) -> (r: Vec<&AuditEvent<X>>)
        ensures
            r@.len() == events_where(self.log(), |e: AuditEvent<X>| selected(AuditFilter::Mission, mission_id@, e)).len(),
            forall|i: int|
                0 <= i < r@.len() ==> *r@[i] == events_where(
                    self.log(),
                    |e: AuditEvent<X>| selected(AuditFilter::Mission, mission_id@, e),
                )[i],
    {
        self.list_where(AuditFilter::Mission, mission_id)
    }

    /// The events of one task.
    pub fn list_by_task(&self, task_id: &str) -> (r: Vec<&AuditEvent<X>>)
        ensures
            r@.len() == events_where(self.log(), |e: AuditEvent<X>| selected(AuditFilter::Task, task_id@, e)).len(),
            forall|i: int|
                0 <= i < r@.len() ==> *r@[i] == events_where(
                    self.log(),
                    |e: AuditEvent<X>| selected(AuditFilter::Task, task_id@, e),
                )[i],
    {
        self.list_where(AuditFilter::Task, task_id)
    }

    /// The events of one type.
    pub fn list_by_event_type(&self, event_type: &str) -> (r: Vec<&AuditEvent<X>>)
        ensures
            r@.len() == events_where(self.log(), |e: AuditEvent<X>| selected(AuditFilter::EventType, event_type@, e)).len(),
            forall|i: int|
                0 <= i < r@.len() ==> *r@[i] == events_where(
                    self.log(),
                    |e: AuditEvent<X>| selected(AuditFilter::EventType, event_type@, e),
                )[i],
    {
        self.list_where(AuditFilter::EventType, event_type)
    }

    /// How many events are recorded.
    pub fn count(&self) -> (n: usize)
        ensures
            n == self.log().len(),
    {
        self.events.len()
    }
}

} // verus!
