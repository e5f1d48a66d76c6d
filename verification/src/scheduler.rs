//! Agent schedules: adding and removing them, listing them, finding those
//! that are due, and remembering when each last ran.
//!
//! Agents are known by the 128-bit value of their UUIDs; times are seconds
//! since the Unix epoch.

use vstd::prelude::*;
use vstd::arithmetic::power::pow;
use crate::cron::{cron_error_text, cron_spec, CronExpression};
use crate::schedule::{is_schedule_due, Schedule};
use crate::text::{append_chars, append_str, nat_decimal, string_from_chars};

verus! {

/// Why a scheduling operation failed.
#[derive(Debug, Clone, PartialEq, Eq)]
pub enum SchedulerError {
    InvalidCron(String),
    AgentNotFound(String),
    ScheduleNotFound { agent_id: String, schedule_id: String },
    InvalidTimezone(String),
    Other(String),
}

pub open spec fn scheduler_error_text(e: SchedulerError) -> Seq<char> {
    match e {
        SchedulerError::InvalidCron(m) => "invalid cron expression: "@ + m@,
        SchedulerError::AgentNotFound(a) => "agent not found: "@ + a@,
        SchedulerError::ScheduleNotFound { agent_id, schedule_id } => "schedule not found for agent "@
            + agent_id@ + ": "@ + schedule_id@,
        SchedulerError::InvalidTimezone(m) => "timezone parsing failed: "@ + m@,
        SchedulerError::Other(m) => m@,
    }
}

impl SchedulerError {
    /// The error's text.
    pub fn message(&self) -> (s: String)
        ensures
            s@ == scheduler_error_text(*self),
    {
        let mut v: Vec<char> = Vec::new();
        match self {
            SchedulerError::InvalidCron(m) => {
                append_str(&mut v, "invalid cron expression: ");
                append_str(&mut v, m.as_str());
            },
            SchedulerError::AgentNotFound(a) => {
                append_str(&mut v, "agent not found: ");
                append_str(&mut v, a.as_str());
            },
            SchedulerError::ScheduleNotFound { agent_id, schedule_id } => {
                append_str(&mut v, "schedule not found for agent ");
                append_str(&mut v, agent_id.as_str());
                append_str(&mut v, ": ");
                append_str(&mut v, schedule_id.as_str());
            },
            SchedulerError::InvalidTimezone(m) => {
                append_str(&mut v, "timezone parsing failed: ");
                append_str(&mut v, m.as_str());
            },
            SchedulerError::Other(m) => {
                append_str(&mut v, m.as_str());
            },
        }
        assert(v@ =~= scheduler_error_text(*self));
        string_from_chars(&v)
    }
}

/// Whether chrono-tz knows a time zone name.
pub uninterp spec fn known_zone(name: Seq<char>) -> bool;

/// Calls chrono-tz's `str::parse::<Tz>` (a lookup in the crate's fixed zone
/// table); whether it succeeds is named `known_zone`.
#[verifier::external_body]
fn zone_exists(name: &str) -> (b: bool)
    ensures
        b == known_zone(name@),
{
    name.parse::<chrono_tz::Tz>().is_ok()
}

/// The lower-case hex digit of `d` (below 16).
pub open spec fn hex_digit(d: int) -> char {
    if d < 10 {
        (('0' as int) + d) as char
    } else {
        (('a' as int) + d - 10) as char
    }
}

/// The `k`-th hex digit of `id`, from the most significant (`k` in 0..32).
pub open spec fn nibble(id: u128, k: int) -> int {
    (id as int / pow(16, (31 - k) as nat)) % 16
}

/// The canonical text of a UUID: its 32 lower-case hex digits, most
/// significant first, in groups of 8-4-4-4-12 joined by `-`.
pub open spec fn uuid_text(id: u128) -> Seq<char> {
    Seq::new(
        36,
        |i: int|
            if i == 8 || i == 13 || i == 18 || i == 23 {
                '-'
            } else {
                hex_digit(nibble(id, i - (if i < 8 { 0int } else if i < 13 { 1int } else if i < 18 { 2int } else if i < 23 { 3int } else { 4int })))
            },
    )
}

/// Calls uuid's `Uuid::from_u128(..).to_string()` (the hyphenated,
/// lower-case form); claimed: the text is `uuid_text`.
#[verifier::external_body]
pub(crate) fn format_uuid(id: u128) -> (s: String)
    ensures
        s@ == uuid_text(id),
{
    uuid::Uuid::from_u128(id).to_string()
}

/// A schedule that is due, and whose agent it is.
#[derive(Debug, Clone)]
pub struct DueSchedule {
    pub agent_id: u128,
    pub schedule: Schedule,
}

/// Checks a schedule: its cron expression must parse and its time zone be known.
pub fn validate_schedule(schedule: &Schedule) -> (r: Result<(), SchedulerError>)
    ensures
        r is Ok <==> (cron_spec(schedule.cron@) is Ok && known_zone(schedule.timezone@)),
        cron_spec(schedule.cron@) matches Err(e) ==> (r matches Err(SchedulerError::InvalidCron(m))
            && m@ == cron_error_text(e)),
        cron_spec(schedule.cron@) is Ok && !known_zone(schedule.timezone@) ==> (r matches Err(
            SchedulerError::InvalidTimezone(m),
        ) && m@ == "failed to parse timezone"@),
{
    match CronExpression::parse(schedule.cron.as_str()) {
        Err(e) => {
            return Err(SchedulerError::InvalidCron(e.message()));
        },
        Ok(_) => {},
    }
    if !zone_exists(schedule.timezone.as_str()) {
        return Err(SchedulerError::InvalidTimezone(String::from_str("failed to parse timezone")));
    }
    Ok(())
}

fn copy_schedule(s: &Schedule) -> (r: Schedule)
    ensures
        r.cron@ == s.cron@,
        r.timezone@ == s.timezone@,
{
    Schedule { cron: s.cron.clone(), timezone: s.timezone.clone() }
}

/// The schedules of every agent, and the last run of each schedule.
pub struct ScheduleService {
    entries: Vec<(u128, Vec<Schedule>)>,
    last_runs: Vec<(u128, usize, i64)>,
}

pub open spec fn schedule_view(s: Schedule) -> (Seq<char>, Seq<char>) {
    (s.cron@, s.timezone@)
}

pub open spec fn schedules_view(v: Seq<Schedule>) -> Seq<(Seq<char>, Seq<char>)> {
    v.map_values(|s: Schedule| schedule_view(s))
}

impl ScheduleService {
    /// Agents in increasing order, each listed once with at least one schedule.
    pub closed spec fn wf(&self) -> bool {
        &&& forall|i: int, j: int|
            0 <= i < j < self.entries@.len() ==> (#[trigger] self.entries@[i]).0 < (#[trigger] self.entries@[j]).0
        &&& forall|i: int| 0 <= i < self.entries@.len() ==> (#[trigger] self.entries@[i]).1@.len() > 0
        &&& forall|i: int, j: int|
            0 <= i < j < self.last_runs@.len() ==> !((#[trigger] self.last_runs@[i]).0 == (#[trigger] self.last_runs@[j]).0
                && self.last_runs@[i].1 == self.last_runs@[j].1)
    }

    /// The agents that have schedules, in increasing order.
    pub closed spec fn agents(&self) -> Seq<u128> {
        self.entries@.map_values(|e: (u128, Vec<Schedule>)| e.0)
    }

    /// An agent's schedules, in the order they were added.
    pub closed spec fn schedules_of(&self, agent: u128) -> Seq<(Seq<char>, Seq<char>)> {
        if exists|i: int| 0 <= i < self.entries@.len() && self.entries@[i].0 == agent {
            let i = choose|i: int| 0 <= i < self.entries@.len() && self.entries@[i].0 == agent;
            schedules_view(self.entries@[i].1@)
        } else {
            Seq::empty()
        }
    }

    /// When a schedule last ran, if recorded.
    pub closed spec fn last_run_of(&self, agent: u128, index: usize) -> Option<i64> {
        if exists|i: int| 0 <= i < self.last_runs@.len() && self.last_runs@[i].0 == agent && self.last_runs@[i].1 == index {
            let i = choose|i: int|
                0 <= i < self.last_runs@.len() && self.last_runs@[i].0 == agent && self.last_runs@[i].1 == index;
            Some(self.last_runs@[i].2)
        } else {
            None
        }
    }

    pub fn new() -> (s: ScheduleService)
        ensures
            s.wf(),
            forall|a: u128| s.schedules_of(a).len() == 0,
            forall|a: u128, i: usize| s.last_run_of(a, i) is None,
    {
        ScheduleService { entries: Vec::new(), last_runs: Vec::new() }
    }

    fn position(&self, agent: u128) -> (r: Result<usize, usize>)
        requires
            self.wf(),
        ensures
            match r {
                Ok(i) => i < self.entries@.len() && self.entries@[i as int].0 == agent,
                Err(i) => i <= self.entries@.len() && (forall|j: int| 0 <= j < i ==> (#[trigger] self.entries@[j]).0 < agent)
                    && (forall|j: int| i <= j < self.entries@.len() ==> (#[trigger] self.entries@[j]).0 > agent),
            },
    {
        let mut i: usize = 0;
        while i < self.entries.len()
            invariant
                self.wf(),
                i <= self.entries@.len(),
                forall|j: int| 0 <= j < i ==> (#[trigger] self.entries@[j]).0 < agent,
            decreases self.entries.len() - i,
        {
            if self.entries[i].0 == agent {
                return Ok(i);
            }
            if self.entries[i].0 > agent {
                return Err(i);
            }
            i = i + 1;
        }
        Err(i)
    }

    proof fn lemma_schedules_at(&self, i: int)
        requires
            self.wf(),
            0 <= i < self.entries@.len(),
        ensures
            self.schedules_of(self.entries@[i].0) == schedules_view(self.entries@[i].1@),
    {
        let a = self.entries@[i].0;
        let k = choose|k: int| 0 <= k < self.entries@.len() && self.entries@[k].0 == a;
        if k != i {
            if k < i {
                assert(self.entries@[k].0 < self.entries@[i].0);
            } else {
                assert(self.entries@[i].0 < self.entries@[k].0);
            }
        }
    }

    /// An agent's schedules, in the order they were added.
    pub fn list_schedules(&self, agent_id: u128) -> (r: Vec<Schedule>)
        requires
            self.wf(),
        ensures
            schedules_view(r@) == self.schedules_of(agent_id),
    {
        match self.position(agent_id) {
            Ok(i) => {
                proof {
                    self.lemma_schedules_at(i as int);
                }
                let src = &self.entries[i].1;
                let mut out: Vec<Schedule> = Vec::new();
                let mut k: usize = 0;
                while k < src.len()
                    invariant
                        k <= src@.len(),
                        schedules_view(out@) == schedules_view(src@.take(k as int)),
                    decreases src.len() - k,
                {
                    let c = copy_schedule(&src[k]);
                    let ghost before = out@;
                    out.push(c);
                    proof {
                        assert(schedule_view(c) == schedule_view(src@[k as int]));
                        assert(src@.take(k + 1) =~= src@.take(k as int).push(src@[k as int]));
                        assert(schedules_view(out@) =~= schedules_view(before).push(schedule_view(c)));
                        assert(schedules_view(src@.take(k + 1)) =~= schedules_view(src@.take(k as int)).push(schedule_view(src@[k as int])));
                    }
                    k = k + 1;
                }
                assert(src@.take(src@.len() as int) =~= src@);
                out
            },
            Err(_) => {
                let out: Vec<Schedule> = Vec::new();
                assert(schedules_view(out@) =~= Seq::<(Seq<char>, Seq<char>)>::empty());
                out
            },
        }
    }
}

pub open spec fn lists_agree(a: Seq<(u128, Vec<Schedule>)>, b: Seq<(u128, Vec<Schedule>)>, x: u128) -> bool {
    &&& forall|j: int|
        0 <= j < a.len() && (#[trigger] a[j]).0 == x ==> exists|k: int|
            0 <= k < b.len() && (#[trigger] b[k]).0 == x && schedules_view(b[k].1@) == schedules_view(a[j].1@)
    &&& forall|k: int|
        0 <= k < b.len() && (#[trigger] b[k]).0 == x ==> exists|j: int|
            0 <= j < a.len() && (#[trigger] a[j]).0 == x && schedules_view(b[k].1@) == schedules_view(a[j].1@)
}

impl ScheduleService {
    proof fn lemma_agree(a: &ScheduleService, b: &ScheduleService, x: u128)
        requires
            a.wf(),
            b.wf(),
            lists_agree(a.entries@, b.entries@, x),
        ensures
            a.schedules_of(x) == b.schedules_of(x),
    {
        if exists|j: int| 0 <= j < a.entries@.len() && a.entries@[j].0 == x {
            let j = choose|j: int| 0 <= j < a.entries@.len() && a.entries@[j].0 == x;
            a.lemma_schedules_at(j);
            let k = choose|k: int|
                0 <= k < b.entries@.len() && (#[trigger] b.entries@[k]).0 == x && schedules_view(b.entries@[k].1@)
                    == schedules_view(a.entries@[j].1@);
            b.lemma_schedules_at(k);
        } else if exists|k: int| 0 <= k < b.entries@.len() && b.entries@[k].0 == x {
            let k = choose|k: int| 0 <= k < b.entries@.len() && b.entries@[k].0 == x;
            assert(b.entries@[k].0 == x);
        }
    }

    /// Adds a schedule for an agent, after the ones it has. A schedule whose
    /// cron expression does not parse, or whose time zone is unknown, is
    /// refused and nothing changes.
    #[verifier::spinoff_prover]
    pub fn add_schedule(&mut self, agent_id: u128, schedule: Schedule) -> (r: Result<(), SchedulerError>)
        requires
            old(self).wf(),
        ensures
            final(self).wf(),
            r is Ok <==> (cron_spec(schedule.cron@) is Ok && known_zone(schedule.timezone@)),
            cron_spec(schedule.cron@) matches Err(e) ==> (r matches Err(SchedulerError::InvalidCron(m))
                && m@ == cron_error_text(e)),
            cron_spec(schedule.cron@) is Ok && !known_zone(schedule.timezone@) ==> (r matches Err(
                SchedulerError::InvalidTimezone(m),
            ) && m@ == "failed to parse timezone"@),
            r is Ok ==> final(self).schedules_of(agent_id) == old(self).schedules_of(agent_id).push(
                schedule_view(schedule),
            ),
            r is Err ==> final(self).schedules_of(agent_id) == old(self).schedules_of(agent_id),
            forall|a: u128| a != agent_id ==> final(self).schedules_of(a) == old(self).schedules_of(a),
            forall|a: u128, i: usize| final(self).last_run_of(a, i) == old(self).last_run_of(a, i),
    {
        match validate_schedule(&schedule) {
            Err(e) => {
                return Err(e);
            },
            Ok(()) => {},
        }
        let ghost sv = schedule_view(schedule);
        let ghost before = *self;
        match self.position(agent_id) {
            Ok(i) => {
                proof {
                    self.lemma_schedules_at(i as int);
                }
                let (a, mut list) = self.entries.remove(i);
                let ghost old_list = list@;
                list.push(schedule);
                assert(schedules_view(list@) =~= schedules_view(old_list).push(sv));
                self.entries.insert(i, (a, list));
                proof {
                    assert(self.entries@ =~= before.entries@.update(i as int, (a, list)));
                    self.lemma_schedules_at(i as int);
                    assert forall|x: u128| x != agent_id implies self.schedules_of(x) == before.schedules_of(x) by {
                        assert forall|j: int| 0 <= j < before.entries@.len() && (#[trigger] before.entries@[j]).0 == x implies exists|k: int|
                            0 <= k < self.entries@.len() && (#[trigger] self.entries@[k]).0 == x && schedules_view(self.entries@[k].1@)
                                == schedules_view(before.entries@[j].1@) by {
                            assert(self.entries@[j] == before.entries@[j]);
                        }
                        assert forall|k: int| 0 <= k < self.entries@.len() && (#[trigger] self.entries@[k]).0 == x implies exists|j: int|
                            0 <= j < before.entries@.len() && (#[trigger] before.entries@[j]).0 == x && schedules_view(self.entries@[k].1@)
                                == schedules_view(before.entries@[j].1@) by {
                            assert(self.entries@[k] == before.entries@[k]);
                        }
                        Self::lemma_agree(&before, self, x);
                    }
                }
            },
            Err(i) => {
                let mut list: Vec<Schedule> = Vec::new();
                list.push(schedule);
                assert(schedules_view(list@) =~= seq![sv]);
                self.entries.insert(i, (agent_id, list));
                proof {
                    assert(self.entries@ =~= before.entries@.insert(i as int, (agent_id, list)));
                    assert(!(exists|j: int| 0 <= j < before.entries@.len() && before.entries@[j].0 == agent_id));
                    assert(before.schedules_of(agent_id) =~= Seq::<(Seq<char>, Seq<char>)>::empty());
                    self.lemma_schedules_at(i as int);
                    assert forall|x: u128| x != agent_id implies self.schedules_of(x) == before.schedules_of(x) by {
                        assert forall|j: int| 0 <= j < before.entries@.len() && (#[trigger] before.entries@[j]).0 == x implies exists|k: int|
                            0 <= k < self.entries@.len() && (#[trigger] self.entries@[k]).0 == x && schedules_view(self.entries@[k].1@)
                                == schedules_view(before.entries@[j].1@) by {
                            if j < i {
                                assert(self.entries@[j] == before.entries@[j]);
                            } else {
                                assert(self.entries@[j + 1] == before.entries@[j]);
                            }
                        }
                        assert forall|k: int| 0 <= k < self.entries@.len() && (#[trigger] self.entries@[k]).0 == x implies exists|j: int|
                            0 <= j < before.entries@.len() && (#[trigger] before.entries@[j]).0 == x && schedules_view(self.entries@[k].1@)
                                == schedules_view(before.entries@[j].1@) by {
                            if k < i {
                                assert(self.entries@[k] == before.entries@[k]);
                            } else if k > i {
                                assert(self.entries@[k] == before.entries@[k - 1]);
                            }
                        }
                        Self::lemma_agree(&before, self, x);
                    }
                }
            },
        }
        proof {
            assert(self.last_runs@ == before.last_runs@);
            assert forall|a: u128, i: usize| self.last_run_of(a, i) == before.last_run_of(a, i) by {}
        }
        Ok(())
    }
}

impl ScheduleService {
    /// Removes an agent's schedule at `schedule_index`; an agent left with no
    /// schedules is forgotten.
    pub fn remove_schedule(&mut self, agent_id: u128, schedule_index: usize) -> (r: Result<(), SchedulerError>)
        requires
            old(self).wf(),
        ensures
            final(self).wf(),
            r is Ok <==> schedule_index < old(self).schedules_of(agent_id).len(),
            old(self).schedules_of(agent_id).len() == 0 ==> (r matches Err(SchedulerError::AgentNotFound(a))
                && a@ == uuid_text(agent_id)),
            (old(self).schedules_of(agent_id).len() > 0 && schedule_index >= old(self).schedules_of(agent_id).len())
                ==> (r matches Err(SchedulerError::ScheduleNotFound { agent_id: a, schedule_id: i }) && a@
                == uuid_text(agent_id) && i@ == nat_decimal(schedule_index as nat)),
            r is Ok ==> final(self).schedules_of(agent_id) == old(self).schedules_of(agent_id).remove(
                schedule_index as int,
            ),
            r is Err ==> final(self).schedules_of(agent_id) == old(self).schedules_of(agent_id),
            forall|a: u128| a != agent_id ==> final(self).schedules_of(a) == old(self).schedules_of(a),
            forall|a: u128, i: usize| final(self).last_run_of(a, i) == old(self).last_run_of(a, i),
    {
        let ghost before = *self;
        let i = match self.position(agent_id) {
            Ok(i) => i,
            Err(_) => {
                assert(before.schedules_of(agent_id) =~= Seq::<(Seq<char>, Seq<char>)>::empty());
                return Err(SchedulerError::AgentNotFound(format_uuid(agent_id)));
            },
        };
        proof {
            self.lemma_schedules_at(i as int);
        }
        if schedule_index >= self.entries[i].1.len() {
            let mut d: Vec<char> = Vec::new();
            append_chars(&mut d, &crate::text::fmt_u64(schedule_index as u64));
            return Err(
                SchedulerError::ScheduleNotFound {
                    agent_id: format_uuid(agent_id),
                    schedule_id: string_from_chars(&d),
                },
            );
        }
        let (a, mut list) = self.entries.remove(i);
        let ghost old_list = list@;
        let _gone = list.remove(schedule_index);
        assert(schedules_view(list@) =~= schedules_view(old_list).remove(schedule_index as int));
        if list.len() > 0 {
            self.entries.insert(i, (a, list));
            proof {
                assert(self.entries@ =~= before.entries@.update(i as int, (a, list)));
                self.lemma_schedules_at(i as int);
                assert forall|x: u128| x != agent_id implies self.schedules_of(x) == before.schedules_of(x) by {
                    assert forall|j: int| 0 <= j < before.entries@.len() && (#[trigger] before.entries@[j]).0 == x implies exists|k: int|
                        0 <= k < self.entries@.len() && (#[trigger] self.entries@[k]).0 == x && schedules_view(self.entries@[k].1@)
                            == schedules_view(before.entries@[j].1@) by {
                        assert(self.entries@[j] == before.entries@[j]);
                    }
                    assert forall|k: int| 0 <= k < self.entries@.len() && (#[trigger] self.entries@[k]).0 == x implies exists|j: int|
                        0 <= j < before.entries@.len() && (#[trigger] before.entries@[j]).0 == x && schedules_view(self.entries@[k].1@)
                            == schedules_view(before.entries@[j].1@) by {
                        assert(self.entries@[k] == before.entries@[k]);
                    }
                    Self::lemma_agree(&before, self, x);
                }
            }
        } else {
            proof {
                assert(self.entries@ =~= before.entries@.remove(i as int));
                assert(!(exists|j: int| 0 <= j < self.entries@.len() && self.entries@[j].0 == agent_id)) by {
                    if exists|j: int| 0 <= j < self.entries@.len() && self.entries@[j].0 == agent_id {
                        let j = choose|j: int| 0 <= j < self.entries@.len() && self.entries@[j].0 == agent_id;
                        if j < i {
                            assert(before.entries@[j].0 < before.entries@[i as int].0);
                        } else {
                            assert(before.entries@[i as int].0 < before.entries@[j + 1].0);
                        }
                    }
                }
                assert(self.schedules_of(agent_id) =~= schedules_view(list@));
                assert forall|x: u128| x != agent_id implies self.schedules_of(x) == before.schedules_of(x) by {
                    assert forall|j: int| 0 <= j < before.entries@.len() && (#[trigger] before.entries@[j]).0 == x implies exists|k: int|
                        0 <= k < self.entries@.len() && (#[trigger] self.entries@[k]).0 == x && schedules_view(self.entries@[k].1@)
                            == schedules_view(before.entries@[j].1@) by {
                        if j < i {
                            assert(self.entries@[j] == before.entries@[j]);
                        } else {
                            assert(j != i);
                            assert(self.entries@[j - 1] == before.entries@[j]);
                        }
                    }
                    assert forall|k: int| 0 <= k < self.entries@.len() && (#[trigger] self.entries@[k]).0 == x implies exists|j: int|
                        0 <= j < before.entries@.len() && (#[trigger] before.entries@[j]).0 == x && schedules_view(self.entries@[k].1@)
                            == schedules_view(before.entries@[j].1@) by {
                        if k < i {
                            assert(self.entries@[k] == before.entries@[k]);
                        } else {
                            assert(self.entries@[k] == before.entries@[k + 1]);
                        }
                    }
                    Self::lemma_agree(&before, self, x);
                }
            }
        }
        assert(self.last_runs == before.last_runs);
        assert forall|a: u128, i: usize| self.last_run_of(a, i) == before.last_run_of(a, i) by {}
        Ok(())
    }

    /// Records when an agent's schedule last ran.
    #[verifier::spinoff_prover]
    #[verifier::rlimit(30)]
    pub fn record_last_run(&mut self, agent_id: u128, schedule_index: usize, ran_at: i64)
        requires
            old(self).wf(),
        ensures
            final(self).wf(),
            final(self).last_run_of(agent_id, schedule_index) == Some(ran_at),
            forall|a: u128, i: usize|
                !(a == agent_id && i == schedule_index) ==> final(self).last_run_of(a, i) == old(self).last_run_of(a, i),
            forall|a: u128| final(self).schedules_of(a) == old(self).schedules_of(a),
    {
        let ghost before = *self;
        let mut k: usize = 0;
        while k < self.last_runs.len()
            invariant
                self.entries == before.entries,
                self.last_runs == before.last_runs,
                k <= self.last_runs@.len(),
                forall|j: int| 0 <= j < k ==> !((#[trigger] self.last_runs@[j]).0 == agent_id && self.last_runs@[j].1 == schedule_index),
            ensures
                self.entries == before.entries,
                self.last_runs == before.last_runs,
                k <= self.last_runs@.len(),
                forall|j: int| 0 <= j < k ==> !((#[trigger] self.last_runs@[j]).0 == agent_id && self.last_runs@[j].1 == schedule_index),
                k < self.last_runs@.len() ==> (self.last_runs@[k as int].0 == agent_id && self.last_runs@[k as int].1 == schedule_index),
            decreases self.last_runs.len() - k,
        {
            if self.last_runs[k].0 == agent_id && self.last_runs[k].1 == schedule_index {
                break;
            }
            k = k + 1;
        }
        if k < self.last_runs.len() {
            self.last_runs.remove(k);
        }
        let ghost mid = self.last_runs@;
        proof {
            assert forall|j: int| 0 <= j < mid.len() implies !((#[trigger] mid[j]).0 == agent_id && mid[j].1 == schedule_index) by {
                if k < before.last_runs@.len() {
                    if j < k {
                        assert(mid[j] == before.last_runs@[j]);
                    } else {
                        assert(mid[j] == before.last_runs@[j + 1]);
                        assert(!((before.last_runs@[k as int]).0 == (before.last_runs@[j + 1]).0
                            && before.last_runs@[k as int].1 == before.last_runs@[j + 1].1));
                    }
                }
            }
            assert forall|i: int, j: int| 0 <= i < j < mid.len() implies !((#[trigger] mid[i]).0 == (#[trigger] mid[j]).0 && mid[i].1 == mid[j].1) by {
                if k < before.last_runs@.len() {
                    let bi = if i < k { i } else { i + 1 };
                    let bj = if j < k { j } else { j + 1 };
                    assert(mid[i] == before.last_runs@[bi] && mid[j] == before.last_runs@[bj]);
                } else {
                    assert(mid[i] == before.last_runs@[i] && mid[j] == before.last_runs@[j]);
                }
            }
        }
        self.last_runs.push((agent_id, schedule_index, ran_at));
        proof {
            let n = mid.len() as int;
            assert(self.last_runs@[n] == (agent_id, schedule_index, ran_at));
            assert forall|i: int, j: int| 0 <= i < j < self.last_runs@.len() implies !((#[trigger] self.last_runs@[i]).0
                == (#[trigger] self.last_runs@[j]).0 && self.last_runs@[i].1 == self.last_runs@[j].1) by {
                if j == n {
                    assert(self.last_runs@[i] == mid[i]);
                } else {
                    assert(self.last_runs@[i] == mid[i] && self.last_runs@[j] == mid[j]);
                }
            }
            let w = choose|w: int| 0 <= w < self.last_runs@.len() && self.last_runs@[w].0 == agent_id && self.last_runs@[w].1 == schedule_index;
            if w != n {
                assert(self.last_runs@[w] == mid[w]);
            }
            assert forall|a: u128, i: usize| !(a == agent_id && i == schedule_index) implies self.last_run_of(a, i) == before.last_run_of(a, i) by {
                if exists|x: int| 0 <= x < before.last_runs@.len() && before.last_runs@[x].0 == a && before.last_runs@[x].1 == i {
                    let x = choose|x: int| 0 <= x < before.last_runs@.len() && before.last_runs@[x].0 == a && before.last_runs@[x].1 == i;
                    let mx = if k < before.last_runs@.len() && x > k { x - 1 } else { x };
                    if k < before.last_runs@.len() {
                        assert(x != k);
                    }
                    assert(self.last_runs@[mx] == before.last_runs@[x]);
                    let y = choose|y: int| 0 <= y < self.last_runs@.len() && self.last_runs@[y].0 == a && self.last_runs@[y].1 == i;
                    if y != mx {
                        if y < mx {
                            assert(!((self.last_runs@[y]).0 == (self.last_runs@[mx]).0 && self.last_runs@[y].1 == self.last_runs@[mx].1));
                        } else {
                            assert(!((self.last_runs@[mx]).0 == (self.last_runs@[y]).0 && self.last_runs@[mx].1 == self.last_runs@[y].1));
                        }
                    }
                } else {
                    if exists|y: int| 0 <= y < self.last_runs@.len() && self.last_runs@[y].0 == a && self.last_runs@[y].1 == i {
                        let y = choose|y: int| 0 <= y < self.last_runs@.len() && self.last_runs@[y].0 == a && self.last_runs@[y].1 == i;
                        assert(y != n);
                        let by = if k < before.last_runs@.len() && y >= k { y + 1 } else { y };
                        assert(mid[y] == before.last_runs@[by]);
                    }
                }
            }
            assert(self.entries == before.entries);
            assert forall|a: u128| self.schedules_of(a) == before.schedules_of(a) by {}
        }
    }

    /// When an agent's schedule last ran, if recorded.
    pub fn get_last_run(&self, agent_id: u128, schedule_index: usize) -> (r: Option<i64>)
        requires
            self.wf(),
        ensures
            r == self.last_run_of(agent_id, schedule_index),
    {
        let mut k: usize = 0;
        while k < self.last_runs.len()
            invariant
                self.wf(),
                k <= self.last_runs@.len(),
                forall|j: int| 0 <= j < k ==> !((#[trigger] self.last_runs@[j]).0 == agent_id && self.last_runs@[j].1 == schedule_index),
            decreases self.last_runs.len() - k,
        {
            if self.last_runs[k].0 == agent_id && self.last_runs[k].1 == schedule_index {
                proof {
                    let w = choose|w: int| 0 <= w < self.last_runs@.len() && self.last_runs@[w].0 == agent_id && self.last_runs@[w].1 == schedule_index;
                    if w != k {
                        assert(w > k);
                        assert(!((self.last_runs@[k as int]).0 == (self.last_runs@[w]).0 && self.last_runs@[k as int].1 == self.last_runs@[w].1));
                    }
                }
                return Some(self.last_runs[k].2);
            }
            k = k + 1;
        }
        None
    }
}

pub open spec fn tagged(agent: u128, v: Seq<Schedule>) -> Seq<(u128, (Seq<char>, Seq<char>))> {
    v.map_values(|x: Schedule| (agent, schedule_view(x)))
}

/// Every (agent, schedule) pair, agents in increasing order, each agent's
/// schedules in the order they were added.
pub open spec fn flat_pairs(entries: Seq<(u128, Vec<Schedule>)>) -> Seq<(u128, (Seq<char>, Seq<char>))>
    decreases entries.len(),
{
    if entries.len() == 0 {
        Seq::empty()
    } else {
        flat_pairs(entries.drop_last()) + tagged(entries.last().0, entries.last().1@)
    }
}

/// The items of `s` whose flag in `keep` is set, in order.
pub open spec fn select<A>(s: Seq<A>, keep: Seq<bool>) -> Seq<A>
    decreases s.len(),
{
    if s.len() == 0 || keep.len() == 0 {
        Seq::empty()
    } else {
        select(s.drop_last(), keep.drop_last()) + if keep.last() {
            seq![s.last()]
        } else {
            Seq::empty()
        }
    }
}

/// What is known of a schedule found due at `now`: its cron expression
/// parses, its zone is known, and it fires within a minute of the local time.
pub open spec fn found_due(p: (Seq<char>, Seq<char>), now: i64) -> bool {
    cron_spec(p.0) matches Ok(s) && crate::datetime::zone_local_time(p.1, now as int) matches Some(local) && exists|dt: crate::datetime::CivilDateTime|
        crate::datetime::valid_civil(dt) && crate::schedule::spec_matches(s, dt) && crate::schedule::within_a_minute(dt, local)
}

/// A schedule that cannot be due: its cron expression does not parse or its
/// zone is unknown.
pub open spec fn never_due(p: (Seq<char>, Seq<char>), now: i64) -> bool {
    cron_spec(p.0) is Err || crate::datetime::zone_local_time(p.1, now as int) is None
}

/// Whether the schedule `p` (cron text, zone name) is due at `now`, as
/// [`is_schedule_due`] decides it.
pub open spec fn due_now(p: (Seq<char>, Seq<char>), now: i64) -> bool {
    crate::schedule::schedule_due_spec(p.0, p.1, now as int)
}

pub open spec fn due_view(d: DueSchedule) -> (u128, (Seq<char>, Seq<char>)) {
    (d.agent_id, schedule_view(d.schedule))
}

impl ScheduleService {
    /// Every (agent, schedule) pair, agents in increasing order.
    pub closed spec fn all_schedules(&self) -> Seq<(u128, (Seq<char>, Seq<char>))> {
        flat_pairs(self.entries@)
    }

    /// The schedules due at `now_utc_seconds`, in the order of
    /// `all_schedules`: each is checked with [`is_schedule_due`].
    pub fn get_due_schedules(&self, now_utc_seconds: i64) -> (r: Vec<DueSchedule>)
        requires
            self.wf(),
        ensures
            exists|keep: Seq<bool>|
                keep.len() == self.all_schedules().len() && r@.map_values(|d: DueSchedule| due_view(d)) == select(
                    self.all_schedules(),
                    keep,
                ) && forall|k: int|
                    0 <= k < keep.len() ==> (#[trigger] keep[k] == due_now(self.all_schedules()[k].1, now_utc_seconds)) && (keep[k] ==> found_due(self.all_schedules()[k].1, now_utc_seconds))
                        && (never_due(self.all_schedules()[k].1, now_utc_seconds) ==> !keep[k]),
    {
        let ghost dv = |d: DueSchedule| due_view(d);
        let ghost mut keep: Seq<bool> = Seq::empty();
        let ghost mut seen: Seq<(u128, (Seq<char>, Seq<char>))> = Seq::empty();
        let mut out: Vec<DueSchedule> = Vec::new();
        let mut i: usize = 0;
        while i < self.entries.len()
            invariant
                self.wf(),
                i <= self.entries@.len(),
                dv == (|d: DueSchedule| due_view(d)),
                seen == flat_pairs(self.entries@.take(i as int)),
                keep.len() == seen.len(),
                out@.map_values(dv) == select(seen, keep),
                forall|k: int|
                    0 <= k < keep.len() ==> (#[trigger] keep[k] == due_now(seen[k].1, now_utc_seconds)) && (keep[k] ==> found_due(seen[k].1, now_utc_seconds)) && (never_due(
                        seen[k].1,
                        now_utc_seconds,
                    ) ==> !keep[k]),
            decreases self.entries.len() - i,
        {
            let agent = self.entries[i].0;
            let list = &self.entries[i].1;
            let ghost base = seen;
            let mut j: usize = 0;
            while j < list.len()
                invariant
                    self.wf(),
                    i < self.entries@.len(),
                    list == &self.entries@[i as int].1,
                    agent == self.entries@[i as int].0,
                    j <= list@.len(),
                    dv == (|d: DueSchedule| due_view(d)),
                    base == flat_pairs(self.entries@.take(i as int)),
                    seen == base + tagged(agent, list@.take(j as int)),
                    keep.len() == seen.len(),
                    out@.map_values(dv) == select(seen, keep),
                    forall|k: int|
                        0 <= k < keep.len() ==> (#[trigger] keep[k] == due_now(seen[k].1, now_utc_seconds)) && (keep[k] ==> found_due(seen[k].1, now_utc_seconds)) && (never_due(
                            seen[k].1,
                            now_utc_seconds,
                        ) ==> !keep[k]),
                decreases list.len() - j,
            {
                let sch = &list[j];
                let due = is_schedule_due(sch, now_utc_seconds);
                let ghost item = (agent, schedule_view(*sch));
                let ghost old_seen = seen;
                let ghost old_keep = keep;
                let ghost old_out = out@.map_values(dv);
                if due {
                    out.push(DueSchedule { agent_id: agent, schedule: copy_schedule(sch) });
                }
                proof {
                    seen = old_seen.push(item);
                    keep = old_keep.push(due);
                    assert(list@.take(j + 1) =~= list@.take(j as int).push(*sch));
                    assert(tagged(agent, list@.take(j + 1)) =~= tagged(agent, list@.take(j as int)).push(item));
                    assert(seen =~= base + tagged(agent, list@.take(j + 1)));
                    assert(seen.drop_last() =~= old_seen);
                    assert(keep.drop_last() =~= old_keep);
                    if due {
                        assert(out@.map_values(dv) =~= old_out.push(item));
                    } else {
                        assert(out@.map_values(dv) =~= old_out);
                    }
                    assert(select(seen, keep) == select(old_seen, old_keep) + if due { seq![item] } else { Seq::empty() });
                    assert(out@.map_values(dv) =~= select(seen, keep));
                    assert forall|k: int| 0 <= k < keep.len() implies (#[trigger] keep[k] == due_now(seen[k].1, now_utc_seconds)) && (keep[k] ==> found_due(seen[k].1, now_utc_seconds)) && (never_due(
                        seen[k].1,
                        now_utc_seconds,
                    ) ==> !keep[k]) by {
                        if k < old_keep.len() {
                            assert(keep[k] == old_keep[k] && seen[k] == old_seen[k]);
                        } else {
                            assert(seen[k] == item);
                        }
                    }
                }
                j = j + 1;
            }
            proof {
                assert(list@.take(list@.len() as int) =~= list@);
                assert(self.entries@.take(i + 1).drop_last() =~= self.entries@.take(i as int));
                assert(self.entries@.take(i + 1).last() == self.entries@[i as int]);
                assert(seen =~= flat_pairs(self.entries@.take(i + 1)));
            }
            i = i + 1;
        }
        assert(self.entries@.take(self.entries@.len() as int) =~= self.entries@);
        proof {
            assert(seen == self.all_schedules());
            assert(out@.map_values(|d: DueSchedule| due_view(d)) == select(self.all_schedules(), keep));
            assert(forall|k: int|
                0 <= k < keep.len() ==> (#[trigger] keep[k] == due_now(self.all_schedules()[k].1, now_utc_seconds)) && (keep[k] ==> found_due(self.all_schedules()[k].1, now_utc_seconds))
                    && (never_due(self.all_schedules()[k].1, now_utc_seconds) ==> !keep[k]));
        }
        out
    }

    /// The schedules to run now: those [`ScheduleService::get_due_schedules`] finds.
    pub fn tick(&self, now_utc_seconds: i64) -> (r: Vec<DueSchedule>)
        requires
            self.wf(),
        ensures
            exists|keep: Seq<bool>|
                keep.len() == self.all_schedules().len() && r@.map_values(|d: DueSchedule| due_view(d)) == select(
                    self.all_schedules(),
                    keep,
                ) && forall|k: int|
                    0 <= k < keep.len() ==> (#[trigger] keep[k] == due_now(self.all_schedules()[k].1, now_utc_seconds)) && (keep[k] ==> found_due(self.all_schedules()[k].1, now_utc_seconds))
                        && (never_due(self.all_schedules()[k].1, now_utc_seconds) ==> !keep[k]),
    {
        self.get_due_schedules(now_utc_seconds)
    }
}

/// The store key of an agent's schedules: `schedule:<agent uuid>`.
pub fn agent_key(agent_id: u128) -> (k: String)
    ensures
        k@ == "schedule:"@ + uuid_text(agent_id),
{
    let mut k = String::from_str("schedule:");
    let id = format_uuid(agent_id);
    k.append(id.as_str());
    k
}

} // verus!
