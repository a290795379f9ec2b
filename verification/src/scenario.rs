//! The journal of a scenario: its life, its events and what it measured.

use crate::double::{Double, DZERO};
use crate::energy::EnergyAccum;
use crate::setpoints::copy_string;
use crate::time::Timestamp;
use std::collections::HashMap;
use vstd::prelude::*;

verus! {

/// How many events, and how many checks, a journal keeps.
pub const JOURNAL_CAPACITY: usize = 1000;

/// A thousand in double precision.
pub const DTHOUSAND: u64 = 0x408f_4000_0000_0000;

#[derive(Debug)]
pub struct ScenarioEvent {
    pub id: u64,
    pub ts: Timestamp,
    pub kind: String,
    pub payload: String,
}

/// A [`ScenarioEvent`] with its texts as sequences.
pub struct ScenarioEventView {
    pub id: u64,
    pub ts: Timestamp,
    pub kind: Seq<char>,
    pub payload: Seq<char>,
}

impl View for ScenarioEvent {
    type V = ScenarioEventView;

    open spec fn view(&self) -> ScenarioEventView {
        ScenarioEventView {
            id: self.id,
            ts: self.ts,
            kind: self.kind@,
            payload: self.payload@,
        }
    }
}

impl ScenarioEvent {
    fn copy(&self) -> (r: ScenarioEvent)
        ensures
            r@ == self@,
    {
        ScenarioEvent {
            id: self.id,
            ts: self.ts,
            kind: copy_string(&self.kind),
            payload: copy_string(&self.payload),
        }
    }
}

/// The result of an expectation.
#[derive(Debug)]
pub struct ScenarioCheck {
    pub text: String,
    pub passed: bool,
}

/// A [`ScenarioCheck`] with its text as a sequence.
pub struct CheckView {
    pub text: Seq<char>,
    pub passed: bool,
}

impl View for ScenarioCheck {
    type V = CheckView;

    open spec fn view(&self) -> CheckView {
        CheckView { text: self.text@, passed: self.passed }
    }
}

impl ScenarioCheck {
    fn copy(&self) -> (r: ScenarioCheck)
        ensures
            r@ == self@,
    {
        ScenarioCheck { text: copy_string(&self.text), passed: self.passed }
    }
}

/// The energy of a battery during a scenario, in Wh.
#[derive(Clone, Copy, Debug)]
pub struct BatteryTotals {
    pub charge_wh: Double,
    pub discharge_wh: Double,
}

/// The grid power in one window of time: the sum of its samples in W, and
/// their number.
#[derive(Clone, Copy, Debug)]
pub struct WindowTotals {
    pub sum_w: Double,
    pub count: u64,
}

#[derive(Debug)]
pub struct ScenarioJournal {
    pub name: Option<String>,
    pub started_at: Option<Timestamp>,
    pub ended_at: Option<Timestamp>,
    /// The latest events, oldest first.
    pub events: Vec<ScenarioEvent>,
    /// One past the highest id that an event was given.
    pub next_event_id: u64,
    /// The energy of the components at the start.
    pub energy_baseline: HashMap<u64, EnergyAccum>,
    pub per_battery: Vec<(u64, BatteryTotals)>,
    /// The energy that solar inverters produced, in Wh.
    pub per_pv: Vec<(u64, Double)>,
    /// The grid power per window, by the window's first second.
    pub window_avgs: Vec<(i64, WindowTotals)>,
    /// The latest checks, oldest first.
    pub checks: Vec<ScenarioCheck>,
    pub checks_passed: u64,
    pub checks_failed: u64,
    pub peak_grid_active_w: Double,
    /// The active and reactive power at the largest reactive one.
    pub peak_grid_pq: Option<(Double, Double)>,
}

/// The events as views.
pub open spec fn journal_views(events: Seq<ScenarioEvent>) -> Seq<ScenarioEventView> {
    events.map_values(|e: ScenarioEvent| e@)
}

/// The checks as views.
pub open spec fn check_views(checks: Seq<ScenarioCheck>) -> Seq<CheckView> {
    checks.map_values(|c: ScenarioCheck| c@)
}

/// The first `n` items.
pub open spec fn first<T>(items: Seq<T>, n: nat) -> Seq<T> {
    if items.len() <= n {
        items
    } else {
        items.take(n as int)
    }
}

/// An event with an id from `since` on.
pub open spec fn from_id(since: u64) -> spec_fn(ScenarioEventView) -> bool {
    |e: ScenarioEventView| e.id >= since
}

impl ScenarioJournal {
    /// The rings hold no more than they may, and the ids of the events are
    /// consecutive up to the next one.
    pub open spec fn wf(self) -> bool {
        &&& self.events@.len() <= JOURNAL_CAPACITY
        &&& self.checks@.len() <= JOURNAL_CAPACITY
        &&& self.events@.len() <= self.next_event_id
        &&& forall|i: int|
            0 <= i < self.events@.len() ==> (#[trigger] self.events@[i]).id == self.next_event_id
                - self.events@.len() + i
        &&& self.started_at matches Some(t) ==> t.wf()
        &&& self.ended_at matches Some(t) ==> t.wf()
    }

    /// Started and not ended.
    pub open spec fn running(self) -> bool {
        self.started_at is Some && self.ended_at is None
    }

    /// Nothing has been measured.
    pub open spec fn is_blank(self) -> bool {
        &&& self.events@.len() == 0
        &&& self.per_battery@.len() == 0
        &&& self.per_pv@.len() == 0
        &&& self.window_avgs@.len() == 0
        &&& self.checks@.len() == 0
        &&& self.checks_passed == 0
        &&& self.checks_failed == 0
        &&& self.peak_grid_active_w == Double::lit(DZERO)
        &&& self.peak_grid_pq is None
    }

    /// A journal of no scenario.
    pub fn new() -> (r: Self)
        ensures
            r.wf(),
            r.is_blank(),
            r.name is None,
            r.started_at is None,
            r.ended_at is None,
            r.next_event_id == 0,
            r.energy_baseline@ == Map::<u64, EnergyAccum>::empty(),
    {
        ScenarioJournal {
            name: None,
            started_at: None,
            ended_at: None,
            events: Vec::new(),
            next_event_id: 0,
            energy_baseline: HashMap::new(),
            per_battery: Vec::new(),
            per_pv: Vec::new(),
            window_avgs: Vec::new(),
            checks: Vec::new(),
            checks_passed: 0,
            checks_failed: 0,
            peak_grid_active_w: Double::from_bits(DZERO),
            peak_grid_pq: None,
        }
    }

    /// Begins a scenario; what an earlier one measured goes, and the ids of
    /// the events run on.
    pub fn start(&mut self, name: String, now: Timestamp, baseline: HashMap<u64, EnergyAccum>)
        requires
            old(self).wf(),
            now.wf(),
        ensures
            final(self).wf(),
            final(self).is_blank(),
            final(self).name == Some(name),
            final(self).started_at == Some(now),
            final(self).ended_at is None,
            final(self).next_event_id == old(self).next_event_id,
            final(self).energy_baseline == baseline,
    {
        let next: u64 = self.next_event_id;
        *self = ScenarioJournal::new();
        self.name = Some(name);
        self.started_at = Some(now);
        self.next_event_id = next;
        self.energy_baseline = baseline;
    }

    /// Ends the scenario that runs; one that has ended keeps its end.
    pub fn stop(&mut self, now: Timestamp)
        requires
            old(self).wf(),
            now.wf(),
        ensures
            final(self).wf(),
            *final(self) == (ScenarioJournal {
                ended_at: if old(self).running() {
                    Some(now)
                } else {
                    old(self).ended_at
                },
                ..*old(self)
            }),
    {
        if self.started_at.is_some() && self.ended_at.is_none() {
            self.ended_at = Some(now);
        }
    }

    /// Appends an event and returns its id; the oldest leaves where there is
    /// no more room.
    pub fn record(&mut self, kind: String, payload: String, now: Timestamp) -> (r: u64)
        requires
            old(self).wf(),
            old(self).next_event_id < u64::MAX,
        ensures
            final(self).wf(),
            r == old(self).next_event_id,
            final(self).next_event_id == r + 1,
            final(self).events@ == crate::setpoints::latest(
                old(self).events@.push(ScenarioEvent { id: r, ts: now, kind, payload }),
                JOURNAL_CAPACITY as nat,
            ),
            *final(self) == (ScenarioJournal {
                events: final(self).events,
                next_event_id: final(self).next_event_id,
                ..*old(self)
            }),
    {
        let id: u64 = self.next_event_id;
        let ghost e = ScenarioEvent { id, ts: now, kind, payload };
        if self.events.len() == JOURNAL_CAPACITY {
            let _ = self.events.remove(0);
        }
        self.events.push(ScenarioEvent { id, ts: now, kind, payload });
        self.next_event_id = id + 1;
        assert(self.events@ =~= crate::setpoints::latest(
            old(self).events@.push(e),
            JOURNAL_CAPACITY as nat,
        ));
        id
    }

    /// Counts a check and keeps it; the oldest leaves where there is no more
    /// room, and stays counted.
    pub fn record_check(&mut self, check: ScenarioCheck)
        requires
            old(self).wf(),
            old(self).checks_passed < u64::MAX,
            old(self).checks_failed < u64::MAX,
        ensures
            final(self).wf(),
            final(self).checks@ == crate::setpoints::latest(
                old(self).checks@.push(check),
                JOURNAL_CAPACITY as nat,
            ),
            *final(self) == (ScenarioJournal {
                checks: final(self).checks,
                checks_passed: (old(self).checks_passed + if check.passed {
                    1int
                } else {
                    0
                }) as u64,
                checks_failed: (old(self).checks_failed + if check.passed {
                    0int
                } else {
                    1
                }) as u64,
                ..*old(self)
            }),
    {
        if check.passed {
            self.checks_passed += 1;
        } else {
            self.checks_failed += 1;
        }
        if self.checks.len() == JOURNAL_CAPACITY {
            let _ = self.checks.remove(0);
        }
        self.checks.push(check);
        assert(self.checks@ =~= crate::setpoints::latest(
            old(self).checks@.push(check),
            JOURNAL_CAPACITY as nat,
        ));
    }

    /// The milliseconds that the scenario has run at `now`. Zero before it
    /// starts; they stand still once it has ended.
    pub open spec fn elapsed_ms(self, now: Timestamp) -> nat {
        match self.started_at {
            None => 0,
            Some(start) => {
                let end = match self.ended_at {
                    Some(t) => t,
                    None => now,
                };
                if end.spec_millis() <= start.spec_millis() {
                    0
                } else {
                    (end.spec_millis() - start.spec_millis()) as nat
                }
            },
        }
    }

    /// The same in seconds.
    pub open spec fn elapsed(self, now: Timestamp) -> Double {
        Double::dint(self.elapsed_ms(now)).ddiv(Double::lit(DTHOUSAND))
    }

    pub fn elapsed_s(&self, now: Timestamp) -> (r: Double)
        requires
            self.wf(),
            now.wf(),
        ensures
            r == self.elapsed(now),
    {
        let ms: u64 = match self.started_at {
            None => 0,
            Some(start) => {
                let end = match self.ended_at {
                    Some(t) => t,
                    None => now,
                };
                let a: i64 = start.millis();
                let b: i64 = end.millis();
                if b <= a {
                    0
                } else {
                    (b as i128 - a as i128) as u64
                }
            },
        };
        Double::of_integer(ms).over(Double::from_bits(DTHOUSAND))
    }

    pub fn event_count(&self) -> (r: usize)
        ensures
            r == self.events@.len(),
    {
        self.events.len()
    }

    /// The lowest id that is still there, or the next one.
    pub open spec fn spec_earliest(self) -> u64 {
        if self.events@.len() == 0 {
            self.next_event_id
        } else {
            self.events@[0].id
        }
    }

    pub fn earliest_event_id(&self) -> (r: u64)
        ensures
            r == self.spec_earliest(),
    {
        if self.events.len() == 0 {
            self.next_event_id
        } else {
            self.events[0].id
        }
    }

    /// Copies of the events with ids from `since` on, oldest first, at most
    /// `limit` of them.
    pub fn events_since(&self, since: u64, limit: usize) -> (r: Vec<ScenarioEvent>)
        ensures
            journal_views(r@) == first(
                journal_views(self.events@).filter(from_id(since)),
                limit as nat,
            ),
    {
        let ghost all = journal_views(self.events@);
        let mut out: Vec<ScenarioEvent> = Vec::new();
        let mut i: usize = 0;
        proof {
            reveal(Seq::filter);
            assert(all.take(0).filter(from_id(since)) =~= Seq::empty());
            assert(journal_views(out@) =~= first(Seq::empty(), limit as nat));
        }
        while i < self.events.len()
            invariant
                i <= self.events@.len(),
                all == journal_views(self.events@),
                journal_views(out@) == first(
                    all.take(i as int).filter(from_id(since)),
                    limit as nat,
                ),
                out@.len() <= limit,
            decreases self.events@.len() - i,
        {
            let e = &self.events[i];
            let ghost before = out@;
            let ghost matching = all.take(i as int).filter(from_id(since));
            proof {
                assert(all.take(i + 1) =~= all.take(i as int).push(e@));
                all.take(i as int).lemma_filter_push(e@, from_id(since));
                assert(journal_views(out@).len() == out@.len());
            }
            if e.id >= since && out.len() < limit {
                let c = e.copy();
                out.push(c);
                assert(journal_views(out@) =~= journal_views(before).push(e@));
                assert(first(matching, limit as nat) =~= matching);
                assert(first(matching.push(e@), limit as nat) =~= matching.push(e@));
            } else if e.id >= since {
                assert(first(matching.push(e@), limit as nat) =~= first(matching, limit as nat));
            }
            i += 1;
        }
        assert(all.take(all.len() as int) =~= all);
        out
    }

    /// Copies of the checks, oldest first.
    pub fn checks(&self) -> (r: Vec<ScenarioCheck>)
        ensures
            check_views(r@) == check_views(self.checks@),
    {
        let mut out: Vec<ScenarioCheck> = Vec::new();
        let mut i: usize = 0;
        while i < self.checks.len()
            invariant
                i <= self.checks@.len(),
                out@.len() == i,
                forall|k: int| 0 <= k < i ==> (#[trigger] out@[k])@ == self.checks@[k]@,
            decreases self.checks@.len() - i,
        {
            let c = self.checks[i].copy();
            out.push(c);
            i += 1;
        }
        assert(check_views(out@) =~= check_views(self.checks@));
        out
    }
}

impl Default for ScenarioJournal {
    fn default() -> (r: Self)
        ensures
            r.wf(),
            r.is_blank(),
            r.name is None,
            r.started_at is None,
            r.ended_at is None,
            r.next_event_id == 0,
            r.energy_baseline@ == Map::<u64, EnergyAccum>::empty(),
    {
        ScenarioJournal::new()
    }
}

/// Ending an ended scenario changes nothing.
pub proof fn law_second_stop_changes_nothing(j: ScenarioJournal, now: Timestamp, later: Timestamp)
    requires
        j.running(),
    ensures
        ({
            let ended = ScenarioJournal { ended_at: Some(now), ..j };
            &&& !ended.running()
            &&& ended.elapsed_ms(later) == j.elapsed_ms(now)
        }),
{
}

} // verus!
