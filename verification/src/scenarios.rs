//! Scenarios on a site: their life, the knobs they turn, and their report.

use crate::component::{Category, KnobKind, KnobSnapshot, ReactiveReading};
use crate::double::{Double, DZERO};
use crate::dynamic_scalar::copy_text;
use crate::events::SiteEvent;
use crate::flow::position;
use crate::microgrid_site::{KnobEntry, MicrogridSite};
use crate::scenario::{
    BatteryTotals, ScenarioCheck, ScenarioEvent, ScenarioJournal, WindowTotals,
};
use crate::simulated::SimulatedComponent;
use crate::single::Single;
use crate::soc_stats::{compute_soc_stats, SocStats};
use crate::time::{utc_now, Timestamp, FIRST_SEC, LAST_SEC};
use vstd::prelude::*;

verus! {

broadcast use vstd::std_specs::hash::group_hash_axioms;

/// The life of a scenario at a glance.
#[derive(Debug)]
pub struct ScenarioSummary {
    pub name: Option<String>,
    pub started_at: Option<Timestamp>,
    pub ended_at: Option<Timestamp>,
    pub elapsed_s: Double,
    pub event_count: usize,
    /// One past the highest id that an event was given.
    pub next_event_id: u64,
    /// The lowest id that is still there.
    pub earliest_event_id: u64,
}

#[derive(Clone, Copy, Debug)]
pub struct PerBatteryReport {
    pub id: u64,
    pub charge_wh: Double,
    pub discharge_wh: Double,
}

#[derive(Clone, Copy, Debug)]
pub struct PerPvReport {
    pub id: u64,
    pub produced_wh: Double,
}

#[derive(Clone, Copy, Debug)]
pub struct WindowAverageEntry {
    pub window_start: Timestamp,
    pub avg_w: Double,
}

/// What a scenario measured.
#[derive(Debug)]
pub struct ScenarioReport {
    pub name: Option<String>,
    pub scenario_elapsed_s: Double,
    pub peak_grid_w: Double,
    pub peak_grid_var: Double,
    /// The power factor at the largest reactive power; none where there was
    /// no power.
    pub site_pf_at_peak_var: Option<Double>,
    pub total_battery_charged_wh: Double,
    pub total_battery_discharged_wh: Double,
    pub total_pv_produced_wh: Double,
    pub per_battery: Vec<PerBatteryReport>,
    pub per_pv: Vec<PerPvReport>,
    pub soc_stats: Option<SocStats>,
    pub grid_window_averages: Vec<WindowAverageEntry>,
    pub checks_passed: u64,
    pub checks_failed: u64,
    pub checks: Vec<ScenarioCheck>,
}

/// The energy charged, added up in order.
pub open spec fn charged_sum(per: Seq<(u64, BatteryTotals)>) -> Double
    decreases per.len(),
{
    if per.len() == 0 {
        Double::lit(DZERO)
    } else {
        charged_sum(per.drop_last()).dadd(per.last().1.charge_wh)
    }
}

/// The energy discharged, added up in order.
pub open spec fn discharged_sum(per: Seq<(u64, BatteryTotals)>) -> Double
    decreases per.len(),
{
    if per.len() == 0 {
        Double::lit(DZERO)
    } else {
        discharged_sum(per.drop_last()).dadd(per.last().1.discharge_wh)
    }
}

/// The energy produced, added up in order.
pub open spec fn produced_sum(per: Seq<(u64, Double)>) -> Double
    decreases per.len(),
{
    if per.len() == 0 {
        Double::lit(DZERO)
    } else {
        produced_sum(per.drop_last()).dadd(per.last().1)
    }
}

/// What a report's batteries charged, what they discharged and what its arrays
/// produced, row by row.
pub open spec fn charge_rows(r: ScenarioReport) -> Seq<real> {
    r.per_battery@.map_values(|x: PerBatteryReport| x.charge_wh.value())
}

pub open spec fn discharge_rows(r: ScenarioReport) -> Seq<real> {
    r.per_battery@.map_values(|x: PerBatteryReport| x.discharge_wh.value())
}

pub open spec fn production_rows(r: ScenarioReport) -> Seq<real> {
    r.per_pv@.map_values(|x: PerPvReport| x.produced_wh.value())
}

/// The rows of a report are finite numbers that can be added up.
pub open spec fn has_plain_rows(r: ScenarioReport) -> bool {
    &&& r.per_battery@.len() <= 1000
    &&& r.per_pv@.len() <= 1000
    &&& forall|i: int|
        0 <= i < r.per_battery@.len() ==> (#[trigger] r.per_battery@[i]).charge_wh.finite()
            && r.per_battery@[i].discharge_wh.finite()
    &&& forall|i: int| 0 <= i < r.per_pv@.len() ==> (#[trigger] r.per_pv@[i]).produced_wh.finite()
    &&& crate::wide_laws::exact_reach(charge_rows(r)) <= crate::accuracy::ample() / 16real
    &&& crate::wide_laws::exact_reach(discharge_rows(r)) <= crate::accuracy::ample() / 16real
    &&& crate::wide_laws::exact_reach(production_rows(r)) <= crate::accuracy::ample() / 16real
}

/// The totals of a report are the sums of its rows, each of its own kind.
pub open spec fn totals_are_sums(r: ScenarioReport) -> bool {
    &&& crate::wide_laws::adds_up(r.total_battery_charged_wh.value(), charge_rows(r), 0)
    &&& crate::wide_laws::adds_up(r.total_battery_discharged_wh.value(), discharge_rows(r), 0)
    &&& crate::wide_laws::adds_up(r.total_pv_produced_wh.value(), production_rows(r), 0)
}

/// The average power of a window; zero without samples.
pub open spec fn window_average(w: WindowTotals) -> Double {
    if w.count > 0 {
        w.sum_w.ddiv(Double::dint(w.count as nat))
    } else {
        Double::lit(DZERO)
    }
}

/// The second lies within the calendar.
pub open spec fn in_calendar(secs: i64) -> bool {
    FIRST_SEC <= secs <= LAST_SEC
}

/// The power factor of an active and a reactive power; none without power.
pub open spec fn power_factor(p: Double, q: Double) -> Option<Double> {
    let apparent = p.dmul(p).dadd(q.dmul(q)).dsqrt();
    if apparent.rank() == 0 && !apparent.nan() {
        None
    } else {
        Some(p.dabs().ddiv(apparent))
    }
}

/// The states of charge of the batteries, in the order of registration.
pub open spec fn battery_socs(components: Seq<SimulatedComponent>) -> Seq<Single>
    decreases components.len(),
{
    if components.len() == 0 {
        Seq::empty()
    } else {
        let before = battery_socs(components.drop_last());
        match components.last() {
            SimulatedComponent::Battery(b) => before.push(b.state.soc_pct),
            _ => before,
        }
    }
}

/// The position of the first entry that does not precede a key.
pub open spec fn entry_slot(entries: Seq<KnobEntry>, id: u64, kind: KnobKind) -> int
    decreases entries.len(),
{
    if entries.len() == 0 {
        0
    } else if entries.last().precedes(id, kind) {
        entries.len() as int
    } else {
        entry_slot(entries.drop_last(), id, kind)
    }
}

/// There is an entry for a key.
pub open spec fn has_entry(entries: Seq<KnobEntry>, id: u64, kind: KnobKind) -> bool {
    exists|i: int|
        0 <= i < entries.len() && (#[trigger] entries[i]).id == id && entries[i].kind == kind
}

proof fn lemma_entry_slot(entries: Seq<KnobEntry>, id: u64, kind: KnobKind)
    requires
        crate::microgrid_site::is_baseline(entries),
    ensures
        0 <= entry_slot(entries, id, kind) <= entries.len(),
        forall|i: int|
            0 <= i < entry_slot(entries, id, kind) ==> (#[trigger] entries[i]).precedes(id, kind),
        forall|i: int|
            entry_slot(entries, id, kind) <= i < entries.len() ==> !(
            #[trigger] entries[i]).precedes(id, kind),
    decreases entries.len(),
{
    if entries.len() > 0 {
        let n = entries.len() - 1;
        if entries.last().precedes(id, kind) {
            assert forall|i: int| 0 <= i < entries.len() implies (#[trigger] entries[i]).precedes(
                id,
                kind,
            ) by {
                if i < n {
                    assert(entries[i].precedes(entries[n].id, entries[n].kind));
                }
            }
        } else {
            let rest = entries.drop_last();
            assert(crate::microgrid_site::is_baseline(rest)) by {
                assert forall|i: int, j: int| 0 <= i < j < rest.len() implies (
                #[trigger] rest[i]).precedes((#[trigger] rest[j]).id, rest[j].kind) by {
                    assert(entries[i].precedes(entries[j].id, entries[j].kind));
                }
                assert forall|i: int| 0 <= i < rest.len() implies (#[trigger] rest[i]).sound() by {
                    assert(entries[i] == rest[i]);
                }
            }
            lemma_entry_slot(rest, id, kind);
            assert forall|i: int|
                entry_slot(entries, id, kind) <= i < entries.len() implies !(
            #[trigger] entries[i]).precedes(id, kind) by {
                if i < n {
                    assert(rest[i] == entries[i]);
                }
            }
            assert forall|i: int| 0 <= i < entry_slot(entries, id, kind) implies (
            #[trigger] entries[i]).precedes(id, kind) by {
                assert(rest[i] == entries[i]);
            }
        }
    }
}

fn rank_of(kind: KnobKind) -> (r: u8)
    ensures
        r == crate::microgrid_site::kind_rank(kind),
{
    match kind {
        KnobKind::MeterPower => 0,
        KnobKind::MeterReactive => 1,
        KnobKind::Sunlight => 2,
        KnobKind::BoilerDemand => 3,
        KnobKind::Ev => 4,
    }
}

/// The components with the knobs put back, one after the other.
pub open spec fn put_back(
    components: Seq<SimulatedComponent>,
    entries: Seq<KnobEntry>,
) -> Seq<SimulatedComponent>
    decreases entries.len(),
{
    if entries.len() == 0 {
        components
    } else {
        let before = put_back(components, entries.drop_last());
        let e = entries.last();
        let at = crate::site_power::slot(before, e.id);
        if at < before.len() {
            before.update(at, before[at].with_knob(e.snap))
        } else {
            before
        }
    }
}

/// The keys of the knobs that could be put back, in order.
pub open spec fn restored_keys(
    components: Seq<SimulatedComponent>,
    entries: Seq<KnobEntry>,
) -> Seq<(u64, KnobKind)>
    decreases entries.len(),
{
    if entries.len() == 0 {
        Seq::empty()
    } else {
        let before = restored_keys(components, entries.drop_last());
        let e = entries.last();
        let now = put_back(components, entries.drop_last());
        let at = crate::site_power::slot(now, e.id);
        if at < now.len() && now[at].has_knob(e.snap) {
            before.push((e.id, e.kind))
        } else {
            before
        }
    }
}

/// A knob's reading as the listeners are told it.
pub open spec fn knob_event(
    id: u64,
    knob: Seq<char>,
    value: Option<Single>,
    expr: Option<Seq<char>>,
    leading: Option<bool>,
) -> crate::events::SiteEventView {
    crate::events::SiteEventView::KnobChanged { id, knob, value, expr, leading }
}

/// What the listeners are told of a knob that was put back: its reading on
/// the component. A meter's reactive power is told as both a power and a power
/// factor, of which one at most is driven.
pub open spec fn knob_news(
    id: u64,
    kind: KnobKind,
    c: SimulatedComponent,
) -> Seq<crate::events::SiteEventView> {
    match kind {
        KnobKind::MeterPower => {
            let s = match c {
                SimulatedComponent::Meter(m) => crate::meter::scalar_of(m.power_source),
                _ => None,
            };
            seq![
                match s {
                    Some(v) => knob_event(id, "meter-power"@, Some(v.cached), v.text, None),
                    None => knob_event(id, "meter-power"@, None, None, None),
                },
            ]
        },
        KnobKind::MeterReactive => {
            let s = match c {
                SimulatedComponent::Meter(m) => crate::meter::reactive_of(m.reactive_source),
                _ => None,
            };
            match s {
                Some(crate::meter::ReactiveView::Var(v)) => seq![
                    knob_event(id, "meter-reactive-power"@, Some(v.cached), v.text, None),
                    knob_event(id, "meter-power-factor"@, None, None, None),
                ],
                Some(crate::meter::ReactiveView::PowerFactor { pf, leading, tan_phi }) => seq![
                    knob_event(id, "meter-reactive-power"@, None, None, None),
                    knob_event(id, "meter-power-factor"@, Some(pf), None, Some(leading)),
                ],
                None => seq![
                    knob_event(id, "meter-reactive-power"@, None, None, None),
                    knob_event(id, "meter-power-factor"@, None, None, None),
                ],
            }
        },
        KnobKind::Sunlight => seq![
            match c {
                SimulatedComponent::Solar(s) => knob_event(
                    id,
                    "solar-sunlight"@,
                    Some(s.sunlight_source@.value()),
                    match s.sunlight_source@ {
                        crate::solar_inverter::SunlightView::Follow {
                            lag,
                            jitter_pct,
                            cached,
                        } => Some("weather"@),
                        crate::solar_inverter::SunlightView::Manual(v) => v.text,
                    },
                    None,
                ),
                _ => knob_event(id, "solar-sunlight"@, None, None, None),
            },
        ],
        KnobKind::BoilerDemand => seq![
            match c {
                SimulatedComponent::SteamBoiler(b) => knob_event(
                    id,
                    "boiler-demand"@,
                    Some(b.demand_source@.cached),
                    b.demand_source@.text,
                    None,
                ),
                _ => knob_event(id, "boiler-demand"@, None, None, None),
            },
        ],
        KnobKind::Ev => Seq::empty(),
    }
}

/// What the listeners are told of the knobs that were put back, in order.
pub open spec fn all_news(
    components: Seq<SimulatedComponent>,
    keys: Seq<(u64, KnobKind)>,
) -> Seq<crate::events::SiteEventView>
    decreases keys.len(),
{
    if keys.len() == 0 {
        Seq::empty()
    } else {
        let before = all_news(components, keys.drop_last());
        match crate::flow::found(components, keys.last().0) {
            Some(c) => before + knob_news(keys.last().0, keys.last().1, c),
            None => before,
        }
    }
}

/// The ids of the keys, each once, in the order of their first occurrence.
pub open spec fn distinct_ids(keys: Seq<(u64, KnobKind)>) -> Seq<u64>
    decreases keys.len(),
{
    if keys.len() == 0 {
        Seq::empty()
    } else {
        let before = distinct_ids(keys.drop_last());
        if before.contains(keys.last().0) {
            before
        } else {
            before.push(keys.last().0)
        }
    }
}

/// The components to refresh after knobs were put back: one refresh serves
/// all knobs of a component.
pub fn refresh_order(keys: &Vec<(u64, KnobKind)>) -> (r: Vec<u64>)
    ensures
        r@ == distinct_ids(keys@),
{
    let mut seen: Vec<u64> = Vec::new();
    let mut i: usize = 0;
    assert(keys@.take(0) =~= Seq::empty());
    while i < keys.len()
        invariant
            i <= keys@.len(),
            seen@ == distinct_ids(keys@.take(i as int)),
        decreases keys@.len() - i,
    {
        let id: u64 = keys[i].0;
        proof {
            assert(keys@.take(i + 1).drop_last() =~= keys@.take(i as int));
            assert(keys@.take(i + 1).last() == keys@[i as int]);
        }
        let mut known = false;
        let mut k: usize = 0;
        while k < seen.len()
            invariant
                k <= seen@.len(),
                known == (exists|j: int| 0 <= j < k && #[trigger] seen@[j] == id),
            decreases seen@.len() - k,
        {
            if seen[k] == id {
                assert(seen@[k as int] == id);
                known = true;
            }
            k += 1;
        }
        if !known {
            seen.push(id);
        }
        i += 1;
    }
    assert(keys@.take(keys@.len() as int) =~= keys@);
    seen
}

/// Which files a recording opens for a component: telemetry always, commands
/// and bounds where it has an envelope of active power, reactive bounds where
/// it has one of reactive power.
#[derive(Clone, Copy, Debug, PartialEq, Eq, Structural)]
pub struct CsvPlan {
    pub id: u64,
    pub category: Category,
    pub envelope: bool,
    pub reactive: bool,
}

impl CsvPlan {
    pub open spec fn of(c: SimulatedComponent, now: Timestamp) -> CsvPlan {
        CsvPlan {
            id: c.spec_id(),
            category: c.spec_category(),
            envelope: c.active_envelope(now) is Some,
            reactive: c.shown_reactive_envelope(now) is Some,
        }
    }
}

impl MicrogridSite {
    /// The files of a recording, one entry per component.
    pub fn scenario_csv_plan(&self, now: Timestamp) -> (r: Vec<CsvPlan>)
        requires
            self.wf(),
            now.wf(),
        ensures
            r@ == self.components@.map_values(|c: SimulatedComponent| CsvPlan::of(c, now)),
    {
        let mut out: Vec<CsvPlan> = Vec::new();
        let mut i: usize = 0;
        while i < self.components.len()
            invariant
                i <= self.components@.len(),
                self.wf(),
                now.wf(),
                out@.len() == i,
                forall|k: int|
                    0 <= k < i ==> (#[trigger] out@[k]) == CsvPlan::of(self.components@[k], now),
            decreases self.components@.len() - i,
        {
            let c = &self.components[i];
            assert(self.components@[i as int].wf());
            out.push(
                CsvPlan {
                    id: c.id(),
                    category: c.category(),
                    envelope: c.effective_active_bounds(now).is_some(),
                    reactive: c.reactive_bounds(now).is_some(),
                },
            );
            i += 1;
        }
        assert(out@ =~= self.components@.map_values(
            |c: SimulatedComponent| CsvPlan::of(c, now),
        ));
        out
    }

    /// Begins a scenario: the journal is emptied, the energy of the components
    /// is noted, and knobs that an earlier scenario did not put back are
    /// forgotten.
    pub fn scenario_start(&mut self, name: String, now: Timestamp)
        requires
            old(self).wf(),
            now.wf(),
        ensures
            final(self).wf(),
            final(self).scenario.is_blank(),
            final(self).scenario.name == Some(name),
            final(self).scenario.started_at == Some(now),
            final(self).scenario.ended_at is None,
            final(self).scenario.next_event_id == old(self).scenario.next_event_id,
            final(self).scenario.energy_baseline@ == old(self).component_energy@,
            final(self).scenario_knob_baseline@.len() == 0,
            *final(self) == (MicrogridSite {
                scenario: final(self).scenario,
                scenario_knob_baseline: final(self).scenario_knob_baseline,
                ..*old(self)
            }),
    {
        let baseline = self.component_energy.clone();
        self.scenario.start(name, now, baseline);
        self.scenario_knob_baseline = Vec::new();
    }

    /// A scenario has started and not ended.
    pub fn scenario_is_running(&self) -> (r: bool)
        ensures
            r == self.scenario.running(),
    {
        self.scenario.started_at.is_some() && self.scenario.ended_at.is_none()
    }

    /// Captures a knob before a scenario turns it; the first capture of a
    /// scenario counts. Nothing happens without a running scenario, or where
    /// the component has no such knob.
    pub fn scenario_snapshot_knob(&mut self, id: u64, kind: KnobKind)
        requires
            old(self).wf(),
        ensures
            final(self).wf(),
            !old(self).scenario.running() || has_entry(old(self).scenario_knob_baseline@, id, kind)
                || old(self).lookup(id) is None ==> *final(self) == *old(self),
            old(self).scenario.running() && !has_entry(
                old(self).scenario_knob_baseline@,
                id,
                kind,
            ) && old(self).lookup(id) is Some ==> {
                ||| (old(self).lookup(id)->0).is_knob(kind, None) && *final(self) == *old(self)
                ||| exists|snap: KnobSnapshot| #[trigger]
                    (old(self).lookup(id)->0).is_knob(kind, Some(snap)) && final(self).scenario_knob_baseline@ == old(self).scenario_knob_baseline@.insert(
                        entry_slot(old(self).scenario_knob_baseline@, id, kind),
                        KnobEntry { id, kind, snap },
                    )
            },
            *final(self) == (MicrogridSite {
                scenario_knob_baseline: final(self).scenario_knob_baseline,
                ..*old(self)
            }),
    {
        if !self.scenario_is_running() {
            return;
        }
        let at_component: usize = match position(&self.components, id) {
            Some(i) => i,
            None => {
                return;
            },
        };
        let ghost before = self.scenario_knob_baseline@;
        let rank: u8 = rank_of(kind);
        proof {
            lemma_entry_slot(before, id, kind);
        }
        let mut at: usize = 0;
        while at < self.scenario_knob_baseline.len() && (self.scenario_knob_baseline[at].id < id
            || (self.scenario_knob_baseline[at].id == id && rank_of(
            self.scenario_knob_baseline[at].kind,
        ) < rank))
            invariant
                at <= before.len(),
                self.scenario_knob_baseline@ == before,
                rank == crate::microgrid_site::kind_rank(kind),
                forall|i: int| 0 <= i < at ==> (#[trigger] before[i]).precedes(id, kind),
            decreases before.len() - at,
        {
            at += 1;
        }
        proof {
            let s = entry_slot(before, id, kind);
            if at < s {
                assert(before[at as int].precedes(id, kind));
            }
            if s < at {
                assert(!before[s].precedes(id, kind));
            }
            assert(at == s);
        }
        if at < self.scenario_knob_baseline.len() && self.scenario_knob_baseline[at].id == id
            && rank_of(self.scenario_knob_baseline[at].kind) == rank {
            assert(before[at as int].id == id && before[at as int].kind == kind);
            return;
        }
        proof {
            if has_entry(before, id, kind) {
                let i = choose|i: int|
                    0 <= i < before.len() && (#[trigger] before[i]).id == id && before[i].kind
                        == kind;
                assert(!before[i].precedes(id, kind));
                if i > at {
                    assert(before[at as int].precedes(before[i].id, before[i].kind));
                }
            }
        }
        assert(self.components@[at_component as int].wf());
        let snap = match self.components[at_component].snapshot_knob(kind) {
            Some(s) => s,
            None => {
                return;
            },
        };
        let entry = KnobEntry { id, kind, snap };
        self.scenario_knob_baseline.insert(at, entry);
        proof {
            let after = self.scenario_knob_baseline@;
            assert(after == before.insert(at as int, entry));
            assert(crate::microgrid_site::is_baseline(after)) by {
                assert forall|i: int, j: int| 0 <= i < j < after.len() implies (
                #[trigger] after[i]).precedes((#[trigger] after[j]).id, after[j].kind) by {
                    let a = if i < at {
                        i
                    } else {
                        i - 1
                    };
                    let b = if j < at {
                        j
                    } else {
                        j - 1
                    };
                    if i != at && j != at {
                        assert(before[a].precedes(before[b].id, before[b].kind));
                    } else if j == at {
                        assert(before[i].precedes(id, kind));
                    } else {
                        assert(!before[b].precedes(id, kind));
                        assert(!(before[b].id == id && before[b].kind == kind));
                        assert(before[b].id == id ==> crate::microgrid_site::kind_rank(
                            before[b].kind,
                        ) != crate::microgrid_site::kind_rank(kind));
                    }
                }
                assert forall|i: int|
                    0 <= i < after.len() implies (#[trigger] after[i]).sound() by {
                    if i < at {
                        assert(after[i] == before[i]);
                    } else if i > at {
                        assert(after[i] == before[i - 1]);
                    }
                }
            }
        }
    }

    /// Ends the scenario and puts the knobs back that it turned, in order of
    /// their components' ids; returns those that were put back. The
    /// expressions that drive them are then to be evaluated again, and
    /// [`Self::broadcast_restored`] tells the listeners.
    pub fn scenario_restore(&mut self, now: Timestamp) -> (r: Vec<(u64, KnobKind)>)
        requires
            old(self).wf(),
            now.wf(),
        ensures
            final(self).wf(),
            final(self).scenario == (ScenarioJournal {
                ended_at: if old(self).scenario.running() {
                    Some(now)
                } else {
                    old(self).scenario.ended_at
                },
                ..old(self).scenario
            }),
            final(self).scenario_knob_baseline@.len() == 0,
            final(self).components@ == put_back(
                old(self).components@,
                old(self).scenario_knob_baseline@,
            ),
            r@ == restored_keys(old(self).components@, old(self).scenario_knob_baseline@),
            *final(self) == (MicrogridSite {
                components: final(self).components,
                scenario: final(self).scenario,
                scenario_knob_baseline: final(self).scenario_knob_baseline,
                ..*old(self)
            }),
    {
        self.scenario.stop(now);
        let ghost all = self.scenario_knob_baseline@;
        let mut taken: Vec<KnobEntry> = Vec::new();
        std::mem::swap(&mut taken, &mut self.scenario_knob_baseline);
        let mut restored: Vec<(u64, KnobKind)> = Vec::new();
        let mut done: Ghost<int> = Ghost(0);
        proof {
            assert(all.take(0) =~= Seq::empty());
            assert(all.skip(0) =~= all);
        }
        while taken.len() > 0
            invariant
                0 <= done@ <= all.len(),
                taken@ == all.skip(done@),
                crate::microgrid_site::is_baseline(all),
                self.wf(),
                self.scenario_knob_baseline@.len() == 0,
                self.components@ == put_back(old(self).components@, all.take(done@)),
                restored@ == restored_keys(old(self).components@, all.take(done@)),
                *self == (MicrogridSite {
                    components: self.components,
                    scenario: self.scenario,
                    scenario_knob_baseline: self.scenario_knob_baseline,
                    ..*old(self)
                }),
                self.scenario == (ScenarioJournal {
                    ended_at: if old(self).scenario.running() {
                        Some(now)
                    } else {
                        old(self).scenario.ended_at
                    },
                    ..old(self).scenario
                }),
            decreases taken@.len(),
        {
            let ghost before = self.components@;
            let ghost entry = all[done@];
            proof {
                assert(taken@[0] == entry);
                assert(all.take(done@ + 1).drop_last() =~= all.take(done@));
                assert(all.take(done@ + 1).last() == entry);
                assert(all[done@].sound());
            }
            let e = taken.remove(0);
            assert(taken@ =~= all.skip(done@ + 1));
            match position(&self.components, e.id) {
                Some(at) => {
                    proof {
                        crate::site_power::lemma_slot_is(before, e.id, at as int);
                        assert(self.components@[at as int].wf());
                    }
                    let id: u64 = e.id;
                    let kind = e.kind;
                    if self.components[at].restore_knob(e.snap) {
                        restored.push((id, kind));
                    }
                    assert(self.components@ =~= before.update(
                        at as int,
                        before[at as int].with_knob(entry.snap),
                    ));
                },
                None => {
                    proof {
                        crate::site_power::lemma_no_slot(before, e.id);
                    }
                },
            }
            proof {
                done@ = done@ + 1;
            }
        }
        proof {
            assert(all.take(done@) =~= all);
        }
        restored
    }

    /// Ends the scenario without evaluating any expression again: the knobs
    /// are put back and the listeners are told.
    pub fn scenario_stop(&mut self, now: Timestamp)
        requires
            old(self).wf(),
            now.wf(),
        ensures
            final(self).wf(),
            final(self).scenario == (ScenarioJournal {
                ended_at: if old(self).scenario.running() {
                    Some(now)
                } else {
                    old(self).scenario.ended_at
                },
                ..old(self).scenario
            }),
            final(self).scenario_knob_baseline@.len() == 0,
            final(self).components@ == put_back(
                old(self).components@,
                old(self).scenario_knob_baseline@,
            ),
            crate::events::views(final(self).events@) == crate::events::views(old(self).events@)
                + all_news(
                final(self).components@,
                restored_keys(old(self).components@, old(self).scenario_knob_baseline@),
            ),
            *final(self) == (MicrogridSite {
                components: final(self).components,
                scenario: final(self).scenario,
                scenario_knob_baseline: final(self).scenario_knob_baseline,
                events: final(self).events,
                ..*old(self)
            }),
    {
        let restored = self.scenario_restore(now);
        self.broadcast_restored(&restored);
    }

    fn note_knob_changed(
        &mut self,
        id: u64,
        knob: &'static str,
        value: Option<Single>,
        expr: Option<String>,
        leading: Option<bool>,
    )
        ensures
            crate::events::views(final(self).events@) == crate::events::views(
                old(self).events@,
            ).push(
                knob_event(id, knob@, value, crate::dynamic_scalar::text_of(expr), leading),
            ),
            *final(self) == (MicrogridSite { events: final(self).events, ..*old(self) }),
    {
        let ghost told = knob_event(
            id,
            knob@,
            value,
            crate::dynamic_scalar::text_of(expr),
            leading,
        );
        self.events.push(SiteEvent::KnobChanged { id, knob, value, expr, leading });
        assert(crate::events::views(self.events@) =~= crate::events::views(old(self).events@).push(
            told,
        ));
    }

    /// Tells the listeners the reading of a knob that was put back, off the
    /// component at `at`.
    pub fn broadcast_restored_knob(&mut self, id: u64, kind: KnobKind, at: usize)
        requires
            at < old(self).components@.len(),
        ensures
            crate::events::views(final(self).events@) == crate::events::views(old(self).events@)
                + knob_news(id, kind, old(self).components@[at as int]),
            *final(self) == (MicrogridSite { events: final(self).events, ..*old(self) }),
    {
        let ghost c = self.components@[at as int];
        match kind {
            KnobKind::MeterPower => {
                let (value, expr) = match self.components[at].meter_power_reading() {
                    Some(r) => (Some(r.value), r.expr),
                    None => (None, None),
                };
                self.note_knob_changed(id, "meter-power", value, expr, None);
            },
            KnobKind::MeterReactive => {
                match self.components[at].meter_reactive_reading() {
                    Some(ReactiveReading::Var(r)) => {
                        self.note_knob_changed(
                            id,
                            "meter-reactive-power",
                            Some(r.value),
                            r.expr,
                            None,
                        );
                        self.note_knob_changed(id, "meter-power-factor", None, None, None);
                    },
                    Some(ReactiveReading::PowerFactor { pf, leading }) => {
                        self.note_knob_changed(id, "meter-reactive-power", None, None, None);
                        self.note_knob_changed(
                            id,
                            "meter-power-factor",
                            Some(pf),
                            None,
                            Some(leading),
                        );
                    },
                    None => {
                        self.note_knob_changed(id, "meter-reactive-power", None, None, None);
                        self.note_knob_changed(id, "meter-power-factor", None, None, None);
                    },
                }
            },
            KnobKind::Sunlight => {
                let (value, expr) = match self.components[at].sunlight_reading() {
                    Some(r) => (Some(r.value), r.expr),
                    None => (None, None),
                };
                self.note_knob_changed(id, "solar-sunlight", value, expr, None);
            },
            KnobKind::BoilerDemand => {
                let (value, expr) = match self.components[at].demand_reading() {
                    Some(r) => (Some(r.value), r.expr),
                    None => (None, None),
                };
                self.note_knob_changed(id, "boiler-demand", value, expr, None);
            },
            KnobKind::Ev => {},
        }
        assert(crate::events::views(self.events@) =~= crate::events::views(old(self).events@)
            + knob_news(id, kind, c));
    }

    /// Tells the listeners the readings of the knobs that were put back.
    pub fn broadcast_restored(&mut self, keys: &Vec<(u64, KnobKind)>)
        ensures
            crate::events::views(final(self).events@) == crate::events::views(old(self).events@)
                + all_news(old(self).components@, keys@),
            *final(self) == (MicrogridSite { events: final(self).events, ..*old(self) }),
    {
        let mut i: usize = 0;
        proof {
            assert(keys@.take(0) =~= Seq::empty());
            assert(crate::events::views(self.events@) =~= crate::events::views(old(self).events@)
                + all_news(self.components@, keys@.take(0)));
        }
        while i < keys.len()
            invariant
                i <= keys@.len(),
                crate::events::views(self.events@) == crate::events::views(old(self).events@)
                    + all_news(old(self).components@, keys@.take(i as int)),
                *self == (MicrogridSite { events: self.events, ..*old(self) }),
            decreases keys@.len() - i,
        {
            let (id, kind) = keys[i];
            proof {
                assert(keys@.take(i + 1).drop_last() =~= keys@.take(i as int));
                assert(keys@.take(i + 1).last() == (id, kind));
            }
            if let Some(at) = position(&self.components, id) {
                self.broadcast_restored_knob(id, kind, at);
                assert(crate::events::views(self.events@) =~= crate::events::views(
                    old(self).events@,
                ) + all_news(old(self).components@, keys@.take(i + 1)));
            }
            i += 1;
        }
        assert(keys@.take(keys@.len() as int) =~= keys@);
    }

    /// Appends an event to the journal and returns its id.
    pub fn scenario_record(&mut self, kind: String, payload: String, now: Timestamp) -> (r: u64)
        requires
            old(self).wf(),
            old(self).scenario.next_event_id < u64::MAX,
        ensures
            final(self).wf(),
            r == old(self).scenario.next_event_id,
            final(self).scenario.next_event_id == r + 1,
            final(self).scenario.events@ == crate::setpoints::latest(
                old(self).scenario.events@.push(ScenarioEvent { id: r, ts: now, kind, payload }),
                crate::scenario::JOURNAL_CAPACITY as nat,
            ),
            *final(self) == (MicrogridSite {
                scenario: ScenarioJournal {
                    events: final(self).scenario.events,
                    next_event_id: final(self).scenario.next_event_id,
                    ..old(self).scenario
                },
                ..*old(self)
            }),
    {
        self.scenario.record(kind, payload, now)
    }

    /// Counts and keeps the result of an expectation.
    pub fn scenario_record_check(&mut self, check: ScenarioCheck)
        requires
            old(self).wf(),
            old(self).scenario.checks_passed < u64::MAX,
            old(self).scenario.checks_failed < u64::MAX,
        ensures
            final(self).wf(),
            final(self).scenario.checks@ == crate::setpoints::latest(
                old(self).scenario.checks@.push(check),
                crate::scenario::JOURNAL_CAPACITY as nat,
            ),
            final(self).scenario.checks_passed == old(self).scenario.checks_passed
                + if check.passed {
                1int
            } else {
                0
            },
            final(self).scenario.checks_failed == old(self).scenario.checks_failed
                + if check.passed {
                0int
            } else {
                1
            },
            *final(self) == (MicrogridSite {
                scenario: ScenarioJournal {
                    checks: final(self).scenario.checks,
                    checks_passed: final(self).scenario.checks_passed,
                    checks_failed: final(self).scenario.checks_failed,
                    ..old(self).scenario
                },
                ..*old(self)
            }),
    {
        self.scenario.record_check(check);
    }

    /// The seconds that the scenario has run; they stand still once it ended.
    pub fn scenario_elapsed_s(&self, now: Timestamp) -> (r: Double)
        requires
            self.wf(),
            now.wf(),
        ensures
            r == self.scenario.elapsed(now),
    {
        self.scenario.elapsed_s(now)
    }

    pub fn scenario_summary(&self, now: Timestamp) -> (r: ScenarioSummary)
        requires
            self.wf(),
            now.wf(),
        ensures
            crate::dynamic_scalar::text_of(r.name) == crate::dynamic_scalar::text_of(
                self.scenario.name,
            ),
            r.started_at == self.scenario.started_at,
            r.ended_at == self.scenario.ended_at,
            r.elapsed_s == self.scenario.elapsed(now),
            r.event_count == self.scenario.events@.len(),
            r.next_event_id == self.scenario.next_event_id,
            r.earliest_event_id == self.scenario.spec_earliest(),
    {
        ScenarioSummary {
            name: copy_text(&self.scenario.name),
            started_at: self.scenario.started_at,
            ended_at: self.scenario.ended_at,
            elapsed_s: self.scenario.elapsed_s(now),
            event_count: self.scenario.event_count(),
            next_event_id: self.scenario.next_event_id,
            earliest_event_id: self.scenario.earliest_event_id(),
        }
    }

    /// The events with ids from `since` on, at most `limit` of them.
    pub fn scenario_events_since(&self, since: u64, limit: usize) -> (r: Vec<ScenarioEvent>)
        ensures
            crate::scenario::journal_views(r@) == crate::scenario::first(
                crate::scenario::journal_views(self.scenario.events@).filter(
                    crate::scenario::from_id(since),
                ),
                limit as nat,
            ),
    {
        self.scenario.events_since(since, limit)
    }

    fn battery_charges(&self) -> (r: Vec<Single>)
        ensures
            r@ == battery_socs(self.components@),
    {
        let mut socs: Vec<Single> = Vec::new();
        let mut i: usize = 0;
        assert(self.components@.take(0) =~= Seq::empty());
        while i < self.components.len()
            invariant
                i <= self.components@.len(),
                socs@ == battery_socs(self.components@.take(i as int)),
            decreases self.components@.len() - i,
        {
            proof {
                assert(self.components@.take(i + 1).drop_last() =~= self.components@.take(
                    i as int,
                ));
                assert(self.components@.take(i + 1).last() == self.components@[i as int]);
            }
            if let SimulatedComponent::Battery(b) = &self.components[i] {
                socs.push(b.state.soc_pct);
            }
            i += 1;
        }
        assert(self.components@.take(self.components@.len() as int) =~= self.components@);
        socs
    }

    /// What the scenario measured. The statistics of the states of charge are
    /// those of the moment.
    pub fn scenario_report(&self, now: Timestamp) -> (r: ScenarioReport)
        requires
            self.wf(),
            now.wf(),
        ensures
            crate::dynamic_scalar::text_of(r.name) == crate::dynamic_scalar::text_of(
                self.scenario.name,
            ),
            r.scenario_elapsed_s == self.scenario.elapsed(now),
            r.peak_grid_w == self.scenario.peak_grid_active_w,
            r.peak_grid_var == match self.scenario.peak_grid_pq {
                Some((p, q)) => q.dabs(),
                None => Double::lit(DZERO),
            },
            r.site_pf_at_peak_var == match self.scenario.peak_grid_pq {
                Some((p, q)) => power_factor(p, q),
                None => None,
            },
            r.total_battery_charged_wh == charged_sum(self.scenario.per_battery@),
            r.total_battery_discharged_wh == discharged_sum(self.scenario.per_battery@),
            r.total_pv_produced_wh == produced_sum(self.scenario.per_pv@),
            r.per_battery@ == self.scenario.per_battery@.map_values(
                |x: (u64, BatteryTotals)|
                    PerBatteryReport {
                        id: x.0,
                        charge_wh: x.1.charge_wh,
                        discharge_wh: x.1.discharge_wh,
                    },
            ),
            r.per_pv@ == self.scenario.per_pv@.map_values(
                |x: (u64, Double)| PerPvReport { id: x.0, produced_wh: x.1 },
            ),
            r.grid_window_averages@.len() == self.scenario.window_avgs@.len(),
            forall|i: int|
                0 <= i < r.grid_window_averages@.len() ==> {
                    let (secs, totals) = self.scenario.window_avgs@[i];
                    let entry = #[trigger] r.grid_window_averages@[i];
                    &&& entry.avg_w == window_average(totals)
                    &&& entry.window_start.wf()
                    &&& in_calendar(secs) ==> entry.window_start == (Timestamp { secs, nanos: 0 })
                },
            r.checks_passed == self.scenario.checks_passed,
            r.checks_failed == self.scenario.checks_failed,
            crate::scenario::check_views(r.checks@) == crate::scenario::check_views(
                self.scenario.checks@,
            ),
            r.soc_stats is Some <==> battery_socs(self.components@).len() > 0,
            r.soc_stats matches Some(x) ==> {
                let socs = battery_socs(self.components@);
                &&& x.mean_pct == crate::soc_stats::wide_sum(socs).ddiv(Double::dint(socs.len()))
                &&& x.median_pct == crate::soc_stats::ascending(
                    socs,
                )[crate::soc_stats::middle(socs.len())].widened()
                &&& x.mode_pct matches Some(m) && crate::soc_stats::is_mode(socs, m as nat)
            },
            has_plain_rows(r) ==> totals_are_sums(r),
    {
        let g = &self.scenario;
        let (per_battery, charged, discharged) = report_batteries(&g.per_battery);
        let (per_pv, produced) = report_pv(&g.per_pv);
        let averages = report_windows(&g.window_avgs);
        let peak_grid_var = match g.peak_grid_pq {
            Some((_, q)) => q.abs(),
            None => Double::from_bits(DZERO),
        };
        let site_pf_at_peak_var = match g.peak_grid_pq {
            Some((p, q)) => {
                let apparent = p.times(p).plus(q.times(q)).sqrt();
                let zero = Double::from_bits(DZERO);
                if apparent.le(zero) && zero.le(apparent) {
                    None
                } else {
                    Some(p.abs().over(apparent))
                }
            },
            None => None,
        };
        let socs = self.battery_charges();
        let r = ScenarioReport {
            name: copy_text(&g.name),
            scenario_elapsed_s: g.elapsed_s(now),
            peak_grid_w: g.peak_grid_active_w,
            peak_grid_var,
            site_pf_at_peak_var,
            total_battery_charged_wh: charged,
            total_battery_discharged_wh: discharged,
            total_pv_produced_wh: produced,
            per_battery,
            per_pv,
            soc_stats: compute_soc_stats(&socs),
            grid_window_averages: averages,
            checks_passed: g.checks_passed,
            checks_failed: g.checks_failed,
            checks: g.checks(),
        };
        proof {
            if has_plain_rows(r) {
                lemma_totals(self.scenario.per_battery@, self.scenario.per_pv@, r);
            }
        }
        r
    }
}

/// The totals over a journal's rows are the sums of a report that shows them.
proof fn lemma_totals(
    batteries: Seq<(u64, BatteryTotals)>,
    arrays: Seq<(u64, Double)>,
    r: ScenarioReport,
)
    requires
        has_plain_rows(r),
        r.per_battery@ == batteries.map_values(
            |x: (u64, BatteryTotals)|
                PerBatteryReport {
                    id: x.0,
                    charge_wh: x.1.charge_wh,
                    discharge_wh: x.1.discharge_wh,
                },
        ),
        r.per_pv@ == arrays.map_values(
            |x: (u64, Double)| PerPvReport { id: x.0, produced_wh: x.1 },
        ),
        r.total_battery_charged_wh == charged_sum(batteries),
        r.total_battery_discharged_wh == discharged_sum(batteries),
        r.total_pv_produced_wh == produced_sum(arrays),
    ensures
        totals_are_sums(r),
{
    assert(charge_rows(r) =~= crate::wide_laws::charges(batteries));
    assert(discharge_rows(r) =~= crate::wide_laws::discharges(batteries));
    assert(production_rows(r) =~= crate::wide_laws::yields(arrays));
    assert forall|i: int| 0 <= i < batteries.len() implies (
    #[trigger] batteries[i]).1.charge_wh.finite() && batteries[i].1.discharge_wh.finite() by {
        assert(r.per_battery@[i].charge_wh == batteries[i].1.charge_wh);
    }
    assert forall|i: int| 0 <= i < arrays.len() implies (#[trigger] arrays[i]).1.finite() by {
        assert(r.per_pv@[i].produced_wh == arrays[i].1);
    }
    crate::wide_laws::law_battery_totals_add_up(batteries);
    crate::wide_laws::law_production_adds_up(arrays);
}

fn report_batteries(per: &Vec<(u64, BatteryTotals)>) -> (r: (
    Vec<PerBatteryReport>,
    Double,
    Double,
))
    ensures
        r.0@ == per@.map_values(
            |x: (u64, BatteryTotals)|
                PerBatteryReport {
                    id: x.0,
                    charge_wh: x.1.charge_wh,
                    discharge_wh: x.1.discharge_wh,
                },
        ),
        r.1 == charged_sum(per@),
        r.2 == discharged_sum(per@),
{
    let mut out: Vec<PerBatteryReport> = Vec::new();
    let mut charged = Double::from_bits(DZERO);
    let mut discharged = Double::from_bits(DZERO);
    let mut i: usize = 0;
    assert(per@.take(0) =~= Seq::empty());
    while i < per.len()
        invariant
            i <= per@.len(),
            charged == charged_sum(per@.take(i as int)),
            discharged == discharged_sum(per@.take(i as int)),
            out@.len() == i,
            forall|k: int|
                0 <= k < i ==> (#[trigger] out@[k]) == (PerBatteryReport {
                    id: per@[k].0,
                    charge_wh: per@[k].1.charge_wh,
                    discharge_wh: per@[k].1.discharge_wh,
                }),
        decreases per@.len() - i,
    {
        let (id, t) = per[i];
        assert(per@.take(i + 1).drop_last() =~= per@.take(i as int));
        assert(per@.take(i + 1).last() == per@[i as int]);
        charged = charged.plus(t.charge_wh);
        discharged = discharged.plus(t.discharge_wh);
        out.push(PerBatteryReport { id, charge_wh: t.charge_wh, discharge_wh: t.discharge_wh });
        i += 1;
    }
    assert(per@.take(per@.len() as int) =~= per@);
    assert(out@ =~= per@.map_values(
        |x: (u64, BatteryTotals)|
            PerBatteryReport {
                id: x.0,
                charge_wh: x.1.charge_wh,
                discharge_wh: x.1.discharge_wh,
            },
    ));
    (out, charged, discharged)
}

fn report_pv(per: &Vec<(u64, Double)>) -> (r: (Vec<PerPvReport>, Double))
    ensures
        r.0@ == per@.map_values(|x: (u64, Double)| PerPvReport { id: x.0, produced_wh: x.1 }),
        r.1 == produced_sum(per@),
{
    let mut out: Vec<PerPvReport> = Vec::new();
    let mut produced = Double::from_bits(DZERO);
    let mut i: usize = 0;
    assert(per@.take(0) =~= Seq::empty());
    while i < per.len()
        invariant
            i <= per@.len(),
            produced == produced_sum(per@.take(i as int)),
            out@.len() == i,
            forall|k: int|
                0 <= k < i ==> (#[trigger] out@[k]) == (PerPvReport {
                    id: per@[k].0,
                    produced_wh: per@[k].1,
                }),
        decreases per@.len() - i,
    {
        let (id, wh) = per[i];
        assert(per@.take(i + 1).drop_last() =~= per@.take(i as int));
        assert(per@.take(i + 1).last() == per@[i as int]);
        produced = produced.plus(wh);
        out.push(PerPvReport { id, produced_wh: wh });
        i += 1;
    }
    assert(per@.take(per@.len() as int) =~= per@);
    assert(out@ =~= per@.map_values(
        |x: (u64, Double)| PerPvReport { id: x.0, produced_wh: x.1 },
    ));
    (out, produced)
}

/// The averages of the windows. One outside the calendar is dated to the
/// machine's present.
fn report_windows(windows: &Vec<(i64, WindowTotals)>) -> (r: Vec<WindowAverageEntry>)
    ensures
        r@.len() == windows@.len(),
        forall|i: int|
            0 <= i < r@.len() ==> {
                let (secs, totals) = windows@[i];
                let entry = #[trigger] r@[i];
                &&& entry.avg_w == window_average(totals)
                &&& entry.window_start.wf()
                &&& in_calendar(secs) ==> entry.window_start == (Timestamp { secs, nanos: 0 })
            },
{
    let mut out: Vec<WindowAverageEntry> = Vec::new();
    let mut i: usize = 0;
    while i < windows.len()
        invariant
            i <= windows@.len(),
            out@.len() == i,
            forall|k: int|
                0 <= k < out@.len() ==> {
                    let (secs, totals) = windows@[k];
                    let entry = #[trigger] out@[k];
                    &&& entry.avg_w == window_average(totals)
                    &&& entry.window_start.wf()
                    &&& in_calendar(secs) ==> entry.window_start == (Timestamp { secs, nanos: 0 })
                },
        decreases windows@.len() - i,
    {
        let (secs, totals) = windows[i];
        let window_start = if FIRST_SEC <= secs && secs <= LAST_SEC {
            Timestamp { secs, nanos: 0 }
        } else {
            utc_now()
        };
        let avg_w = if totals.count > 0 {
            totals.sum_w.over(Double::of_integer(totals.count))
        } else {
            Double::from_bits(DZERO)
        };
        out.push(WindowAverageEntry { window_start, avg_w });
        i += 1;
    }
    out
}

/// After a scenario has stopped nothing is left to put back: a second stop
/// changes no component and tells nobody anything.
pub proof fn law_second_stop_is_idle(components: Seq<SimulatedComponent>)
    ensures
        put_back(components, Seq::empty()) == components,
        restored_keys(components, Seq::empty()).len() == 0,
        all_news(components, restored_keys(components, Seq::empty())).len() == 0,
{
}

/// Putting knobs back moves no component and changes none of their kinds.
proof fn lemma_put_back_keeps_places(
    components: Seq<SimulatedComponent>,
    entries: Seq<KnobEntry>,
)
    ensures
        put_back(components, entries).len() == components.len(),
        forall|k: int|
            0 <= k < components.len() ==> (#[trigger] put_back(components, entries)[k]).spec_id()
                == components[k].spec_id(),
        forall|k: int, s: KnobSnapshot|
            0 <= k < components.len() ==> (#[trigger] put_back(components, entries)[k].has_knob(s))
                == components[k].has_knob(s),
    decreases entries.len(),
{
    if entries.len() > 0 {
        lemma_put_back_keeps_places(components, entries.drop_last());
        let before = put_back(components, entries.drop_last());
        lemma_slot_in_range(before, entries.last().id);
        assert forall|k: int, s: KnobSnapshot| 0 <= k < components.len() implies (
        #[trigger] put_back(components, entries)[k].has_knob(s)) == components[k].has_knob(s) by {
            assert(before[k].has_knob(s) == components[k].has_knob(s));
        }
    }
}

proof fn lemma_slot_in_range(components: Seq<SimulatedComponent>, id: u64)
    ensures
        0 <= crate::site_power::slot(components, id) <= components.len(),
        crate::site_power::slot(components, id) < components.len() ==> components[
            crate::site_power::slot(components, id)
        ].spec_id() == id && crate::flow::found(components, id) == Some(
            components[crate::site_power::slot(components, id)],
        ),
        crate::site_power::slot(components, id) == components.len() ==> crate::flow::found(
            components,
            id,
        ) is None,
    decreases components.len(),
{
    if components.len() > 0 {
        lemma_slot_in_range(components.drop_last(), id);
    }
}

proof fn lemma_same_ids_same_slot(
    a: Seq<SimulatedComponent>,
    b: Seq<SimulatedComponent>,
    id: u64,
)
    requires
        a.len() == b.len(),
        forall|k: int| 0 <= k < a.len() ==> (#[trigger] a[k]).spec_id() == b[k].spec_id(),
    ensures
        crate::site_power::slot(a, id) == crate::site_power::slot(b, id),
    decreases a.len(),
{
    if a.len() > 0 {
        assert(a[a.len() - 1].spec_id() == b[b.len() - 1].spec_id());
        let x = a.drop_last();
        let y = b.drop_last();
        assert forall|k: int| 0 <= k < x.len() implies (#[trigger] x[k]).spec_id()
            == y[k].spec_id() by {
            assert(a[k].spec_id() == b[k].spec_id());
        }
        lemma_same_ids_same_slot(x, y, id);
    }
}

/// The end of a scenario gives each captured knob its state back: whatever the
/// components became since, the one that a knob was captured of has that state
/// again.
pub proof fn law_stop_restores_knobs(
    components: Seq<SimulatedComponent>,
    entries: Seq<KnobEntry>,
    i: int,
    captured: SimulatedComponent,
)
    requires
        crate::microgrid_site::is_baseline(entries),
        0 <= i < entries.len(),
        captured.is_knob(entries[i].kind, Some(entries[i].snap)),
        crate::flow::found(components, entries[i].id) is Some,
        (crate::flow::found(components, entries[i].id)->0).has_knob(entries[i].snap),
    ensures
        crate::flow::found(put_back(components, entries), entries[i].id) is Some,
        (crate::flow::found(put_back(components, entries), entries[i].id)->0).is_knob(
            entries[i].kind,
            Some(entries[i].snap),
        ),
    decreases entries.len(),
{
    let rest = entries.drop_last();
    let before = put_back(components, rest);
    let after = put_back(components, entries);
    let id = entries[i].id;
    let kind = entries[i].kind;
    let snap = entries[i].snap;
    let last = entries.last();
    lemma_put_back_keeps_places(components, rest);
    lemma_put_back_keeps_places(components, entries);
    lemma_same_ids_same_slot(components, before, id);
    lemma_same_ids_same_slot(components, after, id);
    lemma_slot_in_range(components, id);
    lemma_slot_in_range(before, id);
    lemma_slot_in_range(after, id);
    lemma_slot_in_range(before, last.id);
    let at = crate::site_power::slot(components, id);
    assert(before[at].has_knob(snap) == components[at].has_knob(snap));
    assert(entries[i].sound());
    if i == entries.len() - 1 {
        crate::simulated::law_knobs_round_trip(captured, before[at], kind, snap);
    } else {
        assert(crate::microgrid_site::is_baseline(rest)) by {
            assert forall|a: int, b: int| 0 <= a < b < rest.len() implies (
            #[trigger] rest[a]).precedes((#[trigger] rest[b]).id, rest[b].kind) by {
                assert(entries[a].precedes(entries[b].id, entries[b].kind));
            }
            assert forall|a: int| 0 <= a < rest.len() implies (#[trigger] rest[a]).sound() by {
                assert(entries[a] == rest[a]);
            }
        }
        assert(rest[i] == entries[i]);
        law_stop_restores_knobs(components, rest, i, captured);
        assert(entries[i].precedes(entries[entries.len() - 1].id, entries[entries.len() - 1].kind));
        assert(entries[entries.len() - 1].sound());
    }
}

} // verus!
