//! What a site measures: the telemetry of its components, the envelopes of
//! their commands, and the energy they move.

use crate::bounds::{Bounds, VecBounds};
use crate::component::{Category, Telemetry, TelemetryView};
use crate::double::{Double, DZERO};
use crate::dynamic_scalar::Outcome;
use crate::energy::EnergyAccum;
use crate::flow::{aggregate_power_w, aggregate_reactive_var, position};
use crate::microgrid_site::MicrogridSite;
use crate::runtime::Health;
use crate::simulated::SimulatedComponent;
use crate::single::Single;
use crate::solar_inverter::SunlightView;
use crate::steam_boiler::SteamBoiler;
use crate::time::{Span, Timestamp};
use crate::timeout_tracker::TimeoutKey;
use vstd::prelude::*;

verus! {

broadcast use vstd::std_specs::hash::group_hash_axioms;

impl MicrogridSite {
    /// The active power at a component.
    pub open spec fn power_at(self, c: SimulatedComponent) -> Single {
        crate::flow::power(self.components@, self.connections@, c)
    }

    /// The reactive power at a component.
    pub open spec fn reactive_at(self, c: SimulatedComponent) -> Single {
        crate::flow::reactive(self.components@, self.connections@, c)
    }

    /// The active power that a component reports; batteries, grid connection
    /// points and markers report none.
    pub open spec fn reported_power(self, c: SimulatedComponent) -> Option<Single> {
        match c {
            SimulatedComponent::Meter(_) => Some(self.power_at(c)),
            SimulatedComponent::Solar(_) => Some(self.power_at(c)),
            SimulatedComponent::EvCharger(_) => Some(self.power_at(c)),
            SimulatedComponent::SteamBoiler(_) => Some(self.power_at(c)),
            _ => None,
        }
    }

    /// The snapshot of a component at `now`.
    pub open spec fn reading_of(self, c: SimulatedComponent, now: Timestamp) -> TelemetryView {
        let grid = self.seen_grid();
        match c {
            SimulatedComponent::Grid(x) => TelemetryView::blank(x.id, Some(Category::Grid)),
            SimulatedComponent::Meter(x) => x.reading(grid, self.power_at(c), self.reactive_at(c)),
            SimulatedComponent::Battery(x) => x.reading(),
            SimulatedComponent::Solar(x) => x.reading(grid, now),
            SimulatedComponent::EvCharger(x) => x.reading(grid, now),
            SimulatedComponent::SteamBoiler(x) => x.reading(grid, now),
            SimulatedComponent::Marker(x) => TelemetryView::blank(x.id, Some(x.category)),
        }
    }
}

impl SimulatedComponent {
    /// The active power at the component, measured on the site.
    pub fn aggregate_power_w(&self, site: &MicrogridSite) -> (r: Single)
        ensures
            r == site.power_at(*self),
    {
        let depth: u128 = site.connections.len() as u128 + 1;
        aggregate_power_w(&site.components, &site.connections, self, depth)
    }

    /// The reactive power at the component, measured on the site.
    pub fn aggregate_reactive_var(&self, site: &MicrogridSite) -> (r: Single)
        ensures
            r == site.reactive_at(*self),
    {
        let depth: u128 = site.connections.len() as u128 + 1;
        aggregate_reactive_var(&site.components, &site.connections, self, depth)
    }

    /// The active power that the snapshot reports, without the rest of it.
    pub fn active_power_w(&self, site: &MicrogridSite) -> (r: Option<Single>)
        ensures
            r == site.reported_power(*self),
    {
        match self {
            SimulatedComponent::Meter(_) => Some(self.aggregate_power_w(site)),
            SimulatedComponent::Solar(_) => Some(self.aggregate_power_w(site)),
            SimulatedComponent::EvCharger(_) => Some(self.aggregate_power_w(site)),
            SimulatedComponent::SteamBoiler(_) => Some(self.aggregate_power_w(site)),
            _ => None,
        }
    }

    /// The snapshot of the component at `now`.
    pub fn telemetry(&self, site: &MicrogridSite, now: Timestamp) -> (r: Telemetry)
        requires
            self.wf(),
            now.wf(),
        ensures
            r@ == site.reading_of(*self, now),
    {
        let grid = site.grid_state();
        match self {
            SimulatedComponent::Grid(c) => c.telemetry(),
            SimulatedComponent::Meter(c) => {
                let p = self.aggregate_power_w(site);
                let q = self.aggregate_reactive_var(site);
                c.telemetry(&grid, p, q)
            },
            SimulatedComponent::Battery(c) => c.telemetry(),
            SimulatedComponent::Solar(c) => c.telemetry(&grid, now),
            SimulatedComponent::EvCharger(c) => c.telemetry(&grid, now),
            SimulatedComponent::SteamBoiler(c) => c.telemetry(&grid, now),
            SimulatedComponent::Marker(c) => c.telemetry(),
        }
    }

    /// `after` is `before` with what its expressions came to: a meter's for
    /// both axes, an inverter's sunlight or a boiler's demand.
    pub open spec fn is_refreshed(
        before: SimulatedComponent,
        after: SimulatedComponent,
        outcome: Outcome,
        reactive: Outcome,
    ) -> bool {
        match (before, after) {
            (SimulatedComponent::Meter(b), SimulatedComponent::Meter(a)) => {
                &&& a.active_view() == (
                    match crate::meter::scalar_of(b.power_source) {
                        Some(v) => Some(v.refreshed(outcome)),
                        None => None,
                    },
                    b.constructed_power,
                )
                &&& a.reactive_view() == (
                    match crate::meter::reactive_of(b.reactive_source) {
                        Some(crate::meter::ReactiveView::Var(v)) => Some(
                            crate::meter::ReactiveView::Var(v.refreshed(reactive)),
                        ),
                        other => other,
                    },
                    b.constructed_reactive,
                )
                &&& a.same_identity(b)
            },
            (SimulatedComponent::Solar(b), SimulatedComponent::Solar(a)) => {
                &&& a.sunlight_source@ == match b.sunlight_source@ {
                    SunlightView::Manual(s) => SunlightView::Manual(s.refreshed(outcome)),
                    other => other,
                }
                &&& a == crate::solar_inverter::SolarInverter {
                    sunlight_source: a.sunlight_source,
                    ..b
                }
            },
            (SimulatedComponent::SteamBoiler(b), SimulatedComponent::SteamBoiler(a)) => {
                &&& a.demand_source@ == b.demand_source@.refreshed(outcome)
                &&& a == SteamBoiler { demand_source: a.demand_source, ..b }
            },
            (b, a) => a == b,
        }
    }

    /// Takes over what the driving expressions came to.
    pub fn refresh_inputs(&mut self, outcome: Outcome, reactive: Outcome)
        requires
            old(self).wf(),
        ensures
            final(self).wf(),
            final(self).spec_id() == old(self).spec_id(),
            Self::is_refreshed(*old(self), *final(self), outcome, reactive),
    {
        match self {
            SimulatedComponent::Meter(c) => c.refresh_inputs(outcome, reactive),
            SimulatedComponent::Solar(c) => c.refresh_inputs(outcome),
            SimulatedComponent::SteamBoiler(c) => c.refresh_inputs(outcome),
            _ => {},
        }
    }
}

/// The envelopes of active power that the children show, in order.
pub open spec fn child_envelopes(
    components: Seq<SimulatedComponent>,
    kids: Seq<u64>,
    now: Timestamp,
) -> Seq<Seq<Bounds>>
    decreases kids.len(),
{
    if kids.len() == 0 {
        Seq::empty()
    } else {
        let before = child_envelopes(components, kids.drop_last(), now);
        match crate::flow::found(components, kids.last()) {
            Some(c) => match c.active_envelope(now) {
                Some(b) => before.push(b),
                None => before,
            },
            None => before,
        }
    }
}

/// The envelopes of reactive power that the children show, in order.
pub open spec fn child_reactive_envelopes(
    components: Seq<SimulatedComponent>,
    kids: Seq<u64>,
    now: Timestamp,
) -> Seq<Seq<Bounds>>
    decreases kids.len(),
{
    if kids.len() == 0 {
        Seq::empty()
    } else {
        let before = child_reactive_envelopes(components, kids.drop_last(), now);
        match crate::flow::found(components, kids.last()) {
            Some(c) => match c.shown_reactive_envelope(now) {
                Some(b) => before.push(b),
                None => before,
            },
            None => before,
        }
    }
}

/// The envelopes added up; nothing where there is none.
pub open spec fn combined(envelopes: Seq<Seq<Bounds>>) -> Option<Seq<Bounds>> {
    if envelopes.len() == 0 {
        None
    } else {
        Some(crate::bounds::bands_sum(envelopes))
    }
}

/// The envelope of a command: the component's own within that of its children.
/// Nothing where no child has one, or the component is not registered; the
/// children's alone where the component has none.
pub open spec fn gated(
    own: Option<Option<Seq<Bounds>>>,
    children: Option<Seq<Bounds>>,
) -> Option<Seq<Bounds>> {
    match (children, own) {
        (Some(c), Some(Some(o))) => Some(crate::bounds::bands_meet(o, c)),
        (Some(c), Some(None)) => Some(c),
        _ => None,
    }
}

impl MicrogridSite {
    /// The sum of the envelopes of active power of the direct children.
    pub fn aggregate_child_bounds(&self, parent: u64, now: Timestamp) -> (r: Option<VecBounds>)
        requires
            self.wf(),
            now.wf(),
        ensures
            crate::component::bands_of(r) == self.children_envelope(parent, now),
    {
        let kids = self.children_of(parent);
        let mut bounds: Vec<VecBounds> = Vec::new();
        let mut i: usize = 0;
        assert(kids@.take(0) =~= Seq::empty());
        assert(bounds@.map_values(|v: VecBounds| v@) =~= Seq::empty());
        while i < kids.len()
            invariant
                i <= kids@.len(),
                self.wf(),
                now.wf(),
                bounds@.map_values(|v: VecBounds| v@) == child_envelopes(
                    self.components@,
                    kids@.take(i as int),
                    now,
                ),
            decreases kids@.len() - i,
        {
            proof {
                assert(kids@.take(i + 1).drop_last() =~= kids@.take(i as int));
                assert(kids@.take(i + 1).last() == kids@[i as int]);
            }
            if let Some(at) = position(&self.components, kids[i]) {
                let ghost before = bounds@;
                if let Some(b) = self.components[at].effective_active_bounds(now) {
                    let ghost bands = b@;
                    bounds.push(b);
                    assert(bounds@.map_values(|v: VecBounds| v@) =~= before.map_values(
                        |v: VecBounds| v@,
                    ).push(bands));
                }
            }
            i += 1;
        }
        assert(kids@.take(kids@.len() as int) =~= kids@);
        assert(bounds@.map_values(|v: VecBounds| v@).len() == bounds@.len());
        if bounds.len() == 0 {
            None
        } else {
            Some(VecBounds::sum_single(&bounds))
        }
    }

    pub open spec fn children_envelope(self, parent: u64, now: Timestamp) -> Option<Seq<Bounds>> {
        combined(
            child_envelopes(
                self.components@,
                crate::graph::children(self.connections@, parent),
                now,
            ),
        )
    }

    pub open spec fn own_envelope(self, id: u64, now: Timestamp) -> Option<Option<Seq<Bounds>>> {
        match self.lookup(id) {
            Some(c) => Some(c.active_envelope(now)),
            None => None,
        }
    }

    /// The envelope that a command of active power must keep to, beyond what
    /// the component itself checks.
    pub fn active_setpoint_envelope(&self, id: u64, now: Timestamp) -> (r: Option<VecBounds>)
        requires
            self.wf(),
            now.wf(),
        ensures
            crate::component::bands_of(r) == gated(
                self.own_envelope(id, now),
                self.children_envelope(id, now),
            ),
    {
        let children = match self.aggregate_child_bounds(id, now) {
            Some(b) => b,
            None => {
                return None;
            },
        };
        match position(&self.components, id) {
            Some(at) => match self.components[at].effective_active_bounds(now) {
                Some(own) => Some(own.intersect(&children)),
                None => Some(children),
            },
            None => None,
        }
    }

    /// The sum of the envelopes of reactive power of the direct children.
    pub fn aggregate_child_reactive_bounds(&self, parent: u64, now: Timestamp) -> (r: Option<
        VecBounds,
    >)
        requires
            self.wf(),
            now.wf(),
        ensures
            crate::component::bands_of(r) == self.children_reactive_envelope(parent, now),
    {
        let kids = self.children_of(parent);
        let mut bounds: Vec<VecBounds> = Vec::new();
        let mut i: usize = 0;
        assert(kids@.take(0) =~= Seq::empty());
        assert(bounds@.map_values(|v: VecBounds| v@) =~= Seq::empty());
        while i < kids.len()
            invariant
                i <= kids@.len(),
                self.wf(),
                now.wf(),
                bounds@.map_values(|v: VecBounds| v@) == child_reactive_envelopes(
                    self.components@,
                    kids@.take(i as int),
                    now,
                ),
            decreases kids@.len() - i,
        {
            proof {
                assert(kids@.take(i + 1).drop_last() =~= kids@.take(i as int));
                assert(kids@.take(i + 1).last() == kids@[i as int]);
            }
            if let Some(at) = position(&self.components, kids[i]) {
                let ghost before = bounds@;
                if let Some(b) = self.components[at].reactive_bounds(now) {
                    let ghost bands = b@;
                    bounds.push(b);
                    assert(bounds@.map_values(|v: VecBounds| v@) =~= before.map_values(
                        |v: VecBounds| v@,
                    ).push(bands));
                }
            }
            i += 1;
        }
        assert(kids@.take(kids@.len() as int) =~= kids@);
        assert(bounds@.map_values(|v: VecBounds| v@).len() == bounds@.len());
        if bounds.len() == 0 {
            None
        } else {
            Some(VecBounds::sum_single(&bounds))
        }
    }

    pub open spec fn children_reactive_envelope(self, parent: u64, now: Timestamp) -> Option<
        Seq<Bounds>,
    > {
        combined(
            child_reactive_envelopes(
                self.components@,
                crate::graph::children(self.connections@, parent),
                now,
            ),
        )
    }

    pub open spec fn own_reactive_envelope(self, id: u64, now: Timestamp) -> Option<
        Option<Seq<Bounds>>,
    > {
        match self.lookup(id) {
            Some(c) => Some(c.shown_reactive_envelope(now)),
            None => None,
        }
    }

    /// The envelope that a command of reactive power must keep to, beyond what
    /// the component itself checks.
    pub fn reactive_setpoint_envelope(&self, id: u64, now: Timestamp) -> (r: Option<VecBounds>)
        requires
            self.wf(),
            now.wf(),
        ensures
            crate::component::bands_of(r) == gated(
                self.own_reactive_envelope(id, now),
                self.children_reactive_envelope(id, now),
            ),
    {
        let children = match self.aggregate_child_reactive_bounds(id, now) {
            Some(b) => b,
            None => {
                return None;
            },
        };
        match position(&self.components, id) {
            Some(at) => match self.components[at].reactive_bounds(now) {
                Some(own) => Some(own.intersect(&children)),
                None => Some(children),
            },
            None => None,
        }
    }

    /// Every component has moved on by `dt`, each with its own health.
    pub open spec fn is_ticked(
        before: MicrogridSite,
        after: Seq<SimulatedComponent>,
        now: Timestamp,
        dt: Span,
    ) -> bool {
        &&& after.len() == before.components@.len()
        &&& forall|i: int|
            0 <= i < after.len() ==> SimulatedComponent::is_tick(
                before.components@[i],
                #[trigger] after[i],
                before.runtime_state(before.components@[i].spec_id()).health,
                now,
                dt,
            ) && after[i].spec_id() == before.components@[i].spec_id()
    }

    /// The energy of the components after the first `n` have been counted. A
    /// component that reports no power is not counted; one with an error loses
    /// its cursor.
    pub open spec fn energy_after(
        self,
        start: Map<u64, EnergyAccum>,
        n: nat,
        ts_ms: i64,
    ) -> Map<u64, EnergyAccum>
        decreases n,
    {
        if n == 0 {
            start
        } else {
            let before = self.energy_after(start, (n - 1) as nat, ts_ms);
            let c = self.components@[n - 1];
            let id = c.spec_id();
            match self.reported_power(c) {
                None => before,
                Some(p) => {
                    let e = if before.dom().contains(id) {
                        before[id]
                    } else {
                        EnergyAccum { total_wh: Double::lit(DZERO), last_w: None, last_ts_ms: 0 }
                    };
                    before.insert(
                        id,
                        if self.runtime_state(id).health == Health::Error {
                            EnergyAccum { last_w: None, ..e }
                        } else {
                            e.advanced(p, ts_ms)
                        },
                    )
                },
            }
        }
    }

    /// Ticks every component once, in the order of registration, and counts
    /// the energy of the powers they settled on.
    pub fn tick_once(&mut self, now: Timestamp, dt: Span)
        requires
            old(self).wf(),
            now.wf(),
        ensures
            final(self).wf(),
            Self::is_ticked(*old(self), final(self).components@, now, dt),
            final(self).component_energy@ == final(self).energy_after(
                old(self).component_energy@,
                final(self).components@.len(),
                now.spec_millis() as i64,
            ),
            *final(self) == (MicrogridSite {
                components: final(self).components,
                component_energy: final(self).component_energy,
                ..*old(self)
            }),
    {
        let mut i: usize = 0;
        while i < self.components.len()
            invariant
                i <= self.components@.len(),
                self.components@.len() == old(self).components@.len(),
                self.wf(),
                now.wf(),
                *self == (MicrogridSite { components: self.components, ..*old(self) }),
                forall|k: int|
                    i <= k < self.components@.len() ==> self.components@[k] == old(
                        self,
                    ).components@[k],
                forall|k: int|
                    0 <= k < i ==> SimulatedComponent::is_tick(
                        old(self).components@[k],
                        #[trigger] self.components@[k],
                        old(self).runtime_state(old(self).components@[k].spec_id()).health,
                        now,
                        dt,
                    ) && self.components@[k].spec_id() == old(self).components@[k].spec_id(),
            decreases self.components@.len() - i,
        {
            let id: u64 = self.components[i].id();
            let health = self.runtime_of(id).health;
            assert(self.components@[i as int].wf());
            self.components[i].tick(health, now, dt);
            i += 1;
        }
        self.integrate_energy(now);
    }

    /// Counts the energy of the powers that the components report.
    pub fn integrate_energy(&mut self, now: Timestamp)
        requires
            old(self).wf(),
            now.wf(),
        ensures
            final(self).wf(),
            final(self).component_energy@ == old(self).energy_after(
                old(self).component_energy@,
                old(self).components@.len(),
                now.spec_millis() as i64,
            ),
            final(self).component_energy@ == final(self).energy_after(
                old(self).component_energy@,
                final(self).components@.len(),
                now.spec_millis() as i64,
            ),
            *final(self) == (MicrogridSite {
                component_energy: final(self).component_energy,
                ..*old(self)
            }),
    {
        let ts_ms: i64 = now.millis();
        let mut i: usize = 0;
        while i < self.components.len()
            invariant
                i <= self.components@.len(),
                self.wf(),
                *self == (MicrogridSite { component_energy: self.component_energy, ..*old(self) }),
                self.component_energy@ == old(self).energy_after(
                    old(self).component_energy@,
                    i as nat,
                    ts_ms,
                ),
            decreases self.components@.len() - i,
        {
            let power = self.components[i].active_power_w(self);
            if let Some(power_w) = power {
                let id: u64 = self.components[i].id();
                let health = self.runtime_of(id).health;
                let mut e = match self.component_energy.get(&id) {
                    Some(e) => *e,
                    None => EnergyAccum::default(),
                };
                if health == Health::Error {
                    e.reset_cursor();
                } else {
                    e.advance(power_w, ts_ms);
                }
                self.component_energy.insert(id, e);
            }
            i += 1;
        }
        proof {
            lemma_energy_ignores_itself(
                *old(self),
                *self,
                old(self).component_energy@,
                self.components@.len(),
                ts_ms,
            );
        }
    }

    /// The energy that a component has moved, in Wh; none where it reports no
    /// power.
    pub open spec fn energy_of(self, id: u64) -> Option<Double> {
        if self.component_energy@.dom().contains(id) {
            Some(self.component_energy@[id].total_wh)
        } else {
            None
        }
    }

    pub fn component_energy_wh(&self, id: u64) -> (r: Option<Double>)
        ensures
            r == self.energy_of(id),
    {
        match self.component_energy.get(&id) {
            Some(e) => Some(e.total_wh),
            None => None,
        }
    }

    /// The energy at the start of the scenario; zero where none was noted.
    pub open spec fn energy_base(self, id: u64) -> Double {
        if self.scenario.energy_baseline@.dom().contains(id) {
            self.scenario.energy_baseline@[id].total_wh
        } else {
            Double::lit(DZERO)
        }
    }

    /// The energy that a component has moved since the scenario started.
    pub fn component_energy_since_scenario_wh(&self, id: u64) -> (r: Option<Double>)
        ensures
            r == match self.energy_of(id) {
                Some(total) => Some(total.dsub(self.energy_base(id))),
                None => None,
            },
    {
        let total = match self.component_energy_wh(id) {
            Some(t) => t,
            None => {
                return None;
            },
        };
        let base = match self.scenario.energy_baseline.get(&id) {
            Some(e) => e.total_wh,
            None => Double::from_bits(DZERO),
        };
        Some(total.minus(base))
    }

    /// The sky that each component asks for can be read: its lag stays within
    /// the calendar.
    pub open spec fn lags_fit(self, now: Timestamp) -> bool {
        forall|i: int|
            0 <= i < self.components@.len() ==> (
            (#[trigger] self.components@[i]) matches SimulatedComponent::Solar(c) ==> (
            c.sunlight_source@ matches SunlightView::Follow { lag, jitter_pct, cached }
                ==> crate::time::earlier(now, lag) is Some))
    }

    /// A component after it has read the sky: an inverter that follows the
    /// weather takes it as it was its lag ago.
    pub open spec fn is_under_sky(
        self,
        before: SimulatedComponent,
        after: SimulatedComponent,
        now: Timestamp,
        sample: SkySample,
    ) -> bool {
        match (before, after) {
            (SimulatedComponent::Solar(b), SimulatedComponent::Solar(a)) => {
                &&& a.sunlight_source@ == match b.sunlight_source@ {
                    SunlightView::Follow { lag, jitter_pct, cached } => {
                        b.sunlight_source@.resolved(
                            self.sky(crate::time::earlier(now, lag)->0, sample.sine),
                            sample.draw,
                        )
                    },
                    other => other,
                }
                &&& a == crate::solar_inverter::SolarInverter {
                    sunlight_source: a.sunlight_source,
                    ..b
                }
            },
            (b, a) => a == b,
        }
    }

    /// Lets every inverter that follows the weather read it, ahead of a tick;
    /// `samples` has one entry per component.
    pub fn read_sky(&mut self, now: Timestamp, samples: &Vec<SkySample>)
        requires
            old(self).wf(),
            now.wf(),
            samples@.len() == old(self).components@.len(),
            old(self).lags_fit(now),
        ensures
            final(self).wf(),
            final(self).components@.len() == old(self).components@.len(),
            forall|i: int|
                0 <= i < final(self).components@.len() ==> old(self).is_under_sky(
                    old(self).components@[i],
                    #[trigger] final(self).components@[i],
                    now,
                    samples@[i],
                ),
            *final(self) == (MicrogridSite { components: final(self).components, ..*old(self) }),
    {
        let mut i: usize = 0;
        while i < self.components.len()
            invariant
                i <= self.components@.len(),
                self.components@.len() == old(self).components@.len(),
                samples@.len() == self.components@.len(),
                self.wf(),
                now.wf(),
                old(self).lags_fit(now),
                *self == (MicrogridSite { components: self.components, ..*old(self) }),
                forall|k: int|
                    i <= k < self.components@.len() ==> self.components@[k] == old(
                        self,
                    ).components@[k],
                forall|k: int|
                    0 <= k < i ==> old(self).is_under_sky(
                        old(self).components@[k],
                        #[trigger] self.components@[k],
                        now,
                        samples@[k],
                    ),
            decreases self.components@.len() - i,
        {
            let sample = samples[i];
            assert(self.components@[i as int].wf());
            assert(old(self).components@[i as int] == self.components@[i as int]);
            let at = match &self.components[i] {
                SimulatedComponent::Solar(c) => match c.sky_request(now) {
                    Some((at, _)) => Some(at),
                    None => None,
                },
                _ => None,
            };
            if let Some(at) = at {
                let pct = self.weather_pct_at(at, sample.sine);
                self.components[i].resolve_sunlight(pct, sample.draw);
            }
            i += 1;
        }
    }

    /// Releases the axes whose deadlines have come, and returns their keys.
    pub fn reset_expired(&mut self, clock: Span) -> (r: Vec<TimeoutKey>)
        requires
            old(self).wf(),
            clock.wf(),
        ensures
            final(self).wf(),
            final(self).timeout_tracker@ == old(self).timeout_tracker@.remove_keys(
                crate::timeout_tracker::expired(old(self).timeout_tracker@, clock),
            ),
            r@.no_duplicates(),
            r@.to_set() == crate::timeout_tracker::expired(old(self).timeout_tracker@, clock),
            final(self).components@ == released_all(old(self).components@, r@),
            *final(self) == (MicrogridSite {
                components: final(self).components,
                timeout_tracker: final(self).timeout_tracker,
                ..*old(self)
            }),
    {
        let keys = self.drain_expired_timeouts(clock);
        let mut i: usize = 0;
        assert(keys@.take(0) =~= Seq::empty());
        while i < keys.len()
            invariant
                i <= keys@.len(),
                self.wf(),
                self.components@ == released_all(old(self).components@, keys@.take(i as int)),
                *self == (MicrogridSite {
                    components: self.components,
                    timeout_tracker: self.timeout_tracker,
                    ..*old(self)
                }),
                self.timeout_tracker@ == old(self).timeout_tracker@.remove_keys(
                    crate::timeout_tracker::expired(old(self).timeout_tracker@, clock),
                ),
            decreases keys@.len() - i,
        {
            let (id, axis) = keys[i];
            let ghost before = self.components@;
            proof {
                assert(keys@.take(i + 1).drop_last() =~= keys@.take(i as int));
                assert(keys@.take(i + 1).last() == (id, axis));
            }
            if let Some(at) = position(&self.components, id) {
                assert(self.components@[at as int].wf());
                self.components[at].reset_setpoint_axis(axis);
                proof {
                    assert(crate::flow::is_last(before, at as int));
                    lemma_slot_is(before, id, at as int);
                    assert(self.components@ =~= before.update(
                        at as int,
                        before[at as int].released_axis(axis),
                    ));
                }
            } else {
                proof {
                    lemma_no_slot(before, id);
                }
            }
            i += 1;
        }
        assert(keys@.take(keys@.len() as int) =~= keys@);
        keys
    }
}

/// What is read of the sky for one component: the sine of the sun's angle at
/// its time, and the draw of its jitter in percent.
#[derive(Clone, Copy, Debug)]
pub struct SkySample {
    pub sine: Single,
    pub draw: Single,
}

impl SimulatedComponent {
    /// Hands a reading of the weather to an inverter that follows it.
    pub fn resolve_sunlight(&mut self, weather_pct: Option<Single>, draw: Single)
        requires
            old(self).wf(),
        ensures
            final(self).wf(),
            final(self).spec_id() == old(self).spec_id(),
            match (*old(self), *final(self)) {
                (SimulatedComponent::Solar(b), SimulatedComponent::Solar(a)) => {
                    &&& a.sunlight_source@ == b.sunlight_source@.resolved(weather_pct, draw)
                    &&& a == crate::solar_inverter::SolarInverter {
                        sunlight_source: a.sunlight_source,
                        ..b
                    }
                },
                (b, a) => a == b,
            },
    {
        match self {
            SimulatedComponent::Solar(c) => c.resolve_sunlight(weather_pct, draw),
            _ => {},
        }
    }
}

/// The position of the component with an id, or past the end.
pub open spec fn slot(components: Seq<SimulatedComponent>, id: u64) -> int
    decreases components.len(),
{
    if components.len() == 0 {
        0
    } else if components.last().spec_id() == id {
        components.len() - 1
    } else {
        let at = slot(components.drop_last(), id);
        if at == components.len() - 1 {
            components.len() as int
        } else {
            at
        }
    }
}

pub(crate) proof fn lemma_slot_is(components: Seq<SimulatedComponent>, id: u64, at: int)
    requires
        0 <= at < components.len(),
        components[at].spec_id() == id,
        crate::flow::is_last(components, at),
    ensures
        slot(components, id) == at,
    decreases components.len(),
{
    if at < components.len() - 1 {
        let rest = components.drop_last();
        assert(components[components.len() - 1].spec_id() != id);
        assert forall|j: int| at < j < rest.len() implies (#[trigger] rest[j]).spec_id()
            != rest[at].spec_id() by {
            assert(rest[j] == components[j]);
        }
        lemma_slot_is(rest, id, at);
    }
}

pub(crate) proof fn lemma_no_slot(components: Seq<SimulatedComponent>, id: u64)
    requires
        crate::flow::found(components, id) is None,
    ensures
        slot(components, id) == components.len(),
    decreases components.len(),
{
    if components.len() > 0 {
        lemma_no_slot(components.drop_last(), id);
    }
}

/// The components with the axes of these keys released, one after the other.
pub open spec fn released_all(components: Seq<SimulatedComponent>, keys: Seq<TimeoutKey>) -> Seq<
    SimulatedComponent,
>
    decreases keys.len(),
{
    if keys.len() == 0 {
        components
    } else {
        let before = released_all(components, keys.drop_last());
        let (id, axis) = keys.last();
        let at = slot(before, id);
        if at < before.len() {
            before.update(at, before[at].released_axis(axis))
        } else {
            before
        }
    }
}

proof fn lemma_energy_ignores_itself(
    a: MicrogridSite,
    b: MicrogridSite,
    start: Map<u64, EnergyAccum>,
    n: nat,
    ts_ms: i64,
)
    requires
        b == (MicrogridSite { component_energy: b.component_energy, ..a }),
    ensures
        a.energy_after(start, n, ts_ms) == b.energy_after(start, n, ts_ms),
    decreases n,
{
    if n > 0 {
        lemma_energy_ignores_itself(a, b, start, (n - 1) as nat, ts_ms);
    }
}

/// The power that the energy is counted from is the one that the snapshot
/// reports.
pub proof fn law_reported_power_is_in_the_snapshot(
    site: MicrogridSite,
    c: SimulatedComponent,
    now: Timestamp,
)
    ensures
        site.reported_power(c) == site.reading_of(c, now).active_power_w,
{
}

/// A component that reports no power, such as a battery, gains no energy.
pub proof fn law_unreported_components_gain_no_energy(
    site: MicrogridSite,
    start: Map<u64, EnergyAccum>,
    id: u64,
    n: nat,
    ts_ms: i64,
)
    requires
        n <= site.components@.len(),
        forall|i: int|
            0 <= i < n && (#[trigger] site.components@[i]).spec_id() == id
                ==> site.reported_power(site.components@[i]) is None,
    ensures
        site.energy_after(start, n, ts_ms).dom().contains(id) == start.dom().contains(id),
        start.dom().contains(id) ==> site.energy_after(start, n, ts_ms)[id] == start[id],
    decreases n,
{
    if n > 0 {
        law_unreported_components_gain_no_energy(site, start, id, (n - 1) as nat, ts_ms);
        assert(site.components@[n - 1].spec_id() == id ==> site.reported_power(
            site.components@[n - 1],
        ) is None);
    }
}

/// Every component that reports power counts its own: the energy of one with
/// an id of its own advances by its reported power, and an error makes it
/// forget its last sample. Whatever other components do plays no part.
pub proof fn law_components_count_their_own_energy(
    site: MicrogridSite,
    start: Map<u64, EnergyAccum>,
    n: nat,
    i: int,
    ts_ms: i64,
)
    requires
        0 <= i < n <= site.components@.len(),
        forall|j: int|
            0 <= j < n && j != i ==> (#[trigger] site.components@[j]).spec_id()
                != site.components@[i].spec_id(),
        site.reported_power(site.components@[i]) is Some,
    ensures
        ({
            let id = site.components@[i].spec_id();
            let power = site.reported_power(site.components@[i])->0;
            let after = site.energy_after(start, n, ts_ms);
            let before = if start.dom().contains(id) {
                start[id]
            } else {
                EnergyAccum { total_wh: Double::lit(DZERO), last_w: None, last_ts_ms: 0 }
            };
            &&& after.dom().contains(id)
            &&& site.runtime_state(id).health != Health::Error ==> after[id] == before.advanced(
                power,
                ts_ms,
            )
            &&& site.runtime_state(id).health == Health::Error ==> after[id].total_wh
                == before.total_wh && after[id].last_w is None
        }),
    decreases n,
{
    let id = site.components@[i].spec_id();
    let last = site.components@[n - 1];
    if i == n - 1 {
        lemma_energy_untouched(site, start, (n - 1) as nat, id, ts_ms);
    } else {
        assert(last.spec_id() != id);
        law_components_count_their_own_energy(site, start, (n - 1) as nat, i, ts_ms);
    }
}

/// Components with other ids leave an energy as it is.
proof fn lemma_energy_untouched(
    site: MicrogridSite,
    start: Map<u64, EnergyAccum>,
    n: nat,
    id: u64,
    ts_ms: i64,
)
    requires
        n <= site.components@.len(),
        forall|j: int| 0 <= j < n ==> (#[trigger] site.components@[j]).spec_id() != id,
    ensures
        site.energy_after(start, n, ts_ms).dom().contains(id) == start.dom().contains(id),
        start.dom().contains(id) ==> site.energy_after(start, n, ts_ms)[id] == start[id],
    decreases n,
{
    if n > 0 {
        assert(site.components@[n - 1].spec_id() != id);
        lemma_energy_untouched(site, start, (n - 1) as nat, id, ts_ms);
    }
}

/// The component with this id is registered, and shows this envelope.
pub open spec fn shows(
    components: Seq<SimulatedComponent>,
    id: u64,
    now: Timestamp,
    b: Seq<Bounds>,
) -> bool {
    crate::flow::found(components, id) is Some && crate::flow::found(
        components,
        id,
    )->0.active_envelope(now) == Some(b)
}

/// The envelope of a parent takes in what every child shows, and nothing else.
pub proof fn law_every_child_counts_in_the_envelope(
    components: Seq<SimulatedComponent>,
    kids: Seq<u64>,
    now: Timestamp,
    b: Seq<Bounds>,
)
    ensures
        child_envelopes(components, kids, now).contains(b) <==> exists|i: int|
            0 <= i < kids.len() && shows(components, #[trigger] kids[i], now, b),
        child_envelopes(components, kids, now).len() <= kids.len(),
    decreases kids.len(),
{
    let all = child_envelopes(components, kids, now);
    if kids.len() > 0 {
        let rest = kids.drop_last();
        let before = child_envelopes(components, rest, now);
        law_every_child_counts_in_the_envelope(components, rest, now, b);
        assert(kids[kids.len() - 1] == kids.last());
        if all.contains(b) {
            let k = all.index_of(b);
            if k < before.len() {
                assert(before[k] == b);
                let i = choose|i: int|
                    0 <= i < rest.len() && shows(components, #[trigger] rest[i], now, b);
                assert(kids[i] == rest[i]);
            } else {
                assert(shows(components, kids[kids.len() - 1], now, b));
            }
        }
        if exists|i: int| 0 <= i < kids.len() && shows(components, #[trigger] kids[i], now, b) {
            let i = choose|i: int|
                0 <= i < kids.len() && shows(components, #[trigger] kids[i], now, b);
            if i < rest.len() {
                assert(rest[i] == kids[i]);
                assert(all[before.index_of(b)] == b);
            } else {
                assert(all[before.len() as int] == b);
            }
        }
    }
}

} // verus!
