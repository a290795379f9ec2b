//! A site: its components, their topology and their runtime state.

use crate::component::{Category, OperationalMode, FIRST_AUTO_ID};
use crate::component::{KnobKind, KnobSnapshot};
use crate::energy::EnergyAccum;
use crate::events::SiteEvent;
use crate::flow::position;
use crate::graph::{reachable, Edge};
use crate::grid_state::GridState;
use crate::history::ComponentHistory;
use crate::runtime::{CommandMode, ComponentRuntime, Health, TelemetryMode};
use crate::scenario::ScenarioJournal;
use crate::setpoints::{copy_string, SetpointEvent, SetpointLog};
use crate::simulated::{ComponentHandle, SimulatedComponent};
use crate::single::Single;
use crate::text::{push_decimal, push_text};
use crate::time::{utc_now, Span, Timestamp};
use crate::timeout_tracker::{span_sum, SetpointAxis, TimeoutKey, TimeoutTracker};
use crate::weather::{Weather, WeatherConfig};
use std::collections::HashMap;
use vstd::prelude::*;

verus! {

broadcast use vstd::std_specs::hash::group_hash_axioms;

/// How many commands a component's log keeps.
pub const SETPOINT_LOG_CAPACITY: usize = 1000;

/// The counter that hands out ids to components without one of their own. It
/// may serve several sites: each takes it over, moves it on and hands it back.
#[derive(Clone, Copy, Debug, PartialEq, Eq, Structural)]
pub struct IdAllocator {
    pub next: u64,
}

impl IdAllocator {
    /// The counter past a pinned id; the ceiling is not passed.
    pub open spec fn past(self, id: u64) -> IdAllocator {
        let floor = if id == u64::MAX {
            u64::MAX
        } else {
            (id + 1) as u64
        };
        if self.next < floor {
            IdAllocator { next: floor }
        } else {
            self
        }
    }
}

impl Default for IdAllocator {
    fn default() -> (r: Self)
        ensures
            r.next == FIRST_AUTO_ID,
    {
        IdAllocator { next: FIRST_AUTO_ID }
    }
}

/// A knob as it was before a scenario turned it.
#[derive(Debug)]
pub struct KnobEntry {
    pub id: u64,
    pub kind: KnobKind,
    pub snap: KnobSnapshot,
}

/// The order of the kinds of knobs.
pub open spec fn kind_rank(kind: KnobKind) -> int {
    match kind {
        KnobKind::MeterPower => 0,
        KnobKind::MeterReactive => 1,
        KnobKind::Sunlight => 2,
        KnobKind::BoilerDemand => 3,
        KnobKind::Ev => 4,
    }
}

impl KnobEntry {
    /// The order of the entries: by id, then by kind.
    pub open spec fn precedes(self, id: u64, kind: KnobKind) -> bool {
        self.id < id || (self.id == id && kind_rank(self.kind) < kind_rank(kind))
    }

    /// The captured state is one of the entry's kind, and can be put back.
    pub open spec fn sound(self) -> bool {
        &&& crate::simulated::sound_snapshot(self.snap)
        &&& crate::simulated::kind_of(self.snap) == self.kind
    }
}

/// The entries are in order, none twice, and can be put back.
pub open spec fn is_baseline(entries: Seq<KnobEntry>) -> bool {
    &&& forall|i: int, j: int|
        0 <= i < j < entries.len() ==> (#[trigger] entries[i]).precedes(
            (#[trigger] entries[j]).id,
            entries[j].kind,
        )
    &&& forall|i: int| 0 <= i < entries.len() ==> (#[trigger] entries[i]).sound()
}

#[derive(Debug)]
pub struct MicrogridSite {
    /// In the order of their registration, which is that of the ticks.
    pub components: Vec<SimulatedComponent>,
    pub connections: Vec<Edge>,
    pub grid_state: GridState,
    pub physics_tick_ms: u64,
    pub next_id: IdAllocator,
    /// Counts the changes that belong to the configuration.
    pub structural_version: u64,
    pub stream_cancel_epoch: u64,
    pub sample_lag_ms: u64,
    pub runtime: HashMap<u64, ComponentRuntime>,
    pub operational_modes: HashMap<u64, OperationalMode>,
    pub name_overrides: HashMap<u64, String>,
    pub histories: HashMap<u64, ComponentHistory>,
    pub component_energy: HashMap<u64, EnergyAccum>,
    pub setpoint_logs: HashMap<u64, SetpointLog>,
    pub version: u64,
    /// Counts the resets.
    pub run_generation: u64,
    /// What the listeners have yet to be told, oldest first.
    pub events: Vec<SiteEvent>,
    pub timeout_tracker: TimeoutTracker,
    pub scenario: ScenarioJournal,
    pub scenario_knob_baseline: Vec<KnobEntry>,
    /// The frequency of the wide grid, where the site follows one.
    pub grid_frequency: Option<Single>,
    pub weather: Option<Weather>,
}

/// An edge whose ends are both visible. What is not registered is.
pub open spec fn visible_edge(components: Seq<SimulatedComponent>) -> spec_fn(Edge) -> bool {
    |e: Edge| !hides(components, e.0) && !hides(components, e.1)
}

/// An edge with a hidden end.
pub open spec fn hidden_edge(components: Seq<SimulatedComponent>) -> spec_fn(Edge) -> bool {
    |e: Edge| hides(components, e.0) || hides(components, e.1)
}

/// The component with this id is hidden.
pub open spec fn hides(components: Seq<SimulatedComponent>, id: u64) -> bool {
    crate::flow::found(components, id) matches Some(c) && c.hidden()
}

/// A component other than the one with this id.
pub open spec fn other_than(id: u64) -> spec_fn(SimulatedComponent) -> bool {
    |c: SimulatedComponent| c.spec_id() != id
}

/// A knob of another component.
pub open spec fn knob_of_other(id: u64) -> spec_fn(KnobEntry) -> bool {
    |e: KnobEntry| e.id != id
}

/// The text of a refusal that names the operational mode.
pub open spec fn mode_refusal(id: u64, mode: OperationalMode, rest: Seq<char>) -> Seq<char> {
    "component "@ + crate::text::decimal(id as nat) + " has operational mode "@ + mode.name()
        + rest
}

/// The runtime state of a component; the normal one until it is set.
pub open spec fn state_in(runtime: Map<u64, ComponentRuntime>, id: u64) -> ComponentRuntime {
    if runtime.dom().contains(id) {
        runtime[id]
    } else {
        ComponentRuntime::normal()
    }
}

/// The declared mode of a component; unspecified until it is set.
pub open spec fn mode_in(modes: Map<u64, OperationalMode>, id: u64) -> OperationalMode {
    if modes.dom().contains(id) {
        modes[id]
    } else {
        OperationalMode::Unspecified
    }
}

/// No channel is open that the declared mode or an error shuts.
pub open spec fn channels_sound(
    runtime: Map<u64, ComponentRuntime>,
    modes: Map<u64, OperationalMode>,
) -> bool {
    forall|id: u64|
        {
            let state = #[trigger] state_in(runtime, id);
            let mode = mode_in(modes, id);
            &&& state.command == CommandMode::Normal ==> mode.controls() && state.health
                != Health::Error
            &&& state.telemetry == TelemetryMode::Normal ==> mode.streams()
        }
}

/// A change at one id keeps the channels sound where it does so at that id.
proof fn lemma_channels_stay_sound(before: MicrogridSite, after: MicrogridSite, id: u64)
    requires
        channels_sound(before.runtime@, before.operational_modes@),
        forall|k: u64|
            k != id ==> #[trigger] state_in(after.runtime@, k) == state_in(before.runtime@, k)
                && mode_in(after.operational_modes@, k) == mode_in(before.operational_modes@, k),
        after.runtime_state(id).command == CommandMode::Normal ==> after.mode_of(id).controls()
            && after.runtime_state(id).health != Health::Error,
        after.runtime_state(id).telemetry == TelemetryMode::Normal ==> after.mode_of(id).streams(),
    ensures
        channels_sound(after.runtime@, after.operational_modes@),
{
    assert forall|k: u64|
        {
            let state = #[trigger] state_in(after.runtime@, k);
            let mode = mode_in(after.operational_modes@, k);
            &&& state.command == CommandMode::Normal ==> mode.controls() && state.health
                != Health::Error
            &&& state.telemetry == TelemetryMode::Normal ==> mode.streams()
        } by {
        if k != id {
            let old_state = state_in(before.runtime@, k);
            assert(state_in(after.runtime@, k) == old_state);
        }
    }
}

impl MicrogridSite {
    pub open spec fn wf(self) -> bool {
        &&& forall|i: int|
            0 <= i < self.components@.len() ==> (#[trigger] self.components@[i]).wf()
        &&& crate::graph::acyclic(self.connections@)
        &&& self.timeout_tracker.wf()
        &&& self.scenario.wf()
        &&& is_baseline(self.scenario_knob_baseline@)
        &&& self.weather matches Some(w) ==> w.wf()
        &&& forall|id: u64| #[trigger]
            self.setpoint_logs@.dom().contains(id) ==> self.setpoint_logs@[id].wf()
                && self.setpoint_logs@[id].capacity == SETPOINT_LOG_CAPACITY
        &&& channels_sound(self.runtime@, self.operational_modes@)
    }

    /// The component with an id.
    pub open spec fn lookup(self, id: u64) -> Option<SimulatedComponent> {
        crate::flow::found(self.components@, id)
    }

    /// The runtime state of a component; the normal one until it is set.
    pub open spec fn runtime_state(self, id: u64) -> ComponentRuntime {
        state_in(self.runtime@, id)
    }

    /// The declared mode of a component; unspecified until it is set.
    pub open spec fn mode_of(self, id: u64) -> OperationalMode {
        mode_in(self.operational_modes@, id)
    }

    pub open spec fn weather_config(self) -> Option<WeatherConfig> {
        match self.weather {
            Some(w) => Some(w.cfg),
            None => None,
        }
    }

    /// Nothing is registered, connected or remembered.
    pub open spec fn is_empty(self) -> bool {
        &&& self.components@.len() == 0
        &&& self.connections@.len() == 0
        &&& self.runtime@ == Map::<u64, ComponentRuntime>::empty()
        &&& self.operational_modes@ == Map::<u64, OperationalMode>::empty()
        &&& self.name_overrides@ == Map::<u64, String>::empty()
        &&& self.histories@ == Map::<u64, ComponentHistory>::empty()
        &&& self.component_energy@ == Map::<u64, EnergyAccum>::empty()
        &&& self.setpoint_logs@ == Map::<u64, SetpointLog>::empty()
        &&& self.timeout_tracker@ == Map::<TimeoutKey, Span>::empty()
        &&& self.scenario.is_blank()
        &&& self.scenario.name is None
        &&& self.scenario.started_at is None
        &&& self.scenario.ended_at is None
        &&& self.scenario.next_event_id == 0
        &&& self.scenario.energy_baseline@ == Map::<u64, EnergyAccum>::empty()
        &&& self.scenario_knob_baseline@.len() == 0
        &&& self.weather is None
    }

    /// A site of its own, with its own counter of ids.
    pub fn new() -> (r: Self)
        ensures
            r.wf(),
            r.is_empty(),
            r.next_id.next == FIRST_AUTO_ID,
            r.grid_state == GridState::nominal(),
            r.physics_tick_ms == 100,
            r.structural_version == 0,
            r.stream_cancel_epoch == 0,
            r.sample_lag_ms == 0,
            r.version == 0,
            r.run_generation == 0,
            r.events@.len() == 0,
            r.grid_frequency is None,
    {
        Self::with_id_allocator(IdAllocator { next: FIRST_AUTO_ID })
    }

    /// A site that draws its ids from a counter that others draw from too.
    pub fn with_id_allocator(next_id: IdAllocator) -> (r: Self)
        ensures
            r.wf(),
            r.is_empty(),
            r.next_id == next_id,
            r.grid_state == GridState::nominal(),
            r.physics_tick_ms == 100,
            r.structural_version == 0,
            r.stream_cancel_epoch == 0,
            r.sample_lag_ms == 0,
            r.version == 0,
            r.run_generation == 0,
            r.events@.len() == 0,
            r.grid_frequency is None,
    {
        MicrogridSite {
            components: Vec::new(),
            connections: Vec::new(),
            grid_state: GridState::default(),
            physics_tick_ms: 100,
            next_id,
            structural_version: 0,
            stream_cancel_epoch: 0,
            sample_lag_ms: 0,
            runtime: HashMap::new(),
            operational_modes: HashMap::new(),
            name_overrides: HashMap::new(),
            histories: HashMap::new(),
            component_energy: HashMap::new(),
            setpoint_logs: HashMap::new(),
            version: 0,
            run_generation: 0,
            events: Vec::new(),
            timeout_tracker: TimeoutTracker::new(),
            scenario: ScenarioJournal::new(),
            scenario_knob_baseline: Vec::new(),
            grid_frequency: None,
            weather: None,
        }
    }

    pub fn structural_version(&self) -> (r: u64)
        ensures
            r == self.structural_version,
    {
        self.structural_version
    }

    /// Counts a change of the configuration that is none of the site's own.
    pub fn bump_structural_version(&mut self)
        ensures
            *final(self) == (MicrogridSite {
                structural_version: old(self).structural_version.wrapping_add(1),
                ..*old(self)
            }),
    {
        self.structural_version = self.structural_version.wrapping_add(1);
    }

    /// How far into the past the timestamps of samples are shifted, in ms.
    pub fn sample_lag_ms(&self) -> (r: u64)
        ensures
            r == self.sample_lag_ms,
    {
        self.sample_lag_ms
    }

    pub fn set_sample_lag_ms(&mut self, ms: u64)
        ensures
            *final(self) == (MicrogridSite { sample_lag_ms: ms, ..*old(self) }),
    {
        self.sample_lag_ms = ms;
    }

    pub fn stream_cancel_epoch(&self) -> (r: u64)
        ensures
            r == self.stream_cancel_epoch,
    {
        self.stream_cancel_epoch
    }

    /// Streams end when they see the epoch change.
    pub fn cancel_all_streams(&mut self)
        ensures
            *final(self) == (MicrogridSite {
                stream_cancel_epoch: old(self).stream_cancel_epoch.wrapping_add(1),
                ..*old(self)
            }),
    {
        self.stream_cancel_epoch = self.stream_cancel_epoch.wrapping_add(1);
    }

    /// Follows the frequency of the wide grid, which reads `hz`.
    pub fn set_grid_frequency(&mut self, hz: Single)
        ensures
            *final(self) == (MicrogridSite { grid_frequency: Some(hz), ..*old(self) }),
    {
        self.grid_frequency = Some(hz);
    }

    /// The grid as the components see it: the wide grid's frequency, where
    /// the site follows one, and its own voltages.
    pub open spec fn seen_grid(self) -> GridState {
        match self.grid_frequency {
            Some(hz) => GridState { frequency_hz: hz, ..self.grid_state },
            None => self.grid_state,
        }
    }

    pub fn grid_state(&self) -> (r: GridState)
        ensures
            r == self.seen_grid(),
    {
        let mut state = self.grid_state;
        if let Some(hz) = self.grid_frequency {
            state.frequency_hz = hz;
        }
        state
    }

    pub fn set_grid_state(&mut self, state: GridState)
        ensures
            *final(self) == (MicrogridSite { grid_state: state, ..*old(self) }),
    {
        self.grid_state = state;
    }

    /// Arms a deadline for a command at the clock's reading plus its lifetime;
    /// the latest one counts.
    pub fn add_timeout(&mut self, id: u64, axis: SetpointAxis, lifetime: Span, clock: Span)
        requires
            old(self).wf(),
            lifetime.wf(),
            clock.wf(),
            clock.total() + lifetime.total() < crate::seconds::span_limit(),
        ensures
            final(self).wf(),
            final(self).timeout_tracker@ == old(self).timeout_tracker@.insert(
                (id, axis),
                crate::timeout_tracker::deadline_at(clock, lifetime),
            ),
            *final(self) == (MicrogridSite {
                timeout_tracker: final(self).timeout_tracker,
                ..*old(self)
            }),
    {
        let at = span_sum(clock, lifetime);
        self.timeout_tracker.arm(id, axis, at);
    }

    /// Drops the deadlines that have come and returns their keys.
    pub fn drain_expired_timeouts(&mut self, clock: Span) -> (r: Vec<TimeoutKey>)
        requires
            old(self).wf(),
            clock.wf(),
        ensures
            final(self).wf(),
            final(self).timeout_tracker@ == old(self).timeout_tracker@.remove_keys(
                crate::timeout_tracker::expired(old(self).timeout_tracker@, clock),
            ),
            r@.no_duplicates(),
            r@.to_set() == crate::timeout_tracker::expired(old(self).timeout_tracker@, clock),
            *final(self) == (MicrogridSite {
                timeout_tracker: final(self).timeout_tracker,
                ..*old(self)
            }),
    {
        self.timeout_tracker.reset_expired_with(clock)
    }

    pub fn version(&self) -> (r: u64)
        ensures
            r == self.version,
    {
        self.version
    }

    /// Counts a change, tells the listeners and returns the new version.
    pub fn bump_version(&mut self) -> (r: u64)
        requires
            old(self).version < u64::MAX,
        ensures
            r == old(self).version + 1,
            crate::events::views(final(self).events@) == crate::events::views(
                old(self).events@,
            ).push(crate::events::SiteEventView::TopologyChanged { version: r }),
            *final(self) == (MicrogridSite {
                version: r,
                events: final(self).events,
                ..*old(self)
            }),
    {
        self.version = self.version + 1;
        self.events.push(SiteEvent::TopologyChanged { version: self.version });
        assert(crate::events::views(self.events@) =~= crate::events::views(old(self).events@).push(
            crate::events::SiteEventView::TopologyChanged { version: self.version },
        ));
        self.version
    }

    /// Hands over what the listeners have yet to be told.
    pub fn take_events(&mut self) -> (r: Vec<SiteEvent>)
        ensures
            r == old(self).events,
            final(self).events@.len() == 0,
            *final(self) == (MicrogridSite { events: final(self).events, ..*old(self) }),
    {
        let mut out: Vec<SiteEvent> = Vec::new();
        std::mem::swap(&mut out, &mut self.events);
        out
    }

    /// The listeners are told that the configuration could not be loaded, as
    /// of `now`, and nothing else changes.
    pub open spec fn is_config_error(
        before: MicrogridSite,
        after: MicrogridSite,
        message: Seq<char>,
        now: Timestamp,
    ) -> bool {
        &&& after.events@.len() == before.events@.len() + 1
        &&& after.events@.drop_last() == before.events@
        &&& after.events@.last()@ == crate::events::SiteEventView::ConfigError {
            ts_ms: now.spec_millis() as i64,
            message,
        }
        &&& after == MicrogridSite { events: after.events, ..before }
    }

    pub fn config_error_at(&mut self, message: String, now: Timestamp)
        requires
            now.wf(),
        ensures
            Self::is_config_error(*old(self), *final(self), message@, now),
    {
        self.events.push(SiteEvent::ConfigError { ts_ms: now.millis(), message });
        assert(self.events@.drop_last() =~= old(self).events@);
    }

    /// The same as of the machine's present.
    pub fn broadcast_config_error(&mut self, message: String)
        ensures
            exists|now: Timestamp|
                now.wf() && #[trigger] Self::is_config_error(
                    *old(self),
                    *final(self),
                    message@,
                    now,
                ),
    {
        let now = utc_now();
        self.config_error_at(message, now);
    }

    /// Tells the listeners a sample of an aggregated stream.
    pub fn broadcast_microgrid_sample(
        &mut self,
        stream: &'static str,
        quantity: &'static str,
        unit: &'static str,
        ts_ms: i64,
        value: Option<Single>,
    )
        ensures
            crate::events::views(final(self).events@) == crate::events::views(
                old(self).events@,
            ).push(
                crate::events::SiteEventView::MicrogridSample {
                    stream: stream@,
                    quantity: quantity@,
                    unit: unit@,
                    ts_ms,
                    value,
                },
            ),
            *final(self) == (MicrogridSite { events: final(self).events, ..*old(self) }),
    {
        self.events.push(SiteEvent::MicrogridSample { stream, quantity, unit, ts_ms, value });
        assert(crate::events::views(self.events@) =~= crate::events::views(old(self).events@).push(
            crate::events::SiteEventView::MicrogridSample {
                stream: stream@,
                quantity: quantity@,
                unit: unit@,
                ts_ms,
                value,
            },
        ));
    }

    /// The next id of the counter, which moves on.
    pub fn next_id(&mut self) -> (r: u64)
        ensures
            r == old(self).next_id.next,
            *final(self) == (MicrogridSite {
                next_id: IdAllocator { next: r.wrapping_add(1) },
                ..*old(self)
            }),
    {
        let id: u64 = self.next_id.next;
        self.next_id = IdAllocator { next: id.wrapping_add(1) };
        id
    }

    /// Moves the counter past a pinned id.
    pub fn reserve_id(&mut self, id: u64)
        ensures
            *final(self) == (MicrogridSite { next_id: old(self).next_id.past(id), ..*old(self) }),
    {
        let floor: u64 = if id == u64::MAX {
            u64::MAX
        } else {
            id + 1
        };
        if self.next_id.next < floor {
            self.next_id = IdAllocator { next: floor };
        }
    }

    /// The time between two ticks.
    pub fn physics_tick(&self) -> (r: Span)
        ensures
            r.wf(),
            r.total() == self.physics_tick_ms * 1_000_000,
    {
        Span {
            secs: self.physics_tick_ms / 1000,
            nanos: (self.physics_tick_ms % 1000) as u32 * 1_000_000,
        }
    }

    pub fn set_physics_tick_ms(&mut self, ms: u64)
        ensures
            *final(self) == (MicrogridSite { physics_tick_ms: ms, ..*old(self) }),
    {
        self.physics_tick_ms = ms;
    }

    /// Registers a component. A runtime state that its id already has is kept;
    /// without one it starts out normal. The energy, the history, the log and
    /// the deadlines of an earlier component of the same id are dropped.
    pub fn register(&mut self, c: SimulatedComponent) -> (r: ComponentHandle)
        requires
            old(self).wf(),
            c.wf(),
        ensures
            final(self).wf(),
            r.id == c.spec_id(),
            r.hidden == c.hidden(),
            r.name@ == c.name_text(),
            final(self).components@ == old(self).components@.push(c),
            final(self).lookup(c.spec_id()) == Some(c),
            final(self).structural_version == old(self).structural_version.wrapping_add(1),
            final(self).runtime@ == old(self).runtime@.insert(
                c.spec_id(),
                old(self).runtime_state(c.spec_id()),
            ),
            final(self).component_energy@ == old(self).component_energy@.remove(c.spec_id()),
            final(self).histories@ == old(self).histories@.remove(c.spec_id()),
            final(self).setpoint_logs@ == old(self).setpoint_logs@.remove(c.spec_id()),
            final(self).scenario.energy_baseline@ == old(self).scenario.energy_baseline@.remove(
                c.spec_id(),
            ),
            final(self).timeout_tracker@ == old(self).timeout_tracker@.remove(
                (c.spec_id(), SetpointAxis::Active),
            ).remove((c.spec_id(), SetpointAxis::Reactive)),
            *final(self) == (MicrogridSite {
                components: final(self).components,
                structural_version: final(self).structural_version,
                runtime: final(self).runtime,
                component_energy: final(self).component_energy,
                histories: final(self).histories,
                setpoint_logs: final(self).setpoint_logs,
                timeout_tracker: final(self).timeout_tracker,
                scenario: ScenarioJournal {
                    energy_baseline: final(self).scenario.energy_baseline,
                    ..old(self).scenario
                },
                ..*old(self)
            }),
    {
        let id: u64 = c.id();
        let handle = ComponentHandle::new(&c);
        let state = self.runtime_of(id);
        self.components.push(c);
        assert(self.components@.drop_last() =~= old(self).components@);
        self.structural_version = self.structural_version.wrapping_add(1);
        self.runtime.insert(id, state);
        self.component_energy.remove(&id);
        self.scenario.energy_baseline.remove(&id);
        self.histories.remove(&id);
        self.setpoint_logs.remove(&id);
        self.timeout_tracker.remove_component(id);
        proof {
            lemma_channels_stay_sound(*old(self), *self, id);
        }
        handle
    }

    /// Adds an edge, unless it would close a loop.
    pub fn connect(&mut self, parent: u64, child: u64) -> (r: bool)
        requires
            old(self).wf(),
        ensures
            final(self).wf(),
            r == !crate::graph::leads(old(self).connections@, child, parent),
            !r ==> *final(self) == *old(self),
            r ==> final(self).connections@ == old(self).connections@.push((parent, child))
                && *final(self) == (MicrogridSite {
                connections: final(self).connections,
                structural_version: old(self).structural_version.wrapping_add(1),
                ..*old(self)
            }),
    {
        if reachable(&self.connections, child, parent) {
            return false;
        }
        proof {
            crate::graph::law_connecting_keeps_acyclic(self.connections@, parent, child);
        }
        self.connections.push((parent, child));
        self.structural_version = self.structural_version.wrapping_add(1);
        true
    }

    fn is_hidden(&self, id: u64) -> (r: bool)
        ensures
            r == hides(self.components@, id),
    {
        match position(&self.components, id) {
            Some(i) => self.components[i].is_hidden(),
            None => false,
        }
    }

    /// The edges between visible components.
    pub fn connections(&self) -> (r: Vec<Edge>)
        ensures
            r@ == self.connections@.filter(visible_edge(self.components@)),
    {
        let mut out: Vec<Edge> = Vec::new();
        let mut i: usize = 0;
        while i < self.connections.len()
            invariant
                i <= self.connections@.len(),
                out@ == self.connections@.take(i as int).filter(visible_edge(self.components@)),
            decreases self.connections@.len() - i,
        {
            let e = self.connections[i];
            proof {
                assert(self.connections@.take(i + 1) =~= self.connections@.take(i as int).push(e));
                self.connections@.take(i as int).lemma_filter_push(
                    e,
                    visible_edge(self.components@),
                );
            }
            if !self.is_hidden(e.0) && !self.is_hidden(e.1) {
                out.push(e);
            }
            i += 1;
        }
        assert(self.connections@.take(self.connections@.len() as int) =~= self.connections@);
        out
    }

    /// All edges, in the order they were added.
    pub fn all_connections(&self) -> (r: Vec<Edge>)
        ensures
            r@ == self.connections@,
    {
        let mut out: Vec<Edge> = Vec::new();
        let mut i: usize = 0;
        while i < self.connections.len()
            invariant
                i <= self.connections@.len(),
                out@ == self.connections@.take(i as int),
            decreases self.connections@.len() - i,
        {
            out.push(self.connections[i]);
            assert(out@ =~= self.connections@.take(i + 1));
            i += 1;
        }
        assert(self.connections@.take(self.connections@.len() as int) =~= self.connections@);
        out
    }

    /// The edges with a hidden end.
    pub fn hidden_connections(&self) -> (r: Vec<Edge>)
        ensures
            r@ == self.connections@.filter(hidden_edge(self.components@)),
    {
        let mut out: Vec<Edge> = Vec::new();
        let mut i: usize = 0;
        while i < self.connections.len()
            invariant
                i <= self.connections@.len(),
                out@ == self.connections@.take(i as int).filter(hidden_edge(self.components@)),
            decreases self.connections@.len() - i,
        {
            let e = self.connections[i];
            proof {
                assert(self.connections@.take(i + 1) =~= self.connections@.take(i as int).push(e));
                self.connections@.take(i as int).lemma_filter_push(
                    e,
                    hidden_edge(self.components@),
                );
            }
            if self.is_hidden(e.0) || self.is_hidden(e.1) {
                out.push(e);
            }
            i += 1;
        }
        assert(self.connections@.take(self.connections@.len() as int) =~= self.connections@);
        out
    }

    /// The children of a component, hidden or not.
    pub fn children_of(&self, parent: u64) -> (r: Vec<u64>)
        ensures
            r@ == crate::graph::children(self.connections@, parent),
    {
        crate::graph::children_of(&self.connections, parent)
    }

    /// The children of a component, each with the number of its parents.
    pub fn children_with_parent_counts(&self, parent: u64) -> (r: Vec<(u64, usize)>)
        ensures
            r@.map_values(|x: (u64, usize)| (x.0, x.1 as nat)) == crate::graph::weighted_children(
                self.connections@,
                parent,
            ),
    {
        crate::graph::children_with_parent_counts(&self.connections, parent)
    }

    /// How many edges end in a component.
    pub fn parent_count(&self, id: u64) -> (r: usize)
        ensures
            r == crate::graph::in_degree(self.connections@, id),
    {
        crate::graph::parent_count(&self.connections, id)
    }

    pub fn components(&self) -> (r: &Vec<SimulatedComponent>)
        ensures
            *r == self.components,
    {
        &self.components
    }

    pub fn component_count(&self) -> (r: usize)
        ensures
            r == self.components@.len(),
    {
        self.components.len()
    }

    pub fn get(&self, id: u64) -> (r: Option<&SimulatedComponent>)
        ensures
            match self.lookup(id) {
                Some(c) => r matches Some(x) && *x == c,
                None => r is None,
            },
    {
        match position(&self.components, id) {
            Some(i) => Some(&self.components[i]),
            None => None,
        }
    }

    /// A grid connection point has this id.
    pub open spec fn is_grid(self, id: u64) -> bool {
        self.lookup(id) matches Some(c) && c.spec_category() == Category::Grid
    }

    /// A visible component hangs on another one.
    pub open spec fn hangs_on(self, child: u64, parent: u64) -> bool {
        &&& self.connections@.contains((parent, child))
        &&& self.lookup(child) matches Some(c) && !c.hidden()
    }

    /// The main meter: the only visible child of the only grid connection
    /// point.
    pub open spec fn is_main_meter(self, id: u64) -> bool {
        exists|grid: u64|
            {
                &&& #[trigger] self.is_grid(grid)
                &&& forall|other: u64| #[trigger] self.is_grid(other) ==> other == grid
                &&& self.hangs_on(id, grid)
                &&& forall|child: u64| #[trigger] self.hangs_on(child, grid) ==> child == id
                &&& (self.lookup(id)->0).spec_category() == Category::Meter
            }
    }

    fn sole_grid(&self) -> (r: Option<u64>)
        ensures
            r matches Some(g) ==> self.is_grid(g) && forall|other: u64| #[trigger]
                self.is_grid(other) ==> other == g,
            r is None ==> forall|g: u64| #[trigger]
                self.is_grid(g) ==> exists|other: u64| #[trigger]
                    self.is_grid(other) && other != g,
    {
        let mut grid: Option<u64> = None;
        let mut i: usize = 0;
        while i < self.components.len()
            invariant
                i <= self.components@.len(),
                grid matches Some(g) ==> self.is_grid(g),
                forall|k: int|
                    0 <= k < i && crate::flow::is_last(self.components@, k) && (
                    #[trigger] self.components@[k]).spec_category() == Category::Grid ==> grid
                        == Some(self.components@[k].spec_id()),
            decreases self.components@.len() - i,
        {
            let c = &self.components[i];
            if c.category() == Category::Grid {
                let id: u64 = c.id();
                let last = match position(&self.components, id) {
                    Some(at) => at == i,
                    None => false,
                };
                proof {
                    if crate::flow::is_last(self.components@, i as int) {
                        crate::flow::lemma_found_is_last(self.components@, i as int);
                    }
                }
                if last {
                    proof {
                        assert(self.is_grid(id));
                    }
                    match grid {
                        Some(g) => {
                            if g != id {
                                proof {
                                    assert(self.is_grid(g) && self.is_grid(id));
                                    assert forall|x: u64| #[trigger]
                                        self.is_grid(x) implies exists|other: u64| #[trigger]
                                        self.is_grid(other) && other != x by {
                                        if x == g {
                                            assert(self.is_grid(id));
                                        } else {
                                            assert(self.is_grid(g));
                                        }
                                    }
                                }
                                return None;
                            }
                        },
                        None => {
                            grid = Some(id);
                        },
                    }
                }
            }
            i += 1;
        }
        proof {
            assert forall|x: u64| #[trigger] self.is_grid(x) implies grid == Some(x) by {
                crate::flow::lemma_last_of(self.components@, x);
                let k = choose|k: int|
                    0 <= k < self.components@.len() && crate::flow::is_last(self.components@, k)
                        && #[trigger] self.components@[k].spec_id() == x;
                crate::flow::lemma_found_is_last(self.components@, k);
                assert(self.components@[k].spec_category() == Category::Grid);
            }
        }
        grid
    }

    /// The id of the main meter, where there is exactly one candidate.
    pub fn main_meter_id(&self) -> (r: Option<u64>)
        ensures
            r matches Some(id) ==> self.is_main_meter(id),
            r is None ==> forall|id: u64| !#[trigger] self.is_main_meter(id),
    {
        let grid: u64 = match self.sole_grid() {
            Some(g) => g,
            None => {
                return None;
            },
        };
        let mut only: Option<u64> = None;
        let mut i: usize = 0;
        while i < self.connections.len()
            invariant
                i <= self.connections@.len(),
                self.is_grid(grid),
                forall|other: u64| #[trigger] self.is_grid(other) ==> other == grid,
                only matches Some(m) ==> self.hangs_on(m, grid),
                forall|k: int|
                    0 <= k < i && (#[trigger] self.connections@[k]).0 == grid && self.hangs_on(
                        self.connections@[k].1,
                        grid,
                    ) ==> only == Some(self.connections@[k].1),
            decreases self.connections@.len() - i,
        {
            let e = self.connections[i];
            if e.0 == grid {
                let visible = match position(&self.components, e.1) {
                    Some(at) => !self.components[at].is_hidden(),
                    None => false,
                };
                if visible {
                    proof {
                        assert(self.connections@[i as int] == (grid, e.1));
                        assert(self.connections@.contains((grid, e.1)));
                        assert(self.hangs_on(e.1, grid));
                    }
                    match only {
                        Some(m) => {
                            if m != e.1 {
                                assert(self.hangs_on(m, grid) && self.hangs_on(e.1, grid));
                                return None;
                            }
                        },
                        None => {
                            only = Some(e.1);
                        },
                    }
                }
            }
            i += 1;
        }
        proof {
            assert forall|child: u64| #[trigger] self.hangs_on(child, grid) implies only == Some(
                child,
            ) by {
                let k = choose|k: int|
                    0 <= k < self.connections@.len() && self.connections@[k] == (grid, child);
                assert(self.connections@[k].0 == grid);
            }
        }
        match only {
            Some(m) => match position(&self.components, m) {
                Some(at) => if self.components[at].category() == Category::Meter {
                    Some(m)
                } else {
                    None
                },
                None => None,
            },
            None => None,
        }
    }

    /// Starts a new run: everything that belongs to the old one goes, streams
    /// end. The counter of ids, the grid and the versions stay.
    pub fn reset(&mut self)
        requires
            old(self).wf(),
        ensures
            final(self).wf(),
            final(self).is_empty(),
            final(self).run_generation == old(self).run_generation.wrapping_add(1),
            final(self).stream_cancel_epoch == old(self).stream_cancel_epoch.wrapping_add(1),
            final(self).next_id == old(self).next_id,
            final(self).grid_state == old(self).grid_state,
            final(self).grid_frequency == old(self).grid_frequency,
            final(self).physics_tick_ms == old(self).physics_tick_ms,
            final(self).sample_lag_ms == old(self).sample_lag_ms,
            final(self).structural_version == old(self).structural_version,
            final(self).version == old(self).version,
            final(self).events == old(self).events,
    {
        self.run_generation = self.run_generation.wrapping_add(1);
        self.cancel_all_streams();
        self.components = Vec::new();
        self.connections = Vec::new();
        self.runtime.clear();
        self.operational_modes.clear();
        self.name_overrides.clear();
        self.histories.clear();
        self.component_energy.clear();
        self.setpoint_logs.clear();
        self.timeout_tracker.clear();
        self.scenario = ScenarioJournal::new();
        self.scenario_knob_baseline = Vec::new();
        self.weather = None;
    }

    fn drop_component(&mut self, id: u64)
        ensures
            final(self).components@ == old(self).components@.filter(other_than(id)),
            *final(self) == (MicrogridSite { components: final(self).components, ..*old(self) }),
    {
        let ghost before = self.components@;
        let mut done: Ghost<int> = Ghost(0);
        let mut i: usize = 0;
        proof {
            reveal(Seq::filter);
            assert(before.take(0).filter(other_than(id)) =~= Seq::empty());
            assert(self.components@ =~= before.take(0).filter(other_than(id)) + before.skip(0));
        }
        while i < self.components.len()
            invariant
                0 <= done@ <= before.len(),
                i == before.take(done@).filter(other_than(id)).len(),
                self.components@ == before.take(done@).filter(other_than(id)) + before.skip(done@),
                *self == (MicrogridSite { components: self.components, ..*old(self) }),
            decreases before.len() - done@,
        {
            let ghost kept = before.take(done@).filter(other_than(id));
            let ghost c = before[done@];
            proof {
                assert(self.components@[i as int] == before.skip(done@)[0]);
                assert(before.take(done@ + 1) =~= before.take(done@).push(c));
                before.take(done@).lemma_filter_push(c, other_than(id));
            }
            if self.components[i].id() == id {
                let _ = self.components.remove(i);
                assert(self.components@ =~= kept + before.skip(done@ + 1));
            } else {
                assert(self.components@ =~= kept.push(c) + before.skip(done@ + 1));
                i += 1;
            }
            proof {
                done@ = done@ + 1;
            }
        }
        proof {
            assert(before.skip(done@).len() == 0);
            assert(before.take(done@) =~= before);
            assert(self.components@ =~= before.filter(other_than(id)));
        }
    }

    fn drop_knobs(&mut self, id: u64)
        ensures
            final(self).scenario_knob_baseline@ == old(self).scenario_knob_baseline@.filter(
                knob_of_other(id),
            ),
            *final(self) == (MicrogridSite {
                scenario_knob_baseline: final(self).scenario_knob_baseline,
                ..*old(self)
            }),
    {
        let ghost before = self.scenario_knob_baseline@;
        let mut done: Ghost<int> = Ghost(0);
        let mut i: usize = 0;
        proof {
            reveal(Seq::filter);
            assert(before.take(0).filter(knob_of_other(id)) =~= Seq::empty());
            assert(self.scenario_knob_baseline@ =~= before.take(0).filter(knob_of_other(id))
                + before.skip(0));
        }
        while i < self.scenario_knob_baseline.len()
            invariant
                0 <= done@ <= before.len(),
                i == before.take(done@).filter(knob_of_other(id)).len(),
                self.scenario_knob_baseline@ == before.take(done@).filter(knob_of_other(id))
                    + before.skip(done@),
                *self == (MicrogridSite {
                    scenario_knob_baseline: self.scenario_knob_baseline,
                    ..*old(self)
                }),
            decreases before.len() - done@,
        {
            let ghost kept = before.take(done@).filter(knob_of_other(id));
            let ghost e = before[done@];
            proof {
                assert(self.scenario_knob_baseline@[i as int] == before.skip(done@)[0]);
                assert(before.take(done@ + 1) =~= before.take(done@).push(e));
                before.take(done@).lemma_filter_push(e, knob_of_other(id));
            }
            if self.scenario_knob_baseline[i].id == id {
                let _ = self.scenario_knob_baseline.remove(i);
                assert(self.scenario_knob_baseline@ =~= kept + before.skip(done@ + 1));
            } else {
                assert(self.scenario_knob_baseline@ =~= kept.push(e) + before.skip(done@ + 1));
                i += 1;
            }
            proof {
                done@ = done@ + 1;
            }
        }
        proof {
            assert(before.skip(done@).len() == 0);
            assert(before.take(done@) =~= before);
            assert(self.scenario_knob_baseline@ =~= before.filter(knob_of_other(id)));
        }
    }

    fn drop_edges_of(&mut self, id: u64)
        ensures
            final(self).connections@ == crate::graph::without_node(old(self).connections@, id),
            *final(self) == (MicrogridSite { connections: final(self).connections, ..*old(self) }),
    {
        let mut kept: Vec<Edge> = Vec::new();
        let mut i: usize = 0;
        while i < self.connections.len()
            invariant
                i <= self.connections@.len(),
                kept@ == self.connections@.take(i as int).filter(crate::graph::avoids(id)),
            decreases self.connections@.len() - i,
        {
            let e = self.connections[i];
            proof {
                assert(self.connections@.take(i + 1) =~= self.connections@.take(i as int).push(e));
                self.connections@.take(i as int).lemma_filter_push(e, crate::graph::avoids(id));
            }
            if e.0 != id && e.1 != id {
                kept.push(e);
            }
            i += 1;
        }
        assert(self.connections@.take(self.connections@.len() as int) =~= self.connections@);
        self.connections = kept;
    }

    /// Removes a component with its edges and all that is remembered of it;
    /// true if it was there.
    pub fn remove_component(&mut self, id: u64) -> (r: bool)
        requires
            old(self).wf(),
        ensures
            final(self).wf(),
            r == (old(self).lookup(id) is Some),
            final(self).lookup(id) is None,
            final(self).components@ == old(self).components@.filter(other_than(id)),
            final(self).connections@ == crate::graph::without_node(old(self).connections@, id),
            final(self).structural_version == if r {
                old(self).structural_version.wrapping_add(1)
            } else {
                old(self).structural_version
            },
            final(self).histories@ == old(self).histories@.remove(id),
            final(self).component_energy@ == old(self).component_energy@.remove(id),
            final(self).runtime@ == old(self).runtime@.remove(id),
            final(self).operational_modes@ == old(self).operational_modes@.remove(id),
            final(self).setpoint_logs@ == old(self).setpoint_logs@.remove(id),
            final(self).name_overrides@ == old(self).name_overrides@.remove(id),
            final(self).scenario.energy_baseline@ == old(self).scenario.energy_baseline@.remove(
                id,
            ),
            final(self).scenario_knob_baseline@ == old(self).scenario_knob_baseline@.filter(
                knob_of_other(id),
            ),
            final(self).timeout_tracker@ == old(self).timeout_tracker@.remove(
                (id, SetpointAxis::Active),
            ).remove((id, SetpointAxis::Reactive)),
            *final(self) == (MicrogridSite {
                components: final(self).components,
                connections: final(self).connections,
                structural_version: final(self).structural_version,
                histories: final(self).histories,
                component_energy: final(self).component_energy,
                runtime: final(self).runtime,
                operational_modes: final(self).operational_modes,
                setpoint_logs: final(self).setpoint_logs,
                name_overrides: final(self).name_overrides,
                scenario_knob_baseline: final(self).scenario_knob_baseline,
                timeout_tracker: final(self).timeout_tracker,
                scenario: ScenarioJournal {
                    energy_baseline: final(self).scenario.energy_baseline,
                    ..old(self).scenario
                },
                ..*old(self)
            }),
    {
        let was_present = position(&self.components, id).is_some();
        if was_present {
            self.structural_version = self.structural_version.wrapping_add(1);
        }
        proof {
            lemma_filtered_components(self.components@, id);
            lemma_filtered_baseline(self.scenario_knob_baseline@, id);
            crate::graph::law_removing_keeps_acyclic(
                self.connections@,
                crate::graph::avoids(id),
            );
        }
        self.drop_component(id);
        self.drop_edges_of(id);
        self.drop_knobs(id);
        self.histories.remove(&id);
        self.component_energy.remove(&id);
        self.scenario.energy_baseline.remove(&id);
        self.runtime.remove(&id);
        self.operational_modes.remove(&id);
        self.setpoint_logs.remove(&id);
        self.name_overrides.remove(&id);
        self.timeout_tracker.remove_component(id);
        proof {
            lemma_channels_stay_sound(*old(self), *self, id);
        }
        was_present
    }

    /// Removes every copy of an edge; true if there was one.
    pub fn disconnect(&mut self, parent: u64, child: u64) -> (r: bool)
        requires
            old(self).wf(),
        ensures
            final(self).wf(),
            r == old(self).connections@.contains((parent, child)),
            final(self).connections@ == crate::graph::without_edge(
                old(self).connections@,
                (parent, child),
            ),
            *final(self) == (MicrogridSite {
                connections: final(self).connections,
                structural_version: if r {
                    old(self).structural_version.wrapping_add(1)
                } else {
                    old(self).structural_version
                },
                ..*old(self)
            }),
    {
        let mut kept: Vec<Edge> = Vec::new();
        let mut removed = false;
        let mut i: usize = 0;
        while i < self.connections.len()
            invariant
                i <= self.connections@.len(),
                removed == (exists|k: int|
                    0 <= k < i && #[trigger] self.connections@[k] == (parent, child)),
                kept@ == self.connections@.take(i as int).filter(
                    crate::graph::differs((parent, child)),
                ),
            decreases self.connections@.len() - i,
        {
            let e = self.connections[i];
            proof {
                assert(self.connections@.take(i + 1) =~= self.connections@.take(i as int).push(e));
                self.connections@.take(i as int).lemma_filter_push(
                    e,
                    crate::graph::differs((parent, child)),
                );
            }
            if e.0 == parent && e.1 == child {
                assert(self.connections@[i as int] == (parent, child));
                removed = true;
            } else {
                kept.push(e);
            }
            i += 1;
        }
        proof {
            assert(self.connections@.take(self.connections@.len() as int) =~= self.connections@);
            crate::graph::law_removing_keeps_acyclic(
                self.connections@,
                crate::graph::differs((parent, child)),
            );
        }
        self.connections = kept;
        if removed {
            self.structural_version = self.structural_version.wrapping_add(1);
        }
        removed
    }

    /// Gives a component a name of its own to show.
    pub fn rename(&mut self, id: u64, name: String)
        requires
            old(self).wf(),
        ensures
            final(self).wf(),
            final(self).name_overrides@ == old(self).name_overrides@.insert(id, name),
            *final(self) == (MicrogridSite {
                name_overrides: final(self).name_overrides,
                structural_version: old(self).structural_version.wrapping_add(1),
                ..*old(self)
            }),
    {
        self.name_overrides.insert(id, name);
        self.structural_version = self.structural_version.wrapping_add(1);
    }

    /// The name that a component was given, if any.
    pub fn name_override(&self, id: u64) -> (r: Option<String>)
        ensures
            r is Some <==> self.name_overrides@.dom().contains(id),
            r matches Some(s) ==> s@ == self.name_overrides@[id]@,
    {
        match self.name_overrides.get(&id) {
            Some(s) => Some(copy_string(s)),
            None => None,
        }
    }

    /// The name to show: the given one, else the component's own.
    pub fn display_name(&self, id: u64) -> (r: Option<String>)
        ensures
            r is Some <==> self.name_overrides@.dom().contains(id) || self.lookup(id) is Some,
            r matches Some(s) ==> s@ == if self.name_overrides@.dom().contains(id) {
                self.name_overrides@[id]@
            } else {
                (self.lookup(id)->0).name_text()
            },
    {
        if let Some(s) = self.name_overrides.get(&id) {
            return Some(copy_string(s));
        }
        match position(&self.components, id) {
            Some(i) => Some(copy_string(self.components[i].name())),
            None => None,
        }
    }

    pub fn runtime_of(&self, id: u64) -> (r: ComponentRuntime)
        ensures
            r == self.runtime_state(id),
    {
        match self.runtime.get(&id) {
            Some(r) => *r,
            None => ComponentRuntime::default(),
        }
    }

    /// The runtime state after a change of health. An error shuts the command
    /// channel; recovery opens it where the declared mode takes commands, and
    /// clears whatever else was set on it. Standby leaves it alone.
    pub open spec fn with_health(
        before: ComponentRuntime,
        health: Health,
        mode: OperationalMode,
    ) -> ComponentRuntime {
        ComponentRuntime {
            health,
            command: match health {
                Health::Error => CommandMode::Error,
                Health::Good => if mode.controls() {
                    CommandMode::Normal
                } else {
                    CommandMode::Error
                },
                Health::Standby => before.command,
            },
            ..before
        }
    }

    pub fn set_health(&mut self, id: u64, health: Health)
        requires
            old(self).wf(),
        ensures
            final(self).wf(),
            final(self).runtime@ == old(self).runtime@.insert(
                id,
                Self::with_health(old(self).runtime_state(id), health, old(self).mode_of(id)),
            ),
            *final(self) == (MicrogridSite { runtime: final(self).runtime, ..*old(self) }),
    {
        let mode = self.operational_mode(id);
        let mut entry = self.runtime_of(id);
        entry.health = health;
        match health {
            Health::Error => {
                entry.command = CommandMode::Error;
            },
            Health::Good => {
                entry.command = if mode.accepts_control() {
                    CommandMode::Normal
                } else {
                    CommandMode::Error
                };
            },
            Health::Standby => {},
        }
        self.runtime.insert(id, entry);
        proof {
            lemma_channels_stay_sound(*old(self), *self, id);
        }
    }

    /// Sets what the telemetry stream does. A component whose mode streams
    /// nothing cannot be set to normal.
    pub fn set_telemetry_mode(&mut self, id: u64, mode: TelemetryMode) -> (r: Result<(), String>)
        requires
            old(self).wf(),
        ensures
            final(self).wf(),
            r is Err <==> mode == TelemetryMode::Normal && !old(self).mode_of(id).streams(),
            r matches Err(e) ==> *final(self) == *old(self) && e@ == mode_refusal(
                id,
                old(self).mode_of(id),
                ", which streams no telemetry; cannot set telemetry-mode to normal"@,
            ),
            r is Ok ==> final(self).runtime@ == old(self).runtime@.insert(
                id,
                ComponentRuntime { telemetry: mode, ..old(self).runtime_state(id) },
            ) && *final(self) == (MicrogridSite { runtime: final(self).runtime, ..*old(self) }),
    {
        if mode == TelemetryMode::Normal && !self.operational_mode(id).provides_telemetry() {
            return Err(
                refuse_mode(
                    id,
                    self.operational_mode(id),
                    ", which streams no telemetry; cannot set telemetry-mode to normal",
                ),
            );
        }
        let mut entry = self.runtime_of(id);
        entry.telemetry = mode;
        self.runtime.insert(id, entry);
        proof {
            lemma_channels_stay_sound(*old(self), *self, id);
        }
        Ok(())
    }

    /// Sets what happens to commands. A component whose mode takes none, or
    /// whose health is an error, cannot be set to normal.
    pub fn set_command_mode(&mut self, id: u64, mode: CommandMode) -> (r: Result<(), String>)
        requires
            old(self).wf(),
        ensures
            final(self).wf(),
            r is Err <==> mode == CommandMode::Normal && (!old(self).mode_of(id).controls() || old(
                self,
            ).runtime_state(id).health == Health::Error),
            r matches Err(e) ==> *final(self) == *old(self) && e@ == if !old(self).mode_of(
                id,
            ).controls() {
                mode_refusal(
                    id,
                    old(self).mode_of(id),
                    ", which accepts no commands; cannot set command-mode to normal"@,
                )
            } else {
                "component "@ + crate::text::decimal(id as nat)
                    + " has health error, which keeps the command channel shut; set health to ok first"@
            },
            r is Ok ==> final(self).runtime@ == old(self).runtime@.insert(
                id,
                ComponentRuntime { command: mode, ..old(self).runtime_state(id) },
            ) && *final(self) == (MicrogridSite { runtime: final(self).runtime, ..*old(self) }),
    {
        if mode == CommandMode::Normal && !self.operational_mode(id).accepts_control() {
            return Err(
                refuse_mode(
                    id,
                    self.operational_mode(id),
                    ", which accepts no commands; cannot set command-mode to normal",
                ),
            );
        }
        let mut entry = self.runtime_of(id);
        if mode == CommandMode::Normal && entry.health == Health::Error {
            let mut s = String::new();
            push_text(&mut s, "component ");
            push_decimal(&mut s, id as u128);
            push_text(
                &mut s,
                " has health error, which keeps the command channel shut; set health to ok first",
            );
            assert(s@ =~= "component "@ + crate::text::decimal(id as nat)
                + " has health error, which keeps the command channel shut; set health to ok first"@);
            return Err(s);
        }
        entry.command = mode;
        self.runtime.insert(id, entry);
        proof {
            lemma_channels_stay_sound(*old(self), *self, id);
        }
        Ok(())
    }

    pub fn operational_mode(&self, id: u64) -> (r: OperationalMode)
        ensures
            r == self.mode_of(id),
    {
        match self.operational_modes.get(&id) {
            Some(m) => *m,
            None => OperationalMode::Unspecified,
        }
    }

    /// The runtime state under a new declared mode: each channel is open where
    /// the mode has it, commands only without an error.
    pub open spec fn with_mode(
        before: ComponentRuntime,
        mode: OperationalMode,
    ) -> ComponentRuntime {
        ComponentRuntime {
            telemetry: if mode.streams() {
                TelemetryMode::Normal
            } else {
                TelemetryMode::Silent
            },
            command: if mode.controls() && before.health != Health::Error {
                CommandMode::Normal
            } else {
                CommandMode::Error
            },
            ..before
        }
    }

    /// Declares the mode of a registered component; the runtime state follows.
    pub fn set_operational_mode(&mut self, id: u64, mode: OperationalMode) -> (r: Result<
        (),
        String,
    >)
        requires
            old(self).wf(),
        ensures
            final(self).wf(),
            r is Err <==> old(self).lookup(id) is None,
            r matches Err(e) ==> *final(self) == *old(self) && e@ == "component "@
                + crate::text::decimal(id as nat) + " not found"@,
            r is Ok ==> {
                &&& final(self).operational_modes@ == old(self).operational_modes@.insert(id, mode)
                &&& final(self).runtime@ == old(self).runtime@.insert(
                    id,
                    Self::with_mode(old(self).runtime_state(id), mode),
                )
                &&& *final(self) == (MicrogridSite {
                    operational_modes: final(self).operational_modes,
                    runtime: final(self).runtime,
                    structural_version: old(self).structural_version.wrapping_add(1),
                    ..*old(self)
                })
            },
    {
        if position(&self.components, id).is_none() {
            let mut s = String::new();
            push_text(&mut s, "component ");
            push_decimal(&mut s, id as u128);
            push_text(&mut s, " not found");
            assert(s@ =~= "component "@ + crate::text::decimal(id as nat) + " not found"@);
            return Err(s);
        }
        self.operational_modes.insert(id, mode);
        let mut entry = self.runtime_of(id);
        entry.telemetry = if mode.provides_telemetry() {
            TelemetryMode::Normal
        } else {
            TelemetryMode::Silent
        };
        entry.command = if mode.accepts_control() && entry.health != Health::Error {
            CommandMode::Normal
        } else {
            CommandMode::Error
        };
        self.runtime.insert(id, entry);
        self.structural_version = self.structural_version.wrapping_add(1);
        proof {
            lemma_channels_stay_sound(*old(self), *self, id);
        }
        Ok(())
    }

    /// The log of a component; empty until a command arrives.
    pub open spec fn log_of(self, id: u64) -> Seq<SetpointEvent> {
        if self.setpoint_logs@.dom().contains(id) {
            self.setpoint_logs@[id].events@
        } else {
            Seq::empty()
        }
    }

    /// Appends a command to the component's log and tells the listeners.
    pub fn log_setpoint(&mut self, id: u64, event: SetpointEvent)
        requires
            old(self).wf(),
            event.ts.wf(),
        ensures
            final(self).wf(),
            final(self).log_of(id) == crate::setpoints::latest(
                old(self).log_of(id).push(event),
                SETPOINT_LOG_CAPACITY as nat,
            ),
            final(self).setpoint_logs@.dom() == old(self).setpoint_logs@.dom().insert(id),
            forall|other: u64|
                other != id ==> final(self).log_of(other) == #[trigger] old(self).log_of(other),
            crate::events::views(final(self).events@) == crate::events::views(
                old(self).events@,
            ).push(
                crate::events::SiteEventView::Setpoint {
                    id,
                    ts_ms: event.ts.spec_millis() as i64,
                    setpoint_kind: event.kind,
                    value: event.value,
                    accepted: event@.accepted(),
                    reason: event@.reason(),
                },
            ),
            *final(self) == (MicrogridSite {
                setpoint_logs: final(self).setpoint_logs,
                events: final(self).events,
                ..*old(self)
            }),
    {
        let ts_ms: i64 = event.ts.millis();
        let kind = event.kind;
        let value = event.value;
        let reason = event.rejection();
        let accepted = reason.is_none();
        let ghost told = crate::events::SiteEventView::Setpoint {
            id,
            ts_ms: event.ts.spec_millis() as i64,
            setpoint_kind: event.kind,
            value: event.value,
            accepted: event@.accepted(),
            reason: event@.reason(),
        };
        let mut log = match self.setpoint_logs.remove(&id) {
            Some(l) => l,
            None => SetpointLog::new(SETPOINT_LOG_CAPACITY),
        };
        log.push(event);
        self.setpoint_logs.insert(id, log);
        self.events.push(
            SiteEvent::Setpoint { id, ts_ms, setpoint_kind: kind, value, accepted, reason },
        );
        proof {
            assert(self.events@.last()@ == told);
            assert(crate::events::views(self.events@) =~= crate::events::views(
                old(self).events@,
            ).push(told));
            assert(self.setpoint_logs@.dom() =~= old(self).setpoint_logs@.dom().insert(id));
            assert(old(self).log_of(id).push(event) =~= (if old(
                self,
            ).setpoint_logs@.dom().contains(id) {
                old(self).setpoint_logs@[id].events@
            } else {
                Seq::empty()
            }).push(event));
        }
    }

    /// Copies of the commands of a component from `since` on.
    pub fn setpoints_window(&self, id: u64, since: Timestamp) -> (r: Vec<SetpointEvent>)
        requires
            self.wf(),
            since.wf(),
        ensures
            crate::setpoints::event_views(r@) == crate::setpoints::event_views(
                self.log_of(id),
            ).filter(crate::setpoints::recent(since)),
    {
        match self.setpoint_logs.get(&id) {
            Some(log) => log.window(since),
            None => {
                let none: Vec<SetpointEvent> = Vec::new();
                proof {
                    reveal(Seq::filter);
                    assert(crate::setpoints::event_views(none@)
                        =~= crate::setpoints::event_views(self.log_of(id)).filter(
                        crate::setpoints::recent(since),
                    ));
                }
                none
            },
        }
    }

    pub fn run_generation(&self) -> (r: u64)
        ensures
            r == self.run_generation,
    {
        self.run_generation
    }

    pub fn set_weather(&mut self, weather: Option<Weather>)
        requires
            old(self).wf(),
            weather matches Some(w) ==> w.wf(),
        ensures
            final(self).wf(),
            *final(self) == (MicrogridSite { weather, ..*old(self) }),
    {
        self.weather = weather;
    }

    /// The sunlight at `t`, `sine` being that of the sun's angle; none on a
    /// site without weather.
    pub fn weather_pct_at(&self, t: Timestamp, sine: Single) -> (r: Option<Single>)
        requires
            self.wf(),
            t.wf(),
        ensures
            r == self.sky(t, sine),
    {
        match &self.weather {
            Some(w) => Some(w.pct_at(t, sine)),
            None => None,
        }
    }

    pub open spec fn sky(self, t: Timestamp, sine: Single) -> Option<Single> {
        match self.weather {
            Some(w) => Some(w.sunlight(t, sine)),
            None => None,
        }
    }
}

impl Default for MicrogridSite {
    fn default() -> (r: Self)
        ensures
            r.wf(),
            r.is_empty(),
            r.next_id.next == FIRST_AUTO_ID,
            r.grid_state == GridState::nominal(),
            r.physics_tick_ms == 100,
            r.structural_version == 0,
            r.stream_cancel_epoch == 0,
            r.sample_lag_ms == 0,
            r.version == 0,
            r.run_generation == 0,
            r.events@.len() == 0,
            r.grid_frequency is None,
    {
        MicrogridSite::new()
    }
}

fn refuse_mode(id: u64, mode: OperationalMode, rest: &str) -> (r: String)
    ensures
        r@ == mode_refusal(id, mode, rest@),
{
    let mut s = String::new();
    push_text(&mut s, "component ");
    push_decimal(&mut s, id as u128);
    push_text(&mut s, " has operational mode ");
    push_text(&mut s, mode.as_str());
    push_text(&mut s, rest);
    assert(s@ =~= mode_refusal(id, mode, rest@));
    s
}

proof fn lemma_filtered_components(components: Seq<SimulatedComponent>, id: u64)
    ensures
        crate::flow::found(components.filter(other_than(id)), id) is None,
        (forall|i: int| 0 <= i < components.len() ==> (#[trigger] components[i]).wf()) ==> (forall|
            i: int,
        |
            0 <= i < components.filter(other_than(id)).len() ==> (
            #[trigger] components.filter(other_than(id))[i]).wf()),
{
    let kept = components.filter(other_than(id));
    assert forall|i: int| 0 <= i < kept.len() implies (#[trigger] kept[i]).spec_id() != id
        && components.contains(kept[i]) by {
        components.lemma_filter_pred(other_than(id), i);
        components.lemma_filter_contains_rev(other_than(id), kept[i]);
    }
    crate::flow::lemma_found(kept, id);
    if forall|i: int| 0 <= i < components.len() ==> (#[trigger] components[i]).wf() {
        assert forall|i: int| 0 <= i < kept.len() implies (#[trigger] kept[i]).wf() by {
            let k = choose|k: int| 0 <= k < components.len() && components[k] == kept[i];
            assert(components[k].wf());
        }
    }
}

proof fn lemma_filtered_baseline(entries: Seq<KnobEntry>, id: u64)
    requires
        is_baseline(entries),
    ensures
        is_baseline(entries.filter(knob_of_other(id))),
    decreases entries.len(),
{
    reveal(Seq::filter);
    let p = knob_of_other(id);
    if entries.len() > 0 {
        let rest = entries.drop_last();
        assert forall|i: int, j: int| 0 <= i < j < rest.len() implies (
        #[trigger] rest[i]).precedes((#[trigger] rest[j]).id, rest[j].kind) by {
            assert(entries[i].precedes(entries[j].id, entries[j].kind));
        }
        assert forall|i: int| 0 <= i < rest.len() implies (#[trigger] rest[i]).sound() by {
            assert(entries[i] == rest[i]);
        }
        lemma_filtered_baseline(rest, id);
        let kept = rest.filter(p);
        let last = entries.last();
        assert(entries[entries.len() - 1] == last);
        if p(last) {
            let all = kept.push(last);
            assert(entries.filter(p) == all);
            assert forall|i: int, j: int| 0 <= i < j < all.len() implies (
            #[trigger] all[i]).precedes((#[trigger] all[j]).id, all[j].kind) by {
                if j < kept.len() {
                    assert(kept[i].precedes(kept[j].id, kept[j].kind));
                } else {
                    rest.lemma_filter_contains_rev(p, kept[i]);
                    let k = choose|k: int| 0 <= k < rest.len() && rest[k] == kept[i];
                    assert(entries[k].precedes(
                        entries[entries.len() - 1].id,
                        entries[entries.len() - 1].kind,
                    ));
                }
            }
            assert forall|i: int| 0 <= i < all.len() implies (#[trigger] all[i]).sound() by {
                if i < kept.len() {
                    assert(all[i] == kept[i]);
                }
            }
        } else {
            assert(entries.filter(p) == kept);
        }
    }
}

/// There is at most one main meter.
pub proof fn law_main_meter_is_unique(site: MicrogridSite, a: u64, b: u64)
    requires
        site.is_main_meter(a),
        site.is_main_meter(b),
    ensures
        a == b,
{
    let ga = choose|grid: u64|
        {
            &&& #[trigger] site.is_grid(grid)
            &&& forall|other: u64| #[trigger] site.is_grid(other) ==> other == grid
            &&& site.hangs_on(a, grid)
            &&& forall|child: u64| #[trigger] site.hangs_on(child, grid) ==> child == a
            &&& (site.lookup(a)->0).spec_category() == Category::Meter
        };
    let gb = choose|grid: u64|
        {
            &&& #[trigger] site.is_grid(grid)
            &&& forall|other: u64| #[trigger] site.is_grid(other) ==> other == grid
            &&& site.hangs_on(b, grid)
            &&& forall|child: u64| #[trigger] site.hangs_on(child, grid) ==> child == b
            &&& (site.lookup(b)->0).spec_category() == Category::Meter
        };
    assert(ga == gb);
    assert(site.hangs_on(a, ga) && site.hangs_on(b, ga));
}

/// An edge is visible or hidden, never both.
pub proof fn law_edges_are_visible_or_hidden(components: Seq<SimulatedComponent>, e: Edge)
    ensures
        visible_edge(components)(e) == !hidden_edge(components)(e),
{
}

/// An errored device takes no commands, whatever is declared, and neither
/// recovery nor a mode opens a channel that the declared mode denies.
pub proof fn law_commands_need_health_and_mode(
    before: ComponentRuntime,
    mode: OperationalMode,
    health: Health,
)
    ensures
        MicrogridSite::with_health(before, Health::Error, mode).command == CommandMode::Error,
        !mode.controls() ==> MicrogridSite::with_health(before, Health::Good, mode).command
            == CommandMode::Error,
        before.health == Health::Error || !mode.controls() ==> MicrogridSite::with_mode(
            before,
            mode,
        ).command == CommandMode::Error,
        MicrogridSite::with_health(before, Health::Standby, mode).command == before.command,
{
}

/// At every time an errored device takes no commands, and neither commands nor
/// telemetry pass a channel that the declared mode denies.
pub proof fn law_channels_stay_shut(site: MicrogridSite, id: u64)
    requires
        site.wf(),
    ensures
        site.runtime_state(id).health == Health::Error ==> site.runtime_state(id).command
            != CommandMode::Normal,
        !site.mode_of(id).controls() ==> site.runtime_state(id).command != CommandMode::Normal,
        !site.mode_of(id).streams() ==> site.runtime_state(id).telemetry != TelemetryMode::Normal,
{
}

/// A pinned id is never handed out afterwards, below the ceiling.
pub proof fn law_reserved_id_is_passed(alloc: IdAllocator, id: u64)
    requires
        id < u64::MAX,
    ensures
        alloc.past(id).next > id,
        alloc.past(id).next >= alloc.next,
{
}

/// A healthy device takes commands where its mode has them, and a mode opens
/// and shuts the telemetry; the health leaves the telemetry alone, and the mode
/// the health.
pub proof fn law_healthy_devices_follow_their_mode(
    before: ComponentRuntime,
    mode: OperationalMode,
    health: Health,
)
    ensures
        mode.controls() ==> MicrogridSite::with_health(before, Health::Good, mode).command
            == CommandMode::Normal,
        mode.controls() && before.health != Health::Error ==> MicrogridSite::with_mode(
            before,
            mode,
        ).command == CommandMode::Normal,
        MicrogridSite::with_mode(before, mode).telemetry == if mode.streams() {
            TelemetryMode::Normal
        } else {
            TelemetryMode::Silent
        },
        MicrogridSite::with_mode(before, mode).health == before.health,
        MicrogridSite::with_health(before, health, mode).health == health,
        MicrogridSite::with_health(before, health, mode).telemetry == before.telemetry,
{
}

} // verus!
