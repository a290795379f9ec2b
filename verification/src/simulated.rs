//! The components of a site behind one type.

use crate::axis::PowerAxis;
use crate::battery::Battery;
use crate::bounds::{Bounds, VecBounds};
use crate::component::{
    AugmentError, Category, KnobKind, KnobSnapshot, ReactiveReading, ScalarReading, SetpointError,
};
use crate::dynamic_scalar::{DynamicScalar, ScalarView};
use crate::ev_charger::EvCharger;
use crate::grid::Grid;
use crate::kwargs::{KwValue, Kwarg};
use crate::marker::Marker;
use crate::meter::{Meter, ReactiveView};
use crate::reactive::ReactiveCapability;
use crate::runtime::Health;
use crate::single::{Single, ONE, ZERO};
use crate::solar_inverter::{SolarInverter, SunlightView};
use crate::steam_boiler::SteamBoiler;
use crate::text::{push_decimal, push_text};
use crate::time::{Span, Timestamp};
use crate::timeout_tracker::SetpointAxis;
use vstd::prelude::*;

verus! {

/// A component of a site.
#[derive(Debug)]
pub enum SimulatedComponent {
    Grid(Grid),
    Meter(Meter),
    Battery(Battery),
    Solar(SolarInverter),
    EvCharger(EvCharger),
    SteamBoiler(SteamBoiler),
    Marker(Marker),
}

/// A captured knob that can be put back: a lag in it is a span.
pub open spec fn sound_snapshot(snap: KnobSnapshot) -> bool {
    snap matches KnobSnapshot::Sunlight(s) ==> (s@ matches SunlightView::Follow {
        lag,
        jitter_pct,
        cached,
    } ==> lag.wf())
}

/// The kind of knob that a state was captured of.
pub open spec fn kind_of(snap: KnobSnapshot) -> KnobKind {
    match snap {
        KnobSnapshot::Sunlight(s) => KnobKind::Sunlight,
        KnobSnapshot::BoilerDemand(s) => KnobKind::BoilerDemand,
        KnobSnapshot::MeterActive { source, constructed } => KnobKind::MeterPower,
        KnobSnapshot::MeterReactive { source, constructed } => KnobKind::MeterReactive,
        KnobSnapshot::Ev(ev) => KnobKind::Ev,
    }
}

impl SimulatedComponent {
    pub open spec fn wf(self) -> bool {
        match self {
            SimulatedComponent::Grid(c) => true,
            SimulatedComponent::Meter(c) => c.wf(),
            SimulatedComponent::Battery(c) => c.wf(),
            SimulatedComponent::Solar(c) => c.wf(),
            SimulatedComponent::EvCharger(c) => c.wf(),
            SimulatedComponent::SteamBoiler(c) => c.wf(),
            SimulatedComponent::Marker(c) => c.wf(),
        }
    }

    pub open spec fn spec_id(self) -> u64 {
        match self {
            SimulatedComponent::Grid(c) => c.id,
            SimulatedComponent::Meter(c) => c.id,
            SimulatedComponent::Battery(c) => c.id,
            SimulatedComponent::Solar(c) => c.id,
            SimulatedComponent::EvCharger(c) => c.id,
            SimulatedComponent::SteamBoiler(c) => c.id,
            SimulatedComponent::Marker(c) => c.id,
        }
    }

    pub open spec fn spec_category(self) -> Category {
        match self {
            SimulatedComponent::Grid(c) => Category::Grid,
            SimulatedComponent::Meter(c) => Category::Meter,
            SimulatedComponent::Battery(c) => Category::Battery,
            SimulatedComponent::Solar(c) => Category::Inverter,
            SimulatedComponent::EvCharger(c) => Category::EvCharger,
            SimulatedComponent::SteamBoiler(c) => Category::SteamBoiler,
            SimulatedComponent::Marker(c) => c.category,
        }
    }

    pub open spec fn name_text(self) -> Seq<char> {
        match self {
            SimulatedComponent::Grid(c) => c.name@,
            SimulatedComponent::Meter(c) => c.name@,
            SimulatedComponent::Battery(c) => c.name@,
            SimulatedComponent::Solar(c) => c.name@,
            SimulatedComponent::EvCharger(c) => c.name@,
            SimulatedComponent::SteamBoiler(c) => c.name@,
            SimulatedComponent::Marker(c) => c.name@,
        }
    }

    /// Only a meter can be hidden.
    pub open spec fn hidden(self) -> bool {
        self matches SimulatedComponent::Meter(c) && c.hidden
    }

    pub fn id(&self) -> (r: u64)
        ensures
            r == self.spec_id(),
    {
        match self {
            SimulatedComponent::Grid(c) => c.id,
            SimulatedComponent::Meter(c) => c.id,
            SimulatedComponent::Battery(c) => c.id,
            SimulatedComponent::Solar(c) => c.id,
            SimulatedComponent::EvCharger(c) => c.id,
            SimulatedComponent::SteamBoiler(c) => c.id,
            SimulatedComponent::Marker(c) => c.id,
        }
    }

    pub fn category(&self) -> (r: Category)
        ensures
            r == self.spec_category(),
    {
        match self {
            SimulatedComponent::Grid(_) => Category::Grid,
            SimulatedComponent::Meter(_) => Category::Meter,
            SimulatedComponent::Battery(_) => Category::Battery,
            SimulatedComponent::Solar(_) => Category::Inverter,
            SimulatedComponent::EvCharger(_) => Category::EvCharger,
            SimulatedComponent::SteamBoiler(_) => Category::SteamBoiler,
            SimulatedComponent::Marker(c) => c.category,
        }
    }

    pub fn name(&self) -> (r: &String)
        ensures
            r@ == self.name_text(),
    {
        match self {
            SimulatedComponent::Grid(c) => &c.name,
            SimulatedComponent::Meter(c) => &c.name,
            SimulatedComponent::Battery(c) => &c.name,
            SimulatedComponent::Solar(c) => &c.name,
            SimulatedComponent::EvCharger(c) => &c.name,
            SimulatedComponent::SteamBoiler(c) => &c.name,
            SimulatedComponent::Marker(c) => &c.name,
        }
    }

    /// The label of the kind within its category, where there is one.
    pub fn subtype(&self) -> (r: Option<&'static str>)
        ensures
            r is Some <==> self is Solar,
            r matches Some(t) ==> t@ == "solar"@,
    {
        match self {
            SimulatedComponent::Solar(_) => Some("solar"),
            _ => None,
        }
    }

    pub fn is_hidden(&self) -> (r: bool)
        ensures
            r == self.hidden(),
    {
        match self {
            SimulatedComponent::Meter(c) => c.hidden,
            _ => false,
        }
    }

    pub open spec fn spec_interval(self) -> Span {
        match self {
            SimulatedComponent::Grid(c) => Span { secs: 1, nanos: 0 },
            SimulatedComponent::Meter(c) => c.interval,
            SimulatedComponent::Battery(c) => c.interval,
            SimulatedComponent::Solar(c) => c.interval,
            SimulatedComponent::EvCharger(c) => c.interval,
            SimulatedComponent::SteamBoiler(c) => c.interval,
            SimulatedComponent::Marker(c) => Span { secs: 1, nanos: 0 },
        }
    }

    /// The interval between two samples of the telemetry stream.
    pub fn stream_interval(&self) -> (r: Span)
        ensures
            r == self.spec_interval(),
    {
        match self {
            SimulatedComponent::Grid(_) => Span { secs: 1, nanos: 0 },
            SimulatedComponent::Meter(c) => c.interval,
            SimulatedComponent::Battery(c) => c.interval,
            SimulatedComponent::Solar(c) => c.interval,
            SimulatedComponent::EvCharger(c) => c.interval,
            SimulatedComponent::SteamBoiler(c) => c.interval,
            SimulatedComponent::Marker(_) => Span { secs: 1, nanos: 0 },
        }
    }

    pub open spec fn spec_jitter(self) -> Single {
        match self {
            SimulatedComponent::Grid(c) => c.stream_jitter_pct,
            SimulatedComponent::Meter(c) => c.stream_jitter_pct,
            SimulatedComponent::Battery(c) => c.cfg.stream_jitter_pct,
            SimulatedComponent::Solar(c) => c.cfg.stream_jitter_pct,
            SimulatedComponent::EvCharger(c) => c.cfg.stream_jitter_pct,
            SimulatedComponent::SteamBoiler(c) => c.cfg.stream_jitter_pct,
            SimulatedComponent::Marker(c) => c.stream_jitter_pct,
        }
    }

    /// The jitter of the stream interval, in percent.
    pub fn stream_jitter_pct(&self) -> (r: Single)
        ensures
            r == self.spec_jitter(),
    {
        match self {
            SimulatedComponent::Grid(c) => c.stream_jitter_pct,
            SimulatedComponent::Meter(c) => c.stream_jitter_pct,
            SimulatedComponent::Battery(c) => c.cfg.stream_jitter_pct,
            SimulatedComponent::Solar(c) => c.cfg.stream_jitter_pct,
            SimulatedComponent::EvCharger(c) => c.cfg.stream_jitter_pct,
            SimulatedComponent::SteamBoiler(c) => c.cfg.stream_jitter_pct,
            SimulatedComponent::Marker(c) => c.stream_jitter_pct,
        }
    }

    /// `after` is `before` one tick later.
    pub open spec fn is_tick(
        before: SimulatedComponent,
        after: SimulatedComponent,
        health: Health,
        now: Timestamp,
        dt: Span,
    ) -> bool {
        match (before, after) {
            (SimulatedComponent::Battery(b), SimulatedComponent::Battery(a)) => a == Battery {
                state: b.state.ticked(b.cfg, dt),
                ..b
            },
            (SimulatedComponent::Solar(b), SimulatedComponent::Solar(a)) => SolarInverter::is_tick(
                b,
                a,
                health,
                now,
                dt,
            ),
            (
                SimulatedComponent::EvCharger(b),
                SimulatedComponent::EvCharger(a),
            ) => EvCharger::is_tick(b, a, health, now, dt),
            (
                SimulatedComponent::SteamBoiler(b),
                SimulatedComponent::SteamBoiler(a),
            ) => SteamBoiler::is_tick(b, a, now, dt),
            (b, a) => a == b,
        }
    }

    /// Moves the component on by `dt`; `health` is its own.
    pub fn tick(&mut self, health: Health, now: Timestamp, dt: Span)
        requires
            old(self).wf(),
            now.wf(),
        ensures
            final(self).wf(),
            final(self).spec_id() == old(self).spec_id(),
            Self::is_tick(*old(self), *final(self), health, now, dt),
    {
        match self {
            SimulatedComponent::Battery(c) => c.tick(dt),
            SimulatedComponent::Solar(c) => c.tick(health, now, dt),
            SimulatedComponent::EvCharger(c) => c.tick(health, now, dt),
            SimulatedComponent::SteamBoiler(c) => c.tick(now, dt),
            _ => {},
        }
    }

    /// The active power at a component that measures no others.
    pub open spec fn own_power(self) -> Single {
        match self {
            SimulatedComponent::Battery(c) => c.state.power_w,
            SimulatedComponent::Solar(c) => c.active.ramp.actual,
            SimulatedComponent::EvCharger(c) => c.draw_w,
            SimulatedComponent::SteamBoiler(c) => c.active.ramp.actual,
            _ => Single::lit(ZERO),
        }
    }

    /// The reactive power at a component that measures no others.
    pub open spec fn own_reactive(self) -> Single {
        match self {
            SimulatedComponent::Battery(c) => c.state.reactive_var,
            SimulatedComponent::Solar(c) => c.reactive.published,
            _ => Single::lit(ZERO),
        }
    }

    pub(crate) fn own_power_w(&self) -> (r: Single)
        ensures
            r == self.own_power(),
    {
        match self {
            SimulatedComponent::Battery(c) => c.state.power_w,
            SimulatedComponent::Solar(c) => c.active.actual(),
            SimulatedComponent::EvCharger(c) => c.draw_w,
            SimulatedComponent::SteamBoiler(c) => c.active.actual(),
            _ => Single::from_bits(ZERO),
        }
    }

    pub(crate) fn own_reactive_var(&self) -> (r: Single)
        ensures
            r == self.own_reactive(),
    {
        match self {
            SimulatedComponent::Battery(c) => c.state.reactive_var,
            SimulatedComponent::Solar(c) => c.reactive.published(),
            _ => Single::from_bits(ZERO),
        }
    }

    /// `r` answers a command of active power. A component without such an
    /// axis refuses it as unsupported.
    pub open spec fn is_active_answer(
        before: SimulatedComponent,
        after: SimulatedComponent,
        power_w: Single,
        now: Timestamp,
        r: Result<(), SetpointError>,
    ) -> bool {
        match (before, after) {
            (SimulatedComponent::Solar(b), SimulatedComponent::Solar(a)) => {
                &&& PowerAxis::is_command_answer(
                    b.active,
                    a.active,
                    power_w,
                    now,
                    Single::lit(ZERO),
                    r,
                )
                &&& a == SolarInverter { active: a.active, ..b }
            },
            (SimulatedComponent::EvCharger(b), SimulatedComponent::EvCharger(a)) => {
                &&& PowerAxis::is_command_answer(
                    b.active,
                    a.active,
                    power_w,
                    now,
                    Single::lit(ZERO),
                    r,
                )
                &&& a == EvCharger { active: a.active, ..b }
            },
            (SimulatedComponent::SteamBoiler(b), SimulatedComponent::SteamBoiler(a)) => {
                &&& PowerAxis::is_command_answer(
                    b.active,
                    a.active,
                    power_w,
                    now,
                    Single::lit(ZERO),
                    r,
                )
                &&& a == SteamBoiler { active: a.active, ..b }
            },
            (b, a) => r == Err::<(), SetpointError>(SetpointError::Unsupported) && a == b,
        }
    }

    pub fn set_active_setpoint(&mut self, power_w: Single, now: Timestamp) -> (r: Result<
        (),
        SetpointError,
    >)
        requires
            old(self).wf(),
            now.wf(),
        ensures
            final(self).wf(),
            final(self).spec_id() == old(self).spec_id(),
            Self::is_active_answer(*old(self), *final(self), power_w, now, r),
    {
        match self {
            SimulatedComponent::Solar(c) => c.set_active_setpoint(power_w, now),
            SimulatedComponent::EvCharger(c) => c.set_active_setpoint(power_w, now),
            SimulatedComponent::SteamBoiler(c) => c.set_active_setpoint(power_w, now),
            _ => Err(SetpointError::Unsupported),
        }
    }

    /// `r` answers a command of reactive power.
    pub open spec fn is_reactive_answer(
        before: SimulatedComponent,
        after: SimulatedComponent,
        vars: Single,
        now: Timestamp,
        r: Result<(), SetpointError>,
    ) -> bool {
        match (before, after) {
            (SimulatedComponent::Solar(b), SimulatedComponent::Solar(a)) => {
                &&& PowerAxis::is_command_answer(
                    b.reactive,
                    a.reactive,
                    vars,
                    now,
                    b.active.ramp.actual,
                    r,
                )
                &&& a == SolarInverter { reactive: a.reactive, ..b }
            },
            (b, a) => r == Err::<(), SetpointError>(SetpointError::Unsupported) && a == b,
        }
    }

    pub fn set_reactive_setpoint(&mut self, vars: Single, now: Timestamp) -> (r: Result<
        (),
        SetpointError,
    >)
        requires
            old(self).wf(),
            now.wf(),
        ensures
            final(self).wf(),
            final(self).spec_id() == old(self).spec_id(),
            Self::is_reactive_answer(*old(self), *final(self), vars, now, r),
    {
        match self {
            SimulatedComponent::Solar(c) => c.set_reactive_setpoint(vars, now),
            _ => Err(SetpointError::Unsupported),
        }
    }

    /// The component with all its commands released.
    pub open spec fn released(self) -> SimulatedComponent {
        match self {
            SimulatedComponent::Solar(c) => SimulatedComponent::Solar(
                SolarInverter {
                    active: c.active.reset_to(c.avail()),
                    reactive: c.reactive.reset_to(Single::lit(ZERO)),
                    ..c
                },
            ),
            SimulatedComponent::EvCharger(c) => SimulatedComponent::EvCharger(
                EvCharger { active: c.active.reset_to(c.cfg.idle_offer()), ..c },
            ),
            SimulatedComponent::SteamBoiler(c) => SimulatedComponent::SteamBoiler(
                SteamBoiler { active: c.active.tripped(), ..c },
            ),
            c => c,
        }
    }

    /// The component with one axis released. A component with a single axis
    /// releases that one.
    pub open spec fn released_axis(self, axis: SetpointAxis) -> SimulatedComponent {
        match self {
            SimulatedComponent::Solar(c) => SimulatedComponent::Solar(
                match axis {
                    SetpointAxis::Active => SolarInverter {
                        active: c.active.reset_to(c.avail()),
                        ..c
                    },
                    SetpointAxis::Reactive => SolarInverter {
                        reactive: c.reactive.reset_to(Single::lit(ZERO)),
                        ..c
                    },
                },
            ),
            c => c.released(),
        }
    }

    pub fn reset_setpoint(&mut self)
        requires
            old(self).wf(),
        ensures
            final(self).wf(),
            *final(self) == old(self).released(),
    {
        match self {
            SimulatedComponent::Solar(c) => c.reset_setpoint(),
            SimulatedComponent::EvCharger(c) => c.reset_setpoint(),
            SimulatedComponent::SteamBoiler(c) => c.reset_setpoint(),
            _ => {},
        }
    }

    pub fn reset_setpoint_axis(&mut self, axis: SetpointAxis)
        requires
            old(self).wf(),
        ensures
            final(self).wf(),
            *final(self) == old(self).released_axis(axis),
    {
        match self {
            SimulatedComponent::Solar(c) => c.reset_setpoint_axis(axis),
            SimulatedComponent::EvCharger(c) => c.reset_setpoint(),
            SimulatedComponent::SteamBoiler(c) => c.reset_setpoint(),
            _ => {},
        }
    }

    pub open spec fn spec_rated(self) -> Option<(Single, Single)> {
        match self {
            SimulatedComponent::Grid(c) => c.rated_active_bounds,
            SimulatedComponent::Battery(c) => Some((c.cfg.rated_lower_w, c.cfg.rated_upper_w)),
            SimulatedComponent::Solar(c) => Some((c.cfg.rated_lower_w, c.cfg.rated_upper_w)),
            SimulatedComponent::EvCharger(c) => Some((c.cfg.rated_lower_w, c.cfg.rated_upper_w)),
            SimulatedComponent::SteamBoiler(c) => Some((c.cfg.rated_lower_w, c.cfg.rated_upper_w)),
            _ => None,
        }
    }

    /// The rated bounds of active power.
    pub fn rated_active_bounds(&self) -> (r: Option<(Single, Single)>)
        ensures
            r == self.spec_rated(),
    {
        match self {
            SimulatedComponent::Grid(c) => c.rated_active_bounds,
            SimulatedComponent::Battery(c) => Some((c.cfg.rated_lower_w, c.cfg.rated_upper_w)),
            SimulatedComponent::Solar(c) => Some((c.cfg.rated_lower_w, c.cfg.rated_upper_w)),
            SimulatedComponent::EvCharger(c) => Some((c.cfg.rated_lower_w, c.cfg.rated_upper_w)),
            SimulatedComponent::SteamBoiler(c) => Some((c.cfg.rated_lower_w, c.cfg.rated_upper_w)),
            _ => None,
        }
    }

    /// The envelope of active power in force at `now`, where the component
    /// has one.
    pub open spec fn active_envelope(self, now: Timestamp) -> Option<Seq<Bounds>> {
        match self {
            SimulatedComponent::Grid(c) => match c.rated_active_bounds {
                Some((l, u)) => Some(crate::bounds::one_band(l, u)),
                None => None,
            },
            SimulatedComponent::Battery(c) => Some(
                crate::bounds::one_band(c.state.effective_lower_w, c.state.effective_upper_w),
            ),
            SimulatedComponent::Solar(c) => Some(c.active.augs.effective_spec(now)),
            SimulatedComponent::EvCharger(c) => Some(c.active.augs.effective_spec(now)),
            SimulatedComponent::SteamBoiler(c) => Some(c.allotment(now)),
            _ => None,
        }
    }

    pub fn effective_active_bounds(&self, now: Timestamp) -> (r: Option<VecBounds>)
        requires
            self.wf(),
            now.wf(),
        ensures
            crate::component::bands_of(r) == self.active_envelope(now),
    {
        match self {
            SimulatedComponent::Grid(c) => match c.rated_active_bounds {
                Some((l, u)) => Some(VecBounds::single(l, u)),
                None => None,
            },
            SimulatedComponent::Battery(c) => Some(c.effective_active_bounds()),
            SimulatedComponent::Solar(c) => Some(c.active.effective_static_at(now)),
            SimulatedComponent::EvCharger(c) => Some(c.effective_active_bounds(now)),
            SimulatedComponent::SteamBoiler(c) => Some(c.effective_active_bounds(now)),
            _ => None,
        }
    }

    /// The envelope of reactive power at `now`; without bands where there is
    /// no headroom.
    pub open spec fn raw_reactive_envelope(self, now: Timestamp) -> Option<Seq<Bounds>> {
        match self {
            SimulatedComponent::Solar(c) => Some(c.reactive_envelope(now)),
            _ => None,
        }
    }

    /// That envelope as it is reported, no headroom as a band at zero.
    pub open spec fn shown_reactive_envelope(self, now: Timestamp) -> Option<Seq<Bounds>> {
        match self {
            SimulatedComponent::Solar(c) => Some(c.reported_reactive(now)),
            _ => None,
        }
    }

    pub fn reactive_bounds_raw(&self, now: Timestamp) -> (r: Option<VecBounds>)
        requires
            self.wf(),
            now.wf(),
        ensures
            crate::component::bands_of(r) == self.raw_reactive_envelope(now),
    {
        match self {
            SimulatedComponent::Solar(c) => Some(c.reactive_bounds_raw(now)),
            _ => None,
        }
    }

    pub fn reactive_bounds(&self, now: Timestamp) -> (r: Option<VecBounds>)
        requires
            self.wf(),
            now.wf(),
        ensures
            crate::component::bands_of(r) == self.shown_reactive_envelope(now),
    {
        match self.reactive_bounds_raw(now) {
            Some(b) => Some(b.or_zero_band()),
            None => None,
        }
    }

    /// `r` answers a request to augment at a component without an axis:
    /// nothing is stored, and bounds disjoint from the envelope it shows are
    /// refused.
    pub open spec fn is_plain_augment_answer(
        envelope: Option<Seq<Bounds>>,
        bounds: Seq<Bounds>,
        r: Result<(), VecBounds>,
    ) -> bool {
        &&& r is Err <==> envelope is Some && crate::bounds::bands_meet(
            envelope->0,
            bounds,
        ).len() == 0
        &&& r matches Err(e) ==> e@ == envelope->0
    }

    pub open spec fn is_active_augment_answer(
        before: SimulatedComponent,
        after: SimulatedComponent,
        ts: Timestamp,
        bounds: VecBounds,
        lifetime: Span,
        r: Result<(), VecBounds>,
    ) -> bool {
        match (before, after) {
            (SimulatedComponent::Solar(b), SimulatedComponent::Solar(a)) => {
                &&& PowerAxis::is_augment_answer(
                    b.active,
                    a.active,
                    ts,
                    bounds,
                    lifetime,
                    b.active.envelope_of(ts, Single::lit(ZERO), None),
                    r,
                )
                &&& a == SolarInverter { active: a.active, ..b }
            },
            (SimulatedComponent::EvCharger(b), SimulatedComponent::EvCharger(a)) => {
                &&& PowerAxis::is_augment_answer(
                    b.active,
                    a.active,
                    ts,
                    bounds,
                    lifetime,
                    b.active.envelope_of(ts, Single::lit(ZERO), None),
                    r,
                )
                &&& a == EvCharger { active: a.active, ..b }
            },
            (SimulatedComponent::SteamBoiler(b), SimulatedComponent::SteamBoiler(a)) => {
                &&& PowerAxis::is_augment_answer(
                    b.active,
                    a.active,
                    ts,
                    bounds,
                    lifetime,
                    b.active.envelope_of(
                        ts,
                        Single::lit(ZERO),
                        Some(crate::bounds::one_band(Single::lit(ZERO), b.effective_upper_w)),
                    ),
                    r,
                )
                &&& a == SteamBoiler { active: a.active, ..b }
            },
            (b, a) => a == b && Self::is_plain_augment_answer(b.active_envelope(ts), bounds@, r),
        }
    }

    pub fn try_augment_active_bounds(
        &mut self,
        ts: Timestamp,
        bounds: VecBounds,
        lifetime: Span,
    ) -> (r: Result<(), VecBounds>)
        requires
            old(self).wf(),
            ts.wf(),
            lifetime.wf(),
        ensures
            final(self).wf(),
            final(self).spec_id() == old(self).spec_id(),
            Self::is_active_augment_answer(*old(self), *final(self), ts, bounds, lifetime, r),
    {
        match self {
            SimulatedComponent::Solar(c) => c.try_augment_active_bounds(ts, bounds, lifetime),
            SimulatedComponent::EvCharger(c) => match c.try_augment_active_bounds(
                ts,
                bounds,
                lifetime,
            ) {
                Ok(()) => Ok(()),
                Err(AugmentError::Disjoint(envelope)) => Err(envelope),
            },
            SimulatedComponent::SteamBoiler(c) => c.try_augment_active_bounds(
                ts,
                bounds,
                lifetime,
            ),
            _ => {
                let shown = self.effective_active_bounds(ts);
                augment_verdict(shown, &bounds)
            },
        }
    }

    pub open spec fn is_reactive_augment_answer(
        before: SimulatedComponent,
        after: SimulatedComponent,
        ts: Timestamp,
        bounds: VecBounds,
        lifetime: Span,
        r: Result<(), VecBounds>,
    ) -> bool {
        match (before, after) {
            (SimulatedComponent::Solar(b), SimulatedComponent::Solar(a)) => {
                &&& PowerAxis::is_augment_answer(
                    b.reactive,
                    a.reactive,
                    ts,
                    bounds,
                    lifetime,
                    b.reactive_envelope(ts),
                    r,
                )
                &&& a == SolarInverter { reactive: a.reactive, ..b }
            },
            (b, a) => a == b && r is Ok,
        }
    }

    /// Augments the bounds of reactive power. A component without that axis
    /// acknowledges and does nothing.
    pub fn try_augment_reactive_bounds(
        &mut self,
        ts: Timestamp,
        bounds: VecBounds,
        lifetime: Span,
    ) -> (r: Result<(), VecBounds>)
        requires
            old(self).wf(),
            ts.wf(),
            lifetime.wf(),
        ensures
            final(self).wf(),
            final(self).spec_id() == old(self).spec_id(),
            Self::is_reactive_augment_answer(*old(self), *final(self), ts, bounds, lifetime, r),
    {
        match self {
            SimulatedComponent::Solar(c) => c.try_augment_reactive_bounds(ts, bounds, lifetime),
            _ => {
                let raw = self.reactive_bounds_raw(ts);
                augment_verdict(raw, &bounds)
            },
        }
    }

    pub open spec fn live_augmentation(self, axis: SetpointAxis, now: Timestamp) -> bool {
        match self {
            SimulatedComponent::Solar(c) => match axis {
                SetpointAxis::Active => c.active.augs.any_live(now),
                SetpointAxis::Reactive => c.reactive.augs.any_live(now),
            },
            SimulatedComponent::EvCharger(c) => axis is Active && c.active.augs.any_live(now),
            SimulatedComponent::SteamBoiler(c) => axis is Active && c.active.augs.any_live(now),
            _ => false,
        }
    }

    pub fn augmentation_active(&self, axis: SetpointAxis, now: Timestamp) -> (r: bool)
        requires
            self.wf(),
            now.wf(),
        ensures
            r == self.live_augmentation(axis, now),
    {
        match self {
            SimulatedComponent::Solar(c) => c.augmentation_active(axis, now),
            SimulatedComponent::EvCharger(c) => c.augmentation_active(axis, now),
            SimulatedComponent::SteamBoiler(c) => c.augmentation_active(axis, now),
            _ => false,
        }
    }

    /// The limits of reactive power that do not depend on the active power.
    pub fn reactive_capability(&self) -> (r: Option<ReactiveCapability>)
        ensures
            r == match *self {
                SimulatedComponent::Solar(c) => c.reactive.caps,
                _ => None,
            },
    {
        match self {
            SimulatedComponent::Solar(c) => c.reactive.capability(),
            _ => None,
        }
    }

    pub fn set_reactive_pf_limit(&mut self, pf: Option<Single>)
        requires
            old(self).wf(),
        ensures
            final(self).wf(),
            match (*old(self), *final(self)) {
                (SimulatedComponent::Solar(b), SimulatedComponent::Solar(a)) => a
                    == SolarInverter {
                    reactive: PowerAxis {
                        caps: match b.reactive.caps {
                            Some(c) => Some(ReactiveCapability { pf_limit: pf, ..c }),
                            None => None,
                        },
                        ..b.reactive
                    },
                    ..b
                },
                (b, a) => a == b,
            },
    {
        match self {
            SimulatedComponent::Solar(c) => c.reactive.set_pf_limit(pf),
            _ => {},
        }
    }

    pub fn set_reactive_apparent_va(&mut self, va: Option<Single>)
        requires
            old(self).wf(),
        ensures
            final(self).wf(),
            match (*old(self), *final(self)) {
                (SimulatedComponent::Solar(b), SimulatedComponent::Solar(a)) => a
                    == SolarInverter {
                    reactive: PowerAxis {
                        caps: match b.reactive.caps {
                            Some(c) => Some(ReactiveCapability { apparent_va: va, ..c }),
                            None => None,
                        },
                        ..b.reactive
                    },
                    ..b
                },
                (b, a) => a == b,
            },
    {
        match self {
            SimulatedComponent::Solar(c) => c.reactive.set_apparent_va(va),
            _ => {},
        }
    }

    pub fn rated_fuse_current(&self) -> (r: Option<u32>)
        ensures
            r == match *self {
                SimulatedComponent::Grid(c) => Some(c.rated_fuse_current),
                _ => None,
            },
    {
        match self {
            SimulatedComponent::Grid(c) => Some(c.rated_fuse_current),
            _ => None,
        }
    }

    /// Pushes DC power onto a battery; nothing happens elsewhere.
    pub fn set_dc_power(&mut self, p: Single)
        requires
            old(self).wf(),
        ensures
            final(self).wf(),
            *final(self) == match *old(self) {
                SimulatedComponent::Battery(c) => SimulatedComponent::Battery(c.pushed(p)),
                c => c,
            },
    {
        match self {
            SimulatedComponent::Battery(c) => c.set_dc_power(p),
            _ => {},
        }
    }

    /// The share of the last push that was accepted; one where nothing clips.
    pub fn dc_accept_ratio(&self) -> (r: Single)
        ensures
            r == match *self {
                SimulatedComponent::Battery(c) => c.state.accept_ratio,
                _ => Single::lit(ONE),
            },
    {
        match self {
            SimulatedComponent::Battery(c) => c.dc_accept_ratio(),
            _ => Single::from_bits(ONE),
        }
    }

    /// Sets the state of charge; false where there is none.
    pub fn set_soc_pct(&mut self, pct: Single) -> (r: bool)
        requires
            old(self).wf(),
        ensures
            final(self).wf(),
            r == old(self).has_charge(),
            *final(self) == match *old(self) {
                SimulatedComponent::Battery(c) => SimulatedComponent::Battery(c.with_soc(pct)),
                SimulatedComponent::EvCharger(c) => SimulatedComponent::EvCharger(c.with_soc(pct)),
                c => c,
            },
    {
        match self {
            SimulatedComponent::Battery(c) => c.set_soc_pct(pct),
            SimulatedComponent::EvCharger(c) => c.set_soc_pct(pct),
            _ => false,
        }
    }

    /// There is a state of charge: a battery's, or a plugged car's.
    pub open spec fn has_charge(self) -> bool {
        match self {
            SimulatedComponent::Battery(c) => true,
            SimulatedComponent::EvCharger(c) => c.ev is Some,
            _ => false,
        }
    }

    pub fn takes_soc_pct(&self) -> (r: bool)
        ensures
            r == self.has_charge(),
    {
        match self {
            SimulatedComponent::Battery(_) => true,
            SimulatedComponent::EvCharger(c) => c.takes_soc_pct(),
            _ => false,
        }
    }

    pub fn takes_active_power_override(&self) -> (r: bool)
        ensures
            r == (self is Meter),
    {
        match self {
            SimulatedComponent::Meter(_) => true,
            _ => false,
        }
    }

    pub fn takes_reactive_power_override(&self) -> (r: bool)
        ensures
            r == (self is Meter),
    {
        match self {
            SimulatedComponent::Meter(_) => true,
            _ => false,
        }
    }

    pub fn takes_sunlight_pct(&self) -> (r: bool)
        ensures
            r == (self is Solar),
    {
        match self {
            SimulatedComponent::Solar(_) => true,
            _ => false,
        }
    }

    pub fn takes_pressure_bar(&self) -> (r: bool)
        ensures
            r == (self is SteamBoiler),
    {
        match self {
            SimulatedComponent::SteamBoiler(_) => true,
            _ => false,
        }
    }

    pub fn takes_steam_demand(&self) -> (r: bool)
        ensures
            r == (self is SteamBoiler),
    {
        match self {
            SimulatedComponent::SteamBoiler(_) => true,
            _ => false,
        }
    }

    /// A meter's source of active power becomes `source`; what it was built
    /// with stays.
    pub open spec fn is_power_driven(
        before: SimulatedComponent,
        after: SimulatedComponent,
        source: ScalarView,
    ) -> bool {
        match (before, after) {
            (SimulatedComponent::Meter(b), SimulatedComponent::Meter(a)) => {
                &&& a.active_view() == (Some(source), b.constructed_power)
                &&& a.reactive_view() == b.reactive_view()
                &&& a.same_identity(b)
            },
            (b, a) => a == b,
        }
    }

    /// A meter's source of reactive power becomes `source`; what it was built
    /// with stays.
    pub open spec fn is_reactive_driven(
        before: SimulatedComponent,
        after: SimulatedComponent,
        source: ReactiveView,
    ) -> bool {
        match (before, after) {
            (SimulatedComponent::Meter(b), SimulatedComponent::Meter(a)) => {
                &&& a.reactive_view() == (Some(source), b.constructed_reactive)
                &&& a.active_view() == b.active_view()
                &&& a.same_identity(b)
            },
            (b, a) => a == b,
        }
    }

    /// Drives a meter with a number; false elsewhere.
    pub fn set_active_power_override(&mut self, p: Single) -> (r: bool)
        requires
            old(self).wf(),
        ensures
            final(self).wf(),
            final(self).spec_id() == old(self).spec_id(),
            r == (*old(self) is Meter),
            Self::is_power_driven(*old(self), *final(self), ScalarView::constant(p)),
    {
        match self {
            SimulatedComponent::Meter(c) => {
                c.set_fixed_power(p);
                true
            },
            _ => false,
        }
    }

    pub fn set_active_power_source(&mut self, scalar: DynamicScalar)
        requires
            old(self).wf(),
        ensures
            final(self).wf(),
            final(self).spec_id() == old(self).spec_id(),
            Self::is_power_driven(*old(self), *final(self), scalar@),
    {
        match self {
            SimulatedComponent::Meter(c) => c.set_active_power_source(scalar),
            _ => {},
        }
    }

    pub fn set_reactive_power_override(&mut self, vars: Single) -> (r: bool)
        requires
            old(self).wf(),
        ensures
            final(self).wf(),
            final(self).spec_id() == old(self).spec_id(),
            r == (*old(self) is Meter),
            Self::is_reactive_driven(
                *old(self),
                *final(self),
                ReactiveView::Var(ScalarView::constant(vars)),
            ),
    {
        match self {
            SimulatedComponent::Meter(c) => {
                c.set_fixed_reactive_power(vars);
                true
            },
            _ => false,
        }
    }

    pub fn set_reactive_power_source(&mut self, scalar: DynamicScalar)
        requires
            old(self).wf(),
        ensures
            final(self).wf(),
            final(self).spec_id() == old(self).spec_id(),
            Self::is_reactive_driven(*old(self), *final(self), ReactiveView::Var(scalar@)),
    {
        match self {
            SimulatedComponent::Meter(c) => c.set_reactive_power_source(scalar),
            _ => {},
        }
    }

    /// Drives a meter's reactive power by a power factor; `tan_phi` belongs to
    /// it.
    pub fn set_power_factor(&mut self, pf: Single, leading: bool, tan_phi: Single) -> (r: bool)
        requires
            old(self).wf(),
        ensures
            final(self).wf(),
            final(self).spec_id() == old(self).spec_id(),
            r == (*old(self) is Meter),
            Self::is_reactive_driven(
                *old(self),
                *final(self),
                ReactiveView::PowerFactor { pf, leading, tan_phi },
            ),
    {
        match self {
            SimulatedComponent::Meter(c) => {
                c.set_power_factor_source(pf, leading, tan_phi);
                true
            },
            _ => false,
        }
    }

    /// A meter back to measuring its active power; what it was built with
    /// goes too.
    pub fn clear_active_power_source(&mut self) -> (r: bool)
        requires
            old(self).wf(),
        ensures
            final(self).wf(),
            final(self).spec_id() == old(self).spec_id(),
            r == (*old(self) is Meter),
            match (*old(self), *final(self)) {
                (SimulatedComponent::Meter(b), SimulatedComponent::Meter(a)) => {
                    &&& a.active_view() == (None::<ScalarView>, None::<Single>)
                    &&& a.reactive_view() == b.reactive_view()
                    &&& a.same_identity(b)
                },
                (b, a) => a == b,
            },
    {
        match self {
            SimulatedComponent::Meter(c) => c.clear_active_power_source(),
            _ => false,
        }
    }

    pub fn clear_reactive_power_source(&mut self) -> (r: bool)
        requires
            old(self).wf(),
        ensures
            final(self).wf(),
            final(self).spec_id() == old(self).spec_id(),
            r == (*old(self) is Meter),
            match (*old(self), *final(self)) {
                (SimulatedComponent::Meter(b), SimulatedComponent::Meter(a)) => {
                    &&& a.reactive_view().0 is None
                    &&& a.reactive_view().1 is None
                    &&& a.active_view() == b.active_view()
                    &&& a.same_identity(b)
                },
                (b, a) => a == b,
            },
    {
        match self {
            SimulatedComponent::Meter(c) => c.clear_reactive_power_source(),
            _ => false,
        }
    }

    /// A solar inverter's sunlight becomes `source`; nothing happens
    /// elsewhere.
    pub open spec fn is_lit(
        before: SimulatedComponent,
        after: SimulatedComponent,
        source: SunlightView,
    ) -> bool {
        match (before, after) {
            (SimulatedComponent::Solar(b), SimulatedComponent::Solar(a)) => {
                &&& a.sunlight_source@ == source
                &&& a == SolarInverter { sunlight_source: a.sunlight_source, ..b }
            },
            (b, a) => a == b,
        }
    }

    pub fn set_sunlight_pct(&mut self, pct: Single) -> (r: bool)
        requires
            old(self).wf(),
        ensures
            final(self).wf(),
            final(self).spec_id() == old(self).spec_id(),
            r == (*old(self) is Solar),
            Self::is_lit(
                *old(self),
                *final(self),
                SunlightView::Manual(ScalarView::constant(pct)),
            ),
    {
        match self {
            SimulatedComponent::Solar(c) => {
                c.set_sunlight_pct(pct);
                true
            },
            _ => false,
        }
    }

    pub fn set_sunlight_source(&mut self, scalar: DynamicScalar)
        requires
            old(self).wf(),
        ensures
            final(self).wf(),
            final(self).spec_id() == old(self).spec_id(),
            Self::is_lit(*old(self), *final(self), SunlightView::Manual(scalar@)),
    {
        match self {
            SimulatedComponent::Solar(c) => c.set_sunlight_source(scalar),
            _ => {},
        }
    }

    /// A solar inverter follows the weather again; the answer is whether the
    /// component is one.
    pub fn clear_sunlight_source(&mut self) -> (r: bool)
        requires
            old(self).wf(),
        ensures
            final(self).wf(),
            final(self).spec_id() == old(self).spec_id(),
            r == (*old(self) is Solar),
            *old(self) matches SimulatedComponent::Solar(b) ==> Self::is_lit(
                *old(self),
                *final(self),
                SunlightView::following(b.cfg.weather_lag, b.cfg.weather_jitter_pct),
            ),
            !(*old(self) is Solar) ==> *final(self) == *old(self),
    {
        match self {
            SimulatedComponent::Solar(c) => {
                c.clear_sunlight();
                true
            },
            _ => false,
        }
    }

    /// A boiler's demand becomes `source`; nothing happens elsewhere.
    pub open spec fn is_demanded(
        before: SimulatedComponent,
        after: SimulatedComponent,
        source: ScalarView,
    ) -> bool {
        match (before, after) {
            (SimulatedComponent::SteamBoiler(b), SimulatedComponent::SteamBoiler(a)) => {
                &&& a.demand_source@ == source
                &&& a == SteamBoiler { demand_source: a.demand_source, ..b }
            },
            (b, a) => a == b,
        }
    }

    pub fn set_steam_demand_kg_h(&mut self, kg_h: Single) -> (r: bool)
        requires
            old(self).wf(),
        ensures
            final(self).wf(),
            final(self).spec_id() == old(self).spec_id(),
            r == (*old(self) is SteamBoiler),
            Self::is_demanded(*old(self), *final(self), ScalarView::constant(kg_h)),
    {
        match self {
            SimulatedComponent::SteamBoiler(c) => c.set_steam_demand_kg_h(kg_h),
            _ => false,
        }
    }

    pub fn set_steam_demand_source(&mut self, scalar: DynamicScalar)
        requires
            old(self).wf(),
        ensures
            final(self).wf(),
            final(self).spec_id() == old(self).spec_id(),
            Self::is_demanded(*old(self), *final(self), scalar@),
    {
        match self {
            SimulatedComponent::SteamBoiler(c) => c.set_steam_demand_source(scalar),
            _ => {},
        }
    }

    /// Sets a boiler's pressure; false elsewhere.
    pub fn set_pressure_bar(&mut self, bar: Single) -> (r: bool)
        requires
            old(self).wf(),
        ensures
            final(self).wf(),
            r == (*old(self) is SteamBoiler),
            *final(self) == match *old(self) {
                SimulatedComponent::SteamBoiler(c) => SimulatedComponent::SteamBoiler(
                    c.with_pressure(bar),
                ),
                c => c,
            },
    {
        match self {
            SimulatedComponent::SteamBoiler(c) => c.set_pressure_bar(bar),
            _ => false,
        }
    }

    /// A captured knob holds this component's state; there is none where the
    /// component has no such knob.
    pub open spec fn is_knob(self, kind: KnobKind, snap: Option<KnobSnapshot>) -> bool {
        match self {
            SimulatedComponent::Meter(c) => c.is_knob(kind, snap),
            SimulatedComponent::Solar(c) => c.is_knob(kind, snap),
            SimulatedComponent::SteamBoiler(c) => c.is_knob(kind, snap),
            SimulatedComponent::EvCharger(c) => snap == c.knob(kind),
            _ => snap is None,
        }
    }

    pub fn snapshot_knob(&self, kind: KnobKind) -> (r: Option<KnobSnapshot>)
        requires
            self.wf(),
        ensures
            self.is_knob(kind, r),
            r matches Some(snap) ==> sound_snapshot(snap),
    {
        match self {
            SimulatedComponent::Meter(c) => c.snapshot_knob(kind),
            SimulatedComponent::Solar(c) => c.snapshot_knob(kind),
            SimulatedComponent::SteamBoiler(c) => c.snapshot_knob(kind),
            SimulatedComponent::EvCharger(c) => c.snapshot_knob(kind),
            _ => None,
        }
    }

    /// The component with a knob put back; unchanged where it has no such
    /// knob.
    pub open spec fn with_knob(self, snap: KnobSnapshot) -> SimulatedComponent {
        match self {
            SimulatedComponent::Meter(c) => SimulatedComponent::Meter(c.with_knob(snap)),
            SimulatedComponent::Solar(c) => SimulatedComponent::Solar(c.with_knob(snap)),
            SimulatedComponent::SteamBoiler(c) => SimulatedComponent::SteamBoiler(
                c.with_knob(snap),
            ),
            SimulatedComponent::EvCharger(c) => SimulatedComponent::EvCharger(c.with_knob(snap)),
            c => c,
        }
    }

    /// The component has the knob that the snapshot is of.
    pub open spec fn has_knob(self, snap: KnobSnapshot) -> bool {
        match self {
            SimulatedComponent::Meter(c) => snap is MeterActive || snap is MeterReactive,
            SimulatedComponent::Solar(c) => snap is Sunlight,
            SimulatedComponent::SteamBoiler(c) => snap is BoilerDemand,
            SimulatedComponent::EvCharger(c) => snap is Ev,
            _ => false,
        }
    }

    pub fn restore_knob(&mut self, snap: KnobSnapshot) -> (r: bool)
        requires
            old(self).wf(),
            sound_snapshot(snap),
        ensures
            final(self).wf(),
            final(self).spec_id() == old(self).spec_id(),
            r == old(self).has_knob(snap),
            *final(self) == old(self).with_knob(snap),
    {
        match self {
            SimulatedComponent::Meter(c) => c.restore_knob(snap),
            SimulatedComponent::Solar(c) => c.restore_knob(snap),
            SimulatedComponent::SteamBoiler(c) => c.restore_knob(snap),
            SimulatedComponent::EvCharger(c) => c.restore_knob(snap),
            _ => false,
        }
    }

    pub fn meter_power_reading(&self) -> (r: Option<ScalarReading>)
        ensures
            r is Some <==> (*self matches SimulatedComponent::Meter(c) && c.power_source is Some),
            *self matches SimulatedComponent::Meter(c) ==> (r matches Some(x) ==> x.value == (
            crate::meter::scalar_of(c.power_source)->0).cached && crate::dynamic_scalar::text_of(
                x.expr,
            ) == (crate::meter::scalar_of(c.power_source)->0).text),
    {
        match self {
            SimulatedComponent::Meter(c) => c.meter_power_reading(),
            _ => None,
        }
    }

    pub fn meter_reactive_reading(&self) -> (r: Option<ReactiveReading>)
        ensures
            !(self is Meter) ==> r is None,
            *self matches SimulatedComponent::Meter(c) ==> match crate::meter::reactive_of(
                c.reactive_source,
            ) {
                Some(ReactiveView::Var(v)) => r matches Some(ReactiveReading::Var(x)) && x.value
                    == v.cached && crate::dynamic_scalar::text_of(x.expr) == v.text,
                Some(ReactiveView::PowerFactor { pf, leading, tan_phi }) => r == Some(
                    ReactiveReading::PowerFactor { pf, leading },
                ),
                None => r is None,
            },
    {
        match self {
            SimulatedComponent::Meter(c) => c.meter_reactive_reading(),
            _ => None,
        }
    }

    pub fn sunlight_reading(&self) -> (r: Option<ScalarReading>)
        ensures
            r is Some <==> self is Solar,
            *self matches SimulatedComponent::Solar(c) ==> (r->0).value
                == c.sunlight_source@.value() && crate::dynamic_scalar::text_of((r->0).expr)
                == match c.sunlight_source@ {
                SunlightView::Follow { lag, jitter_pct, cached } => Some("weather"@),
                SunlightView::Manual(s) => s.text,
            },
    {
        match self {
            SimulatedComponent::Solar(c) => Some(c.sunlight_reading()),
            _ => None,
        }
    }

    pub fn demand_reading(&self) -> (r: Option<ScalarReading>)
        ensures
            r is Some <==> self is SteamBoiler,
            *self matches SimulatedComponent::SteamBoiler(c) ==> (r->0).value
                == c.demand_source@.cached && crate::dynamic_scalar::text_of((r->0).expr)
                == c.demand_source@.text,
    {
        match self {
            SimulatedComponent::SteamBoiler(c) => Some(c.demand_reading()),
            _ => None,
        }
    }

    pub fn pressure_reading(&self) -> (r: Option<ScalarReading>)
        ensures
            r is Some <==> self is SteamBoiler,
            *self matches SimulatedComponent::SteamBoiler(c) ==> (r->0).value == c.pressure_bar && (
            r->0).expr is None,
    {
        match self {
            SimulatedComponent::SteamBoiler(c) => Some(c.pressure_reading()),
            _ => None,
        }
    }

    /// The pressure that a boiler holds.
    pub fn pressure_target_bar(&self) -> (r: Option<Single>)
        ensures
            r == match *self {
                SimulatedComponent::SteamBoiler(c) => Some(c.cfg.target_bar),
                _ => None,
            },
    {
        match self {
            SimulatedComponent::SteamBoiler(c) => Some(c.cfg.target_bar),
            _ => None,
        }
    }

    pub open spec fn maker(self) -> Seq<char> {
        match self {
            SimulatedComponent::Grid(c) => "%make-grid-connection-point"@,
            SimulatedComponent::Meter(c) => "%make-meter"@,
            SimulatedComponent::Battery(c) => "%make-battery"@,
            SimulatedComponent::Solar(c) => "%make-solar-inverter"@,
            SimulatedComponent::EvCharger(c) => "%make-ev-charger"@,
            SimulatedComponent::SteamBoiler(c) => "%make-steam-boiler"@,
            SimulatedComponent::Marker(c) => crate::marker::marker_maker(c.category),
        }
    }

    /// The function that builds the component again.
    pub fn make_fn(&self) -> (r: &'static str)
        requires
            self.wf(),
        ensures
            r@ == self.maker(),
    {
        match self {
            SimulatedComponent::Grid(_) => "%make-grid-connection-point",
            SimulatedComponent::Meter(_) => "%make-meter",
            SimulatedComponent::Battery(_) => "%make-battery",
            SimulatedComponent::Solar(_) => "%make-solar-inverter",
            SimulatedComponent::EvCharger(_) => "%make-ev-charger",
            SimulatedComponent::SteamBoiler(_) => "%make-steam-boiler",
            SimulatedComponent::Marker(c) => c.make_fn(),
        }
    }

    /// The component carries a value that its arguments cannot.
    pub open spec fn unrenderable(self) -> bool {
        match self {
            SimulatedComponent::Meter(c) => (c.constructed_power is None && c.power_source is Some)
                || (c.constructed_reactive is None && c.reactive_source is Some),
            SimulatedComponent::Solar(c) => match c.sunlight_source@ {
                SunlightView::Follow { lag, jitter_pct, cached } => false,
                SunlightView::Manual(s) => c.cfg.sunlight_dynamic || c.cfg.sunlight_follow
                    || s.source is Some,
            },
            SimulatedComponent::SteamBoiler(c) => c.cfg.demand_dynamic
                || c.demand_source@.source is Some,
            _ => false,
        }
    }

    pub fn has_unrenderable_source(&self) -> (r: bool)
        ensures
            r == self.unrenderable(),
    {
        match self {
            SimulatedComponent::Meter(c) => c.has_unrenderable_source(),
            SimulatedComponent::Solar(c) => c.has_unrenderable_source(),
            SimulatedComponent::SteamBoiler(c) => c.has_unrenderable_source(),
            _ => false,
        }
    }

    pub open spec fn arguments(self) -> Seq<(Seq<char>, KwValue)> {
        match self {
            SimulatedComponent::Grid(c) => c.arguments(),
            SimulatedComponent::Meter(c) => c.arguments(),
            SimulatedComponent::Battery(c) => c.arguments(),
            SimulatedComponent::Solar(c) => c.arguments(),
            SimulatedComponent::EvCharger(c) => c.arguments(),
            SimulatedComponent::SteamBoiler(c) => c.arguments(),
            SimulatedComponent::Marker(c) => c.arguments(),
        }
    }

    /// What the component would be built from again; numbers that are not
    /// finite are left out.
    pub fn constructor_kwargs(&self) -> (r: Vec<Kwarg>)
        requires
            self.wf(),
        ensures
            crate::kwargs::pairs(r@) == self.arguments(),
    {
        match self {
            SimulatedComponent::Grid(c) => c.constructor_kwargs(),
            SimulatedComponent::Meter(c) => c.constructor_kwargs(),
            SimulatedComponent::Battery(c) => c.constructor_kwargs(),
            SimulatedComponent::Solar(c) => c.constructor_kwargs(),
            SimulatedComponent::EvCharger(c) => c.constructor_kwargs(),
            SimulatedComponent::SteamBoiler(c) => c.constructor_kwargs(),
            SimulatedComponent::Marker(c) => c.constructor_kwargs(),
        }
    }
}

/// The answer to a request to augment where nothing is stored.
fn augment_verdict(envelope: Option<VecBounds>, bounds: &VecBounds) -> (r: Result<(), VecBounds>)
    ensures
        SimulatedComponent::is_plain_augment_answer(
            crate::component::bands_of(envelope),
            bounds@,
            r,
        ),
{
    match envelope {
        Some(current) => if current.intersect(bounds).0.len() == 0 {
            Err(current)
        } else {
            Ok(())
        },
        None => Ok(()),
    }
}

/// What is handed out for a registered component.
#[derive(Debug)]
pub struct ComponentHandle {
    pub id: u64,
    pub hidden: bool,
    pub name: String,
}

impl ComponentHandle {
    pub fn new(c: &SimulatedComponent) -> (r: Self)
        ensures
            r.id == c.spec_id(),
            r.hidden == c.hidden(),
            r.name@ == c.name_text(),
    {
        let mut name = String::new();
        push_text(&mut name, c.name().as_str());
        assert(Seq::<char>::empty() + c.name_text() =~= c.name_text());
        ComponentHandle { id: c.id(), hidden: c.is_hidden(), name }
    }

    pub fn id(&self) -> (r: u64)
        ensures
            r == self.id,
    {
        self.id
    }

    pub fn is_hidden(&self) -> (r: bool)
        ensures
            r == self.hidden,
    {
        self.hidden
    }

    /// The handle as scripts see it: `<name #id>`.
    pub fn text(&self) -> (r: String)
        ensures
            r@ == "<"@ + self.name@ + " #"@ + crate::text::decimal(self.id as nat) + ">"@,
    {
        let mut s = String::new();
        push_text(&mut s, "<");
        push_text(&mut s, self.name.as_str());
        push_text(&mut s, " #");
        push_decimal(&mut s, self.id as u128);
        push_text(&mut s, ">");
        assert(s@ =~= "<"@ + self.name@ + " #"@ + crate::text::decimal(self.id as nat) + ">"@);
        s
    }
}

/// A captured knob, put back later, is the knob again, whatever was done to
/// the component meanwhile.
pub proof fn law_knobs_round_trip(
    before: SimulatedComponent,
    later: SimulatedComponent,
    kind: KnobKind,
    snap: KnobSnapshot,
)
    requires
        before.is_knob(kind, Some(snap)),
        later.has_knob(snap),
    ensures
        later.with_knob(snap).is_knob(kind, Some(snap)),
{
}

/// A component's arguments hold no number that is not finite.
pub proof fn law_arguments_are_finite(c: SimulatedComponent)
    ensures
        crate::kwargs::all_writable(c.arguments()),
{
    broadcast use {
        crate::kwargs::lemma_only_if_is_writable,
        crate::kwargs::lemma_joined_are_writable,
    };

}

} // verus!
