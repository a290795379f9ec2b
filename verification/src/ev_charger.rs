//! A charger for electric cars. The charger offers power; the car decides
//! what it takes.

use crate::accuracy;
use crate::axis::{AxisConfig, IdleTarget, PowerAxis, StepCtx};
use crate::bounds::VecBounds;
use crate::component::{
    AugmentError, Category, KnobKind, KnobSnapshot, SetpointError, Telemetry, TelemetryView,
};
use crate::decay::sanitize_soc_pct;
use crate::ev_presets::{offered_current_a, ConnectedEv, EvDrawState, EvInfo};
use crate::grid_state::GridState;
use crate::kwargs::{add_if, millis_kw, KwValue, Kwarg};
use crate::runtime::Health;
use crate::single::{Single, INFINITY, ZERO};
use crate::text::{numbered, same_text};
use crate::time::{Span, Timestamp};
use crate::timeout_tracker::SetpointAxis;
use vstd::prelude::*;

verus! {

/// What a charger offers while no command stands.
#[derive(Clone, Copy, Debug, PartialEq, Eq, Structural)]
pub enum EvIdle {
    /// Nothing.
    Paused,
    /// The full rating.
    Full,
}

impl EvIdle {
    pub open spec fn name(self) -> Seq<char> {
        match self {
            EvIdle::Paused => "paused"@,
            EvIdle::Full => "full"@,
        }
    }

    pub fn as_str(self) -> (r: &'static str)
        ensures
            r@ == self.name(),
    {
        match self {
            EvIdle::Paused => "paused",
            EvIdle::Full => "full",
        }
    }

    /// The idle mode with a name; `None` for a text that names none.
    pub fn parse(s: &str) -> (r: Option<EvIdle>)
        ensures
            r matches Some(m) ==> m.name() == s@,
            r is None ==> forall|m: EvIdle| m.name() != s@,
    {
        if same_text(s, "paused") {
            Some(EvIdle::Paused)
        } else if same_text(s, "full") {
            Some(EvIdle::Full)
        } else {
            None
        }
    }
}

/// The two idle modes have different names.
pub proof fn law_idle_names_differ(a: EvIdle, b: EvIdle)
    requires
        a.name() == b.name(),
    ensures
        a == b,
{
    reveal_strlit("paused");
    reveal_strlit("full");
    assert("paused"@.len() == 6);
    assert("full"@.len() == 4);
}

#[derive(Clone, Copy, Debug)]
pub struct EvChargerConfig {
    pub rated_lower_w: Single,
    pub rated_upper_w: Single,
    /// The phases that the charger is wired on.
    pub phases: u8,
    pub idle: EvIdle,
    pub command_delay: Span,
    pub ramp_rate_w_per_s: Single,
    pub stream_jitter_pct: Single,
    /// Keep the command through a fault and resume it on recovery; else a
    /// fault clears it.
    pub resume_on_recovery: bool,
}

/// 22 kW.
pub const DEFAULT_RATING_W: u32 = 0x46ab_e000;

impl EvChargerConfig {
    /// What the charger offers while no command stands.
    pub open spec fn idle_offer(self) -> Single {
        match self.idle {
            EvIdle::Paused => Single::lit(ZERO),
            EvIdle::Full => self.rated_upper_w,
        }
    }

    pub fn idle_w(&self) -> (r: Single)
        ensures
            r == self.idle_offer(),
    {
        match self.idle {
            EvIdle::Paused => Single::from_bits(ZERO),
            EvIdle::Full => self.rated_upper_w,
        }
    }

    pub open spec fn standard() -> EvChargerConfig {
        EvChargerConfig {
            rated_lower_w: Single::lit(ZERO),
            rated_upper_w: Single::lit(DEFAULT_RATING_W),
            phases: 3,
            idle: EvIdle::Paused,
            command_delay: Span { secs: 0, nanos: 500_000_000 },
            ramp_rate_w_per_s: Single::lit(INFINITY),
            stream_jitter_pct: Single::lit(ZERO),
            resume_on_recovery: false,
        }
    }
}

impl Default for EvChargerConfig {
    /// Three phases, 22 kW, a command delay of half a second and no ramp.
    fn default() -> (r: Self)
        ensures
            r == EvChargerConfig::standard(),
    {
        EvChargerConfig {
            rated_lower_w: Single::from_bits(ZERO),
            rated_upper_w: Single::from_bits(DEFAULT_RATING_W),
            phases: 3,
            idle: EvIdle::Paused,
            command_delay: Span { secs: 0, nanos: 500_000_000 },
            ramp_rate_w_per_s: Single::from_bits(INFINITY),
            stream_jitter_pct: Single::from_bits(ZERO),
            resume_on_recovery: false,
        }
    }
}

#[derive(Debug)]
pub struct EvCharger {
    pub id: u64,
    pub name: String,
    pub interval: Span,
    pub cfg: EvChargerConfig,
    pub ev: Option<ConnectedEv>,
    pub draw_w: Single,
    pub last: EvDrawState,
    pub active: PowerAxis,
}

/// What a tick does with the car for an offer of current: the car afterwards,
/// the power it draws, and the state of the session.
pub open spec fn session(
    ev: Option<ConnectedEv>,
    offered: Option<Single>,
    phases: u8,
    dt: Span,
) -> (Option<ConnectedEv>, Single, EvDrawState) {
    match ev {
        None => (ev, Single::lit(ZERO), EvDrawState::Paused),
        Some(car) => if car.is_done() {
            (ev, Single::lit(ZERO), EvDrawState::Done)
        } else {
            match offered {
                None => (ev, Single::lit(ZERO), EvDrawState::Paused),
                Some(amps) => {
                    let p = car.draw(amps, phases);
                    (
                        Some(car.charged(p, dt)),
                        p,
                        if Single::lit(ZERO).flt(p) {
                            EvDrawState::Charging
                        } else {
                            EvDrawState::Paused
                        },
                    )
                },
            }
        },
    }
}

impl EvCharger {
    pub open spec fn wf(self) -> bool {
        self.active.wf() && self.interval.wf() && self.cfg.command_delay.wf()
    }

    /// Only the plugged car and the session differ.
    pub open spec fn same_but_session(self, other: EvCharger) -> bool {
        &&& self.id == other.id
        &&& self.name == other.name
        &&& self.interval == other.interval
        &&& self.cfg == other.cfg
        &&& self.active == other.active
    }

    /// The captured state of a knob, where the charger has it.
    pub open spec fn knob(self, kind: KnobKind) -> Option<KnobSnapshot> {
        if kind is Ev {
            Some(KnobSnapshot::Ev(self.ev))
        } else {
            None
        }
    }

    /// The charger with a knob put back; unchanged for another kind's
    /// snapshot.
    pub open spec fn with_knob(self, snap: KnobSnapshot) -> EvCharger {
        match snap {
            KnobSnapshot::Ev(ev) => EvCharger {
                ev,
                draw_w: Single::lit(ZERO),
                last: EvDrawState::Paused,
                ..self
            },
            _ => self,
        }
    }

    /// The charger with the state of charge of its car set; a value that is
    /// not finite is ignored.
    pub open spec fn with_soc(self, pct: Single) -> EvCharger {
        match (self.ev, crate::decay::sane_soc(pct)) {
            (Some(car), Some(v)) => EvCharger {
                ev: Some(ConnectedEv { soc_pct: v, ..car }),
                ..self
            },
            _ => self,
        }
    }

    pub fn new(id: u64, interval: Span, cfg: EvChargerConfig) -> (r: Self)
        requires
            interval.wf(),
            cfg.command_delay.wf(),
        ensures
            r.wf(),
            r.id == id,
            r.name@ == "ev-charger"@ + "-"@ + crate::text::decimal(id as nat),
            r.interval == interval,
            r.cfg == cfg,
            r.ev is None,
            r.draw_w == Single::lit(ZERO),
            r.last is Paused,
            r.active.rated == Some((cfg.rated_lower_w, cfg.rated_upper_w)),
            r.active.augs.rated@ == crate::bounds::one_band(cfg.rated_lower_w, cfg.rated_upper_w),
            r.active.augs.augmented@.len() == 0,
            r.active.caps is None,
            r.active.delay == (crate::ramp::CommandDelay {
                executing: None,
                waiting: None,
                armed: None,
                delay: cfg.command_delay,
            }),
            r.active.ramp == (crate::ramp::Ramp {
                actual: Single::lit(ZERO),
                target: Single::lit(ZERO),
                rate_w_per_s: cfg.ramp_rate_w_per_s,
            }),
            r.active.published == Single::lit(ZERO),
            r.active.unit@ == "W"@,
    {
        let active = PowerAxis::new(
            AxisConfig {
                rated: Some((cfg.rated_lower_w, cfg.rated_upper_w)),
                caps: None,
                command_delay: cfg.command_delay,
                ramp_rate_per_s: cfg.ramp_rate_w_per_s,
                unit: "W",
            },
        );
        EvCharger {
            id,
            name: numbered("ev-charger", id),
            interval,
            cfg,
            ev: None,
            draw_w: Single::from_bits(ZERO),
            last: EvDrawState::Paused,
            active,
        }
    }

    /// Sets the state of charge of the plugged car; false without one. A value
    /// that is not finite is ignored.
    pub fn set_soc_pct(&mut self, pct: Single) -> (r: bool)
        ensures
            r == (old(self).ev is Some),
            *final(self) == old(self).with_soc(pct),
    {
        match self.ev {
            Some(car) => {
                if let Some(v) = sanitize_soc_pct(pct) {
                    let mut changed = car;
                    changed.soc_pct = v;
                    self.ev = Some(changed);
                }
                true
            },
            None => false,
        }
    }

    pub fn takes_soc_pct(&self) -> (r: bool)
        ensures
            r == (self.ev is Some),
    {
        self.ev.is_some()
    }

    /// A car can be plugged in.
    pub fn takes_ev(&self) -> (r: bool)
        ensures
            r,
    {
        true
    }

    /// Plugs a car in; refused while one is plugged in. A fresh car starts
    /// from a clean slate.
    pub fn plug_ev(&mut self, ev: ConnectedEv) -> (r: Result<(), &'static str>)
        ensures
            r is Ok <==> old(self).ev is None,
            r matches Err(e) ==> e@ == "an EV is already plugged in"@ && *final(self)
                == *old(self),
            r is Ok ==> final(self).ev == Some(ev) && final(self).draw_w == Single::lit(ZERO)
                && final(self).last is Paused && final(self).same_but_session(*old(self)),
    {
        if self.ev.is_some() {
            return Err("an EV is already plugged in");
        }
        self.ev = Some(ev);
        self.draw_w = Single::from_bits(ZERO);
        self.last = EvDrawState::Paused;
        Ok(())
    }

    /// Unplugs the car; true if there was one.
    pub fn unplug_ev(&mut self) -> (r: bool)
        ensures
            r == (old(self).ev is Some),
            final(self).ev is None,
            final(self).draw_w == Single::lit(ZERO),
            final(self).last is Paused,
            final(self).same_but_session(*old(self)),
    {
        let had = self.ev.is_some();
        self.ev = None;
        self.draw_w = Single::from_bits(ZERO);
        self.last = EvDrawState::Paused;
        had
    }

    pub fn ev_info(&self) -> (r: Option<EvInfo>)
        ensures
            r == match self.ev {
                Some(ev) => Some(EvInfo { ev, state: self.last }),
                None => None,
            },
    {
        match self.ev {
            Some(ev) => Some(EvInfo { ev, state: self.last }),
            None => None,
        }
    }

    /// The plug state, for the knob that a scenario may change.
    pub fn snapshot_knob(&self, kind: KnobKind) -> (r: Option<KnobSnapshot>)
        ensures
            r == self.knob(kind),
    {
        match kind {
            KnobKind::Ev => Some(KnobSnapshot::Ev(self.ev)),
            _ => None,
        }
    }

    /// Puts a plug state back; false for another knob's snapshot.
    pub fn restore_knob(&mut self, snap: KnobSnapshot) -> (r: bool)
        ensures
            r == (snap is Ev),
            *final(self) == old(self).with_knob(snap),
    {
        match snap {
            KnobSnapshot::Ev(ev) => {
                self.ev = ev;
                self.draw_w = Single::from_bits(ZERO);
                self.last = EvDrawState::Paused;
                true
            },
            _ => false,
        }
    }

    /// `after` is `before` one tick later. A charger that is not healthy is
    /// offline. A healthy one offers the output of its axis, and the car takes
    /// what it wants of it.
    pub open spec fn is_tick(
        before: EvCharger,
        after: EvCharger,
        health: Health,
        now: Timestamp,
        dt: Span,
    ) -> bool {
        &&& after.id == before.id
        &&& after.name == before.name
        &&& after.interval == before.interval
        &&& after.cfg == before.cfg
        &&& if health == Health::Good {
            &&& PowerAxis::is_step(
                before.active,
                after.active,
                now,
                dt,
                Single::lit(ZERO),
                None,
                IdleTarget::Value(before.cfg.idle_offer()),
            )
            &&& (after.ev, after.draw_w, after.last) == session(
                before.ev,
                crate::ev_presets::offer(after.active.published, before.cfg.phases),
                before.cfg.phases,
                dt,
            )
        } else {
            &&& after.active == if before.cfg.resume_on_recovery {
                before.active.snapped(Single::lit(ZERO))
            } else {
                before.active.tripped()
            }
            &&& after.ev == before.ev
            &&& after.draw_w == Single::lit(ZERO)
            &&& after.last is Tripped
        }
    }

    pub fn tick(&mut self, health: Health, now: Timestamp, dt: Span)
        requires
            old(self).wf(),
            now.wf(),
        ensures
            final(self).wf(),
            Self::is_tick(*old(self), *final(self), health, now, dt),
            is_booked(*old(self), *final(self), dt),
    {
        let ghost before = *self;
        if health != Health::Good {
            if self.cfg.resume_on_recovery {
                self.active.snap_output(Single::from_bits(ZERO));
            } else {
                self.active.trip();
            }
            self.draw_w = Single::from_bits(ZERO);
            self.last = EvDrawState::Tripped;
            proof {
                lemma_booked(before, *self, health, now, dt);
            }
            return;
        }
        let limit_w = self.active.step(
            now,
            dt,
            StepCtx {
                other_axis: Single::from_bits(ZERO),
                dynamic: None,
                idle: IdleTarget::Value(self.cfg.idle_w()),
            },
        );
        let offered = offered_current_a(limit_w, self.cfg.phases);
        let zero = Single::from_bits(ZERO);
        let (draw, last) = match self.ev {
            None => (zero, EvDrawState::Paused),
            Some(car) => {
                if car.done() {
                    (zero, EvDrawState::Done)
                } else {
                    match offered {
                        None => (zero, EvDrawState::Paused),
                        Some(amps) => {
                            let p = car.draw_w(amps, self.cfg.phases);
                            let mut charged = car;
                            charged.integrate(p, dt);
                            self.ev = Some(charged);
                            if zero.lt(p) {
                                (p, EvDrawState::Charging)
                            } else {
                                (p, EvDrawState::Paused)
                            }
                        },
                    }
                }
            },
        };
        self.draw_w = draw;
        self.last = last;
        proof {
            lemma_booked(before, *self, health, now, dt);
        }
    }

    pub open spec fn reading(self, grid: GridState, now: Timestamp) -> TelemetryView {
        TelemetryView {
            active_power_w: Some(self.draw_w),
            reactive_power_var: Some(Single::lit(ZERO)),
            soc_pct: match self.ev {
                Some(car) => Some(car.soc_pct),
                None => None,
            },
            per_phase_voltage_v: Some(grid.voltage_per_phase),
            frequency_hz: Some(grid.frequency_hz),
            active_power_bounds: Some(self.active.augs.effective_spec(now)),
            component_state: Some(
                if Single::lit(ZERO).flt(self.draw_w) {
                    "charging"@
                } else {
                    "ready"@
                },
            ),
            cable_state: Some(
                if self.ev is Some {
                    "ev-charging-cable-locked-at-ev"@
                } else {
                    "ev-charging-cable-unplugged"@
                },
            ),
            ..TelemetryView::blank(self.id, Some(Category::EvCharger))
        }
    }

    /// The snapshot at `now`. Reactive power is an explicit zero.
    pub fn telemetry(&self, grid: &GridState, now: Timestamp) -> (r: Telemetry)
        requires
            self.wf(),
            now.wf(),
        ensures
            r@ == self.reading(*grid, now),
    {
        let mut t = Telemetry::blank(self.id, Some(Category::EvCharger));
        t.active_power_w = Some(self.draw_w);
        t.reactive_power_var = Some(Single::from_bits(ZERO));
        t.soc_pct = match self.ev {
            Some(car) => Some(car.soc_pct),
            None => None,
        };
        t.per_phase_voltage_v = Some(grid.voltage_per_phase);
        t.frequency_hz = Some(grid.frequency_hz);
        t.active_power_bounds = Some(self.active.effective_static_at(now));
        t.component_state = Some(
            if Single::from_bits(ZERO).lt(self.draw_w) {
                "charging"
            } else {
                "ready"
            },
        );
        t.cable_state = Some(
            if self.ev.is_some() {
                "ev-charging-cable-locked-at-ev"
            } else {
                "ev-charging-cable-unplugged"
            },
        );
        t
    }

    /// Takes or refuses a limit at `now`. The car never narrows the envelope.
    pub fn set_active_setpoint(&mut self, power_w: Single, now: Timestamp) -> (r: Result<
        (),
        SetpointError,
    >)
        requires
            old(self).wf(),
            now.wf(),
        ensures
            final(self).wf(),
            PowerAxis::is_command_answer(
                old(self).active,
                final(self).active,
                power_w,
                now,
                Single::lit(ZERO),
                r,
            ),
            *final(self) == (EvCharger { active: final(self).active, ..*old(self) }),
    {
        self.active.accept(power_w, now, Single::from_bits(ZERO))
    }

    pub fn try_augment_active_bounds(
        &mut self,
        ts: Timestamp,
        bounds: VecBounds,
        lifetime: Span,
    ) -> (r: Result<(), AugmentError>)
        requires
            old(self).wf(),
            ts.wf(),
            lifetime.wf(),
        ensures
            final(self).wf(),
            PowerAxis::is_augment_answer(
                old(self).active,
                final(self).active,
                ts,
                bounds,
                lifetime,
                old(self).active.envelope_of(ts, Single::lit(ZERO), None),
                crate::component::augment_answer(r),
            ),
            *final(self) == (EvCharger { active: final(self).active, ..*old(self) }),
    {
        match self.active.try_augment(ts, bounds, lifetime, Single::from_bits(ZERO), None) {
            Ok(()) => Ok(()),
            Err(envelope) => Err(AugmentError::Disjoint(envelope)),
        }
    }

    /// An augmentation is live on the axis; there is none on the reactive one.
    pub fn augmentation_active(&self, axis: SetpointAxis, now: Timestamp) -> (r: bool)
        requires
            self.wf(),
            now.wf(),
        ensures
            r == (axis is Active && self.active.augs.any_live(now)),
    {
        match axis {
            SetpointAxis::Active => self.active.augmented(now),
            SetpointAxis::Reactive => false,
        }
    }

    pub fn reset_setpoint(&mut self)
        requires
            old(self).wf(),
        ensures
            final(self).wf(),
            *final(self) == (EvCharger {
                active: old(self).active.reset_to(old(self).cfg.idle_offer()),
                ..*old(self)
            }),
    {
        let idle = self.cfg.idle_w();
        self.active.reset(idle);
    }

    pub fn effective_active_bounds(&self, now: Timestamp) -> (r: VecBounds)
        requires
            self.wf(),
            now.wf(),
        ensures
            r@ == self.active.augs.effective_spec(now),
    {
        self.active.effective_static_at(now)
    }

    pub open spec fn arguments(self) -> Seq<(Seq<char>, KwValue)> {
        let c = self.cfg;
        crate::kwargs::only_if(true, ":rated-lower"@, KwValue::Float(c.rated_lower_w))
            + crate::kwargs::only_if(true, ":rated-upper"@, KwValue::Float(c.rated_upper_w))
            + crate::kwargs::only_if(
            true,
            ":command-delay-ms"@,
            crate::kwargs::millis_value(c.command_delay),
        ) + crate::kwargs::only_if(
            c.phases != 3,
            ":phases"@,
            KwValue::Integer(c.phases as u128),
        ) + crate::kwargs::only_if(c.idle != EvIdle::Paused, ":idle"@, KwValue::Idle(c.idle))
            + crate::kwargs::only_if(
            true,
            ":ramp-rate"@,
            KwValue::Float(c.ramp_rate_w_per_s),
        ) + crate::kwargs::only_if(
            crate::kwargs::unusual_interval(self.interval),
            ":interval"@,
            crate::kwargs::millis_value(self.interval),
        ) + crate::kwargs::only_if(
            !c.stream_jitter_pct.feq(Single::lit(ZERO)),
            ":stream-jitter-pct"@,
            KwValue::Float(c.stream_jitter_pct),
        ) + crate::kwargs::only_if(
            c.resume_on_recovery,
            ":resume-on-recovery"@,
            KwValue::True,
        )
    }

    /// What the charger would be built from again; defaults and numbers that
    /// are not finite are left out.
    pub fn constructor_kwargs(&self) -> (r: Vec<Kwarg>)
        requires
            self.wf(),
        ensures
            crate::kwargs::pairs(r@) == self.arguments(),
    {
        let c = &self.cfg;
        let mut kw: Vec<Kwarg> = Vec::new();
        add_if(&mut kw, true, ":rated-lower", KwValue::Float(c.rated_lower_w));
        add_if(&mut kw, true, ":rated-upper", KwValue::Float(c.rated_upper_w));
        add_if(&mut kw, true, ":command-delay-ms", millis_kw(c.command_delay));
        add_if(&mut kw, c.phases != 3, ":phases", KwValue::Integer(c.phases as u128));
        add_if(&mut kw, c.idle != EvIdle::Paused, ":idle", KwValue::Idle(c.idle));
        add_if(
            &mut kw,
            true,
            ":ramp-rate",
            KwValue::Float(c.ramp_rate_w_per_s),
        );
        add_if(
            &mut kw,
            self.interval != (Span { secs: 1, nanos: 0 }),
            ":interval",
            millis_kw(self.interval),
        );
        add_if(
            &mut kw,
            !c.stream_jitter_pct.equals(Single::from_bits(ZERO)),
            ":stream-jitter-pct",
            KwValue::Float(c.stream_jitter_pct),
        );
        add_if(&mut kw, c.resume_on_recovery, ":resume-on-recovery", KwValue::True);
        assert(crate::kwargs::pairs(kw@) == self.arguments());
        kw
    }
}

/// A snapshot of the plug state, put back later, restores the car whatever
/// was plugged in meanwhile.
pub proof fn law_plug_state_round_trips(before: EvCharger, later: EvCharger)
    ensures
        later.with_knob(before.knob(KnobKind::Ev)->0).ev == before.ev,
{
}

/// A charger that is not healthy draws nothing and says that it tripped. The
/// car stays plugged in as it is; the command is kept for the recovery only
/// where the charger is told to resume.
pub proof fn law_fault_stops_the_draw(
    before: EvCharger,
    after: EvCharger,
    health: Health,
    now: Timestamp,
    dt: Span,
)
    requires
        health != Health::Good,
        EvCharger::is_tick(before, after, health, now, dt),
    ensures
        after.draw_w == Single::lit(ZERO),
        after.last is Tripped,
        after.ev == before.ev,
        after.active.delay == if before.cfg.resume_on_recovery {
            before.active.delay
        } else {
            before.active.delay.cleared()
        },
{
}

/// What the car draws in `dt` is in the books: the energy of the session has
/// grown by `draw * dt / 3600` Wh, and the state of charge by that over the
/// capacity.
pub open spec fn is_booked(before: EvCharger, after: EvCharger, dt: Span) -> bool {
    before.ev matches Some(car) ==> after.ev is Some && (is_bookable(
        car,
        after.draw_w,
        dt,
    ) ==> books_show(car, after.ev->0, after.draw_w, dt))
}

/// The numbers of a session are finite, and far from overflow.
pub open spec fn is_bookable(car: ConnectedEv, draw_w: Single, dt: Span) -> bool {
    let p = draw_w.value();
    let cap = car.capacity_wh.value();
    &&& dt.wf()
    &&& draw_w.finite() && car.energy_wh.finite() && car.soc_pct.finite()
    &&& car.capacity_wh.finite()
    &&& accuracy::dist(car.energy_wh.value()) <= accuracy::ample() / 4real
    &&& 0real <= car.soc_pct.value() <= 100real
    &&& cap > 0real
    &&& accuracy::dist(p * dt.exact_seconds()) <= accuracy::ample() / 4real
    &&& accuracy::dist(p * dt.exact_seconds() / 3600real / cap * 100real) <= accuracy::ample()
        / 4real
}

/// The later books of a car that has drawn a power for `dt`.
pub open spec fn books_show(car: ConnectedEv, later: ConnectedEv, draw_w: Single, dt: Span) -> bool {
    let wh = draw_w.value() * dt.exact_seconds() / 3600real;
    let due = car.energy_wh.value() + wh;
    let percent = wh / car.capacity_wh.value() * 100real;
    let level = car.soc_pct.value() + percent;
    &&& accuracy::dist(later.energy_wh.value() - due) <= accuracy::dist(due)
        * accuracy::half_ulp() + accuracy::dist(wh) * accuracy::steps(7) + 4real
        * accuracy::speck()
    &&& accuracy::dist(later.soc_pct.value() - accuracy::limited(level, 0real, 100real))
        <= accuracy::dist(level) * accuracy::half_ulp() + accuracy::dist(percent)
        * accuracy::steps(9) + 2000real * accuracy::speck() * (1real + 1real
        / car.capacity_wh.value())
}

proof fn lemma_booked(
    before: EvCharger,
    after: EvCharger,
    health: Health,
    now: Timestamp,
    dt: Span,
)
    requires
        EvCharger::is_tick(before, after, health, now, dt),
    ensures
        is_booked(before, after, dt),
{
    if let Some(car) = before.ev {
        if is_bookable(car, after.draw_w, dt) {
            law_session_books_the_draw(before, after, health, now, dt);
        }
    }
}

/// A tick books what the car draws: over `dt` the energy of the session grows
/// by `draw * dt / 3600` Wh and the state of charge by that over the capacity,
/// to the precision of the numbers, whether the car charges, pauses or is done
/// and however short the tick is.
pub proof fn law_session_books_the_draw(
    before: EvCharger,
    after: EvCharger,
    health: Health,
    now: Timestamp,
    dt: Span,
)
    requires
        EvCharger::is_tick(before, after, health, now, dt),
        before.ev is Some,
        is_bookable(before.ev->0, after.draw_w, dt),
    ensures
        after.ev is Some,
        books_show(before.ev->0, after.ev->0, after.draw_w, dt),
{
    let car = before.ev->0;
    let later = after.ev->0;
    crate::charge_laws::law_counter_adds_the_energy(car.energy_wh, after.draw_w, dt);
    crate::charge_laws::law_soc_follows_the_energy(
        car.soc_pct,
        after.draw_w,
        dt,
        car.capacity_wh,
    );
    if after.draw_w == Single::lit(ZERO) {
        let x = dt.exact_seconds();
        let cap = car.capacity_wh.value();
        let h = accuracy::half_ulp();
        let e = accuracy::dist(car.energy_wh.value());
        let c = accuracy::dist(car.soc_pct.value());
        accuracy::lemma_val_zero();
        accuracy::lemma_speck();
        assert(0real * x / 3600real == 0real && 0real / cap * 100real == 0real)
            by (nonlinear_arith)
            requires
                cap > 0real,
        ;
        assert(e * h >= 0real && c * h >= 0real && 0real * accuracy::steps(7) == 0real && 0real
            * accuracy::steps(9) == 0real) by (nonlinear_arith)
            requires
                e >= 0real,
                c >= 0real,
                h == 1real / 16777216real,
        ;
        let t = accuracy::speck();
        assert(2000real * t * (1real + 1real / cap) >= 0real) by (nonlinear_arith)
            requires
                t > 0real,
                cap > 0real,
        ;
    }
}

} // verus!
