//! What devices do with their commands, and within what limits.

use crate::accuracy;
use crate::axis::{IdleTarget, PowerAxis};
use crate::bounds::Bounds;
use crate::ev_charger::{EvCharger, EvIdle};
use crate::runtime::Health;
use crate::simulated::SimulatedComponent;
use crate::single::{Single, ZERO};
use crate::solar_inverter::SolarInverter;
use crate::steam_boiler::SteamBoiler;
use crate::time::{Span, Timestamp};
use crate::timeout_tracker::SetpointAxis;
use vstd::prelude::*;

verus! {

/// An axis without a ramp obeys at once: its output is the armed command where
/// the envelope covers it; without a command it is the idle value, or the
/// output stays on its target.
pub proof fn law_quick_axis_obeys_at_once(
    before: PowerAxis,
    after: PowerAxis,
    now: Timestamp,
    dt: Span,
    other_axis: Single,
    dynamic: Option<Seq<Bounds>>,
    idle: IdleTarget,
)
    requires
        PowerAxis::is_step(before, after, now, dt, other_axis, dynamic, idle),
        !before.ramp.rate_w_per_s.finite(),
    ensures
        ({
            let env = before.envelope_of(now, other_axis, dynamic);
            &&& after.delay.armed matches Some(v) ==> (crate::bounds::covers(env, v) && !v.nan()
                ==> after.published == v)
            &&& after.delay.armed is None && idle is Value ==> (crate::bounds::covers(
                env,
                idle->Value_0,
            ) && idle->Value_0.finite() ==> after.published == idle->Value_0)
            &&& after.delay.armed is None && idle is Hold ==> after.published
                == before.ramp.target
        }),
{
}

/// The envelope of an axis with a rated band and a band of the moment.
proof fn lemma_envelope(axis: PowerAxis, now: Timestamp, other_axis: Single, d: Seq<Bounds>)
    requires
        axis.rated is Some,
        axis.caps is None,
    ensures
        axis.envelope_of(now, other_axis, Some(d)) == crate::bounds::bands_meet(
            axis.augs.effective_spec(now),
            d,
        ),
        axis.envelope_of(now, other_axis, None) == axis.augs.effective_spec(now),
{
}

/// A target within the rated bounds and a band of the moment is within that
/// band, or the axis parks at zero.
proof fn lemma_within_the_moment(
    before: PowerAxis,
    after: PowerAxis,
    now: Timestamp,
    dt: Span,
    lo: Single,
    hi: Single,
    idle: Single,
)
    requires
        PowerAxis::is_step(
            before,
            after,
            now,
            dt,
            Single::lit(ZERO),
            Some(crate::bounds::one_band(lo, hi)),
            IdleTarget::Value(idle),
        ),
        !before.ramp.rate_w_per_s.finite(),
        before.rated is Some,
        before.caps is None,
        crate::bounds_laws::open_bands(before.augs.effective_spec(now)),
        lo.finite(),
        hi.finite(),
        idle.finite(),
        after.delay.armed matches Some(v) ==> !v.nan(),
    ensures
        after.published == Single::lit(ZERO) || lo.rank() <= after.published.rank() <= hi.rank(),
{
    let s = before.augs.effective_spec(now);
    let d = crate::bounds::one_band(lo, hi);
    let env = crate::bounds::bands_meet(s, d);
    lemma_envelope(before, now, Single::lit(ZERO), d);
    assert(crate::bounds_laws::open_bands(d));
    assert(crate::bounds_laws::numeric(s));
    assert(crate::bounds_laws::numeric(d));
    crate::bounds_laws::law_intersection_is_normal(s, d);
    let armed = before.delay.promoted(now).armed;
    crate::axis::law_target_is_legal(env, armed, IdleTarget::Value(idle));
    let target = crate::axis::step_target(env, armed, IdleTarget::Value(idle))->0;
    if env.len() > 0 {
        crate::bounds_laws::law_clamp_lands_inside(
            env,
            match armed {
                Some(v) => v,
                None => idle,
            },
        );
    }
    if crate::bounds::covers(env, target) {
        crate::bounds_laws::law_intersection_is_exact(s, d, target);
        let j = choose|j: int|
            0 <= j < d.len() && crate::bounds::band_covers(#[trigger] d[j], target);
        assert(d[j] == d[0]);
    }
}

/// A boiler without a ramp draws no more electricity than it wants, and never
/// gives any back.
pub proof fn law_boiler_draws_no_more_than_it_wants(
    before: SteamBoiler,
    after: SteamBoiler,
    now: Timestamp,
    dt: Span,
)
    requires
        SteamBoiler::is_tick(before, after, now, dt),
        dt.wf(),
        dt.total() > 0,
        !before.active.ramp.rate_w_per_s.finite(),
        before.active.rated is Some,
        before.active.caps is None,
        crate::bounds_laws::open_bands(before.active.augs.effective_spec(now)),
        after.effective_upper_w.finite(),
        after.effective_upper_w.rank() >= 0,
        after.active.delay.armed matches Some(v) ==> !v.nan(),
    ensures
        0 <= after.active.published.rank() <= after.effective_upper_w.rank(),
{
    crate::boiler_laws::lemma_positive_span(dt);
    accuracy::lemma_val_zero();
    accuracy::law_values_keep_order(dt.spec_seconds(), Single::lit(ZERO));
    lemma_within_the_moment(
        before.active,
        after.active,
        now,
        dt,
        Single::lit(ZERO),
        after.effective_upper_w,
        Single::lit(ZERO),
    );
}

/// A healthy solar inverter without a ramp produces no more than the sun
/// allows, whatever it is told; without a command it produces just that, where
/// its bounds admit it.
pub proof fn law_production_stays_within_the_sun(
    before: SolarInverter,
    after: SolarInverter,
    now: Timestamp,
    dt: Span,
)
    requires
        SolarInverter::is_tick(before, after, Health::Good, now, dt),
        !before.active.ramp.rate_w_per_s.finite(),
        before.active.rated is Some,
        before.active.caps is None,
        crate::bounds_laws::open_bands(before.active.augs.effective_spec(now)),
        before.avail().finite(),
        before.cfg.rated_upper_w.finite(),
        before.avail().rank() <= 0,
        after.active.delay.armed matches Some(v) ==> !v.nan(),
    ensures
        before.avail().rank() <= after.active.published.rank(),
        after.active.delay.armed is None && crate::bounds::covers(
            before.active.augs.effective_spec(now),
            before.avail(),
        ) && before.avail().rank() <= before.cfg.rated_upper_w.rank() ==> after.active.published
            == before.avail(),
{
    let s = before.active.augs.effective_spec(now);
    let lo = before.avail();
    let hi = before.cfg.rated_upper_w;
    let d = crate::bounds::one_band(lo, hi);
    lemma_within_the_moment(before.active, after.active, now, dt, lo, hi, lo);
    lemma_envelope(before.active, now, Single::lit(ZERO), d);
    if lo.rank() <= hi.rank() && crate::bounds::covers(s, lo) {
        assert(crate::bounds::band_covers(d[0], lo));
        assert(crate::bounds_laws::numeric(s));
        assert(crate::bounds_laws::numeric(d));
        crate::bounds_laws::law_intersection_is_exact(s, d, lo);
        law_quick_axis_obeys_at_once(
            before.active,
            after.active,
            now,
            dt,
            Single::lit(ZERO),
            Some(d),
            IdleTarget::Value(lo),
        );
    }
}

/// A healthy charger that pauses when it is not told anything gives its car
/// nothing until a command arms.
pub proof fn law_paused_charger_waits_for_a_command(
    before: EvCharger,
    after: EvCharger,
    now: Timestamp,
    dt: Span,
)
    requires
        EvCharger::is_tick(before, after, Health::Good, now, dt),
        before.cfg.idle == EvIdle::Paused,
        !before.active.ramp.rate_w_per_s.finite(),
        before.active.rated is Some,
        before.active.caps is None,
        crate::bounds::covers(before.active.augs.effective_spec(now), Single::lit(ZERO)),
        after.active.delay.armed is None,
    ensures
        after.draw_w == Single::lit(ZERO),
        after.ev == before.ev,
{
    let zero = Single::lit(ZERO);
    lemma_envelope(before.active, now, zero, Seq::empty());
    law_quick_axis_obeys_at_once(
        before.active,
        after.active,
        now,
        dt,
        zero,
        None,
        IdleTarget::Value(zero),
    );
    assert(after.active.published == zero);
    accuracy::lemma_val_zero();
    accuracy::lemma_ample();
    crate::ev_laws::law_offer_divides_the_limit(zero, before.cfg.phases);
    let n = crate::ev_laws::some_phases(before.cfg.phases) * 230real;
    assert(n > 0real) by (nonlinear_arith)
        requires
            n == crate::ev_laws::some_phases(before.cfg.phases) * 230real,
            crate::ev_laws::some_phases(before.cfg.phases) >= 1real,
    ;
    crate::reals::lemma_over_is_times(0real, n);
    crate::reals::lemma_zero(1real / n);
    crate::reals::lemma_zero(accuracy::steps(6));
}

/// A command to a parent is legal where the component's own bounds and those
/// of its children together admit it.
pub proof fn law_gate_admits_what_both_admit(own: Seq<Bounds>, children: Seq<Bounds>, v: Single)
    requires
        crate::bounds_laws::numeric(own),
        crate::bounds_laws::numeric(children),
        !v.nan(),
    ensures
        crate::site_power::gated(Some(Some(own)), Some(children)) is Some,
        crate::bounds::covers(
            crate::site_power::gated(Some(Some(own)), Some(children))->0,
            v,
        ) <==> crate::bounds::covers(own, v) && crate::bounds::covers(children, v),
        crate::site_power::gated(Some(None), Some(children)) == Some(children),
        crate::site_power::gated(Some(Some(own)), None) is None,
{
    crate::bounds_laws::law_intersection_is_exact(own, children, v);
}

/// A released component forgets its commands: a solar inverter heads for what
/// the sun gives and for no reactive power, a charger for its idle offer, and
/// a boiler stops at once. Nothing else about it changes.
pub proof fn law_released_component_goes_idle(c: SimulatedComponent)
    ensures
        c matches SimulatedComponent::Solar(s) ==> (c.released() matches SimulatedComponent::Solar(
            r,
        ) && r.cfg == s.cfg && r.sunlight_source == s.sunlight_source && forgets(s.active, r.active)
            && forgets(s.reactive, r.reactive) && (!s.avail().nan() ==> r.active.ramp.target
            == s.avail()) && r.reactive.ramp.target == Single::lit(ZERO) && r.active.ramp.actual
            == s.active.ramp.actual),
        c matches SimulatedComponent::EvCharger(s) ==> (
        c.released() matches SimulatedComponent::EvCharger(r) && r.cfg == s.cfg && r.ev == s.ev
            && forgets(s.active, r.active) && (!s.cfg.idle_offer().nan()
            ==> r.active.ramp.target == s.cfg.idle_offer())),
        c matches SimulatedComponent::SteamBoiler(s) ==> (
        c.released() matches SimulatedComponent::SteamBoiler(r) && r.cfg == s.cfg
            && r.pressure_bar == s.pressure_bar && forgets(s.active, r.active)
            && r.active.published == Single::lit(ZERO) && r.active.ramp.actual == Single::lit(
            ZERO,
        ) && r.active.ramp.target == Single::lit(ZERO)),
        c is Battery || c is Meter || c is Grid ==> c.released() == c,
{
}

/// No command is left, and the bounds are what they were.
pub open spec fn forgets(before: PowerAxis, after: PowerAxis) -> bool {
    &&& after.delay.armed is None
    &&& after.delay.executing is None
    &&& after.delay.waiting is None
    &&& after.delay.delay == before.delay.delay
    &&& after.augs == before.augs
    &&& after.rated == before.rated
    &&& after.ramp.rate_w_per_s == before.ramp.rate_w_per_s
}

/// Of a solar inverter one axis is released alone: the other keeps its command
/// and its output.
pub proof fn law_axes_are_released_alone(s: SolarInverter)
    ensures
        SimulatedComponent::Solar(s).released_axis(SetpointAxis::Active) matches
            SimulatedComponent::Solar(r) && r.reactive == s.reactive && forgets(
            s.active,
            r.active,
        ),
        SimulatedComponent::Solar(s).released_axis(SetpointAxis::Reactive) matches
            SimulatedComponent::Solar(r) && r.active == s.active && forgets(
            s.reactive,
            r.reactive,
        ),
{
}

} // verus!
