//! What snapshots show.

use crate::accuracy;
use crate::battery::Battery;
use crate::bounds::Bounds;
use crate::component::TelemetryView;
use crate::ev_charger::EvCharger;
use crate::grid_state::{GridState, Phases};
use crate::inverter::CommonInverterCfg;
use crate::kwargs::KwValue;
use crate::meter::Meter;
use crate::runtime::Health;
use crate::simulated::SimulatedComponent;
use crate::single::{Single, ZERO};
use crate::solar_inverter::SolarInverter;
use crate::steam_boiler::SteamBoiler;
use crate::time::{Span, Timestamp};
use vstd::prelude::*;

verus! {

/// A power and voltages among which it can be split.
pub open spec fn is_splittable(total: Single, v: Phases, k: nat) -> bool {
    &&& total.finite()
    &&& crate::phase_laws::finite_phases(v)
    &&& 1 <= k <= 100
    &&& crate::phase_laws::exact_sum(v) != 0real
    &&& crate::phase_laws::exact_spread(v) <= k as real * accuracy::dist(
        crate::phase_laws::exact_sum(v),
    )
    &&& crate::phase_laws::exact_spread(v) <= accuracy::ample() / 4real
    &&& accuracy::dist(total.value()) * crate::phase_laws::exact_spread(v) <= accuracy::ample()
        / 1000real
    &&& accuracy::dist(total.value()) <= accuracy::ample() / 1000real
}

/// The phase values add up to the total.
pub open spec fn sums_to(r: Phases, total: Single, v: Phases, k: nat) -> bool {
    accuracy::close(
        crate::phase_laws::exact_sum(r),
        total.value(),
        k as real * accuracy::steps(2 * k + 4),
        3real * (accuracy::speck() * (1real + 4real / accuracy::dist(
            crate::phase_laws::exact_sum(v),
        ))),
    )
}

/// A snapshot's phases are those of its own powers at the grid's voltages: the
/// active ones add up to its active power, the reactive ones to its reactive
/// power, and each current carries both powers of its phase.
pub open spec fn shows_its_phases(t: TelemetryView, grid: GridState, k: nat) -> bool {
    let v = grid.voltage_per_phase;
    &&& t.active_power_w is Some && t.reactive_power_var is Some
    &&& t.per_phase_active_w is Some && t.per_phase_reactive_var is Some
    &&& t.per_phase_current_a is Some
    &&& t.per_phase_voltage_v == Some(v)
    &&& t.frequency_hz == Some(grid.frequency_hz)
    &&& {
        let p = t.per_phase_active_w->0;
        let q = t.per_phase_reactive_var->0;
        let i = t.per_phase_current_a->0;
        &&& is_splittable(t.active_power_w->0, v, k) ==> sums_to(p, t.active_power_w->0, v, k)
        &&& is_splittable(t.reactive_power_var->0, v, k) ==> sums_to(
            q,
            t.reactive_power_var->0,
            v,
            k,
        )
        &&& crate::phase_laws::is_loaded(p.0, q.0, v.0) ==> crate::phase_laws::carries(
            i.0,
            p.0,
            q.0,
            v.0,
        )
        &&& crate::phase_laws::is_loaded(p.1, q.1, v.1) ==> crate::phase_laws::carries(
            i.1,
            p.1,
            q.1,
            v.1,
        )
        &&& crate::phase_laws::is_loaded(p.2, q.2, v.2) ==> crate::phase_laws::carries(
            i.2,
            p.2,
            q.2,
            v.2,
        )
    }
}

proof fn lemma_phases(grid: GridState, p: Single, q: Single, k: nat)
    ensures
        ({
            let v = grid.voltage_per_phase;
            let pp = crate::grid_state::phase_split(p, v);
            let qq = crate::grid_state::phase_split(q, v);
            &&& is_splittable(p, v, k) ==> sums_to(pp, p, v, k)
            &&& is_splittable(q, v, k) ==> sums_to(qq, q, v, k)
        }),
{
    let v = grid.voltage_per_phase;
    if is_splittable(p, v, k) {
        crate::phase_laws::law_phases_add_up(p, v, k);
    }
    if is_splittable(q, v, k) {
        crate::phase_laws::law_phases_add_up(q, v, k);
    }
    crate::phase_laws::law_phases_keep_their_own_currents(
        crate::grid_state::phase_split(p, v),
        crate::grid_state::phase_split(q, v),
        v,
    );
}

/// A meter's snapshot shows the powers that it measures, phase by phase.
pub proof fn law_meter_shows_its_phases(m: Meter, grid: GridState, p: Single, q: Single, k: nat)
    ensures
        m.reading(grid, p, q).active_power_w == Some(p),
        m.reading(grid, p, q).reactive_power_var == Some(q),
        shows_its_phases(m.reading(grid, p, q), grid, k),
{
    lemma_phases(grid, p, q, k);
    let v = grid.voltage_per_phase;
    crate::phase_laws::law_phases_keep_their_own_currents(
        crate::grid_state::phase_split(p, v),
        crate::grid_state::phase_split(q, v),
        v,
    );
}

/// A solar inverter's snapshot shows the output of its axes, phase by phase,
/// and the bounds in force.
pub proof fn law_inverter_shows_its_phases(
    s: SolarInverter,
    grid: GridState,
    now: Timestamp,
    k: nat,
)
    ensures
        s.reading(grid, now).active_power_w == Some(s.active.ramp.actual),
        s.reading(grid, now).reactive_power_var == Some(s.reactive.published),
        s.reading(grid, now).active_power_bounds == Some(s.active.augs.effective_spec(now)),
        s.reading(grid, now).reactive_power_bounds matches Some(b) && b.len() > 0,
        shows_its_phases(s.reading(grid, now), grid, k),
{
    let p = s.active.ramp.actual;
    let q = s.reactive.published;
    let v = grid.voltage_per_phase;
    lemma_phases(grid, p, q, k);
    crate::phase_laws::law_phases_keep_their_own_currents(
        crate::grid_state::phase_split(p, v),
        crate::grid_state::phase_split(q, v),
        v,
    );
}

/// A charger's snapshot shows what its car draws and how full it is; it says
/// that it charges exactly while power flows.
pub proof fn law_charger_shows_its_car(c: EvCharger, grid: GridState, now: Timestamp)
    requires
        c.draw_w.finite(),
    ensures
        ({
            let t = c.reading(grid, now);
            &&& t.active_power_w == Some(c.draw_w)
            &&& t.soc_pct is Some <==> c.ev is Some
            &&& c.ev matches Some(car) ==> t.soc_pct == Some(car.soc_pct)
            &&& t.component_state == Some("charging"@) <==> c.draw_w.value() > 0real
            &&& t.cable_state == Some("ev-charging-cable-locked-at-ev"@) <==> c.ev is Some
            &&& t.frequency_hz == Some(grid.frequency_hz)
        }),
{
    accuracy::lemma_val_zero();
    accuracy::law_values_keep_order(c.draw_w, Single::lit(ZERO));
    reveal_strlit("charging");
    reveal_strlit("ready");
    reveal_strlit("ev-charging-cable-locked-at-ev");
    reveal_strlit("ev-charging-cable-unplugged");
    assert("charging"@.len() == 8);
    assert("ready"@.len() == 5);
    assert("ev-charging-cable-locked-at-ev"@.len() == 30);
    assert("ev-charging-cable-unplugged"@.len() == 27);
}

/// A boiler's snapshot shows its electric power, its pressure and what can be
/// allotted to it.
pub proof fn law_boiler_shows_its_pressure(b: SteamBoiler, grid: GridState, now: Timestamp)
    ensures
        ({
            let t = b.reading(grid, now);
            &&& t.active_power_w == Some(b.active.ramp.actual)
            &&& t.pressure_bar == Some(b.pressure_bar)
            &&& t.active_power_bounds == Some(b.allotment(now))
            &&& t.frequency_hz == Some(grid.frequency_hz)
        }),
{
}

/// A number is within the allotment where the boiler wants it and the bounds in
/// force admit it.
pub proof fn law_allotment_is_wanted_and_admitted(b: SteamBoiler, now: Timestamp, v: Single)
    requires
        crate::bounds_laws::numeric(b.active.augs.effective_spec(now)),
        b.effective_upper_w.finite(),
        v.finite(),
    ensures
        crate::bounds::covers(b.allotment(now), v) <==> 0real <= v.value()
            <= b.effective_upper_w.value() && crate::bounds::covers(
            b.active.augs.effective_spec(now),
            v,
        ),
{
    let zero = Single::lit(ZERO);
    let d = crate::bounds::one_band(zero, b.effective_upper_w);
    accuracy::lemma_val_zero();
    accuracy::law_values_keep_order(zero, v);
    accuracy::law_values_keep_order(v, b.effective_upper_w);
    crate::bounds_laws::law_intersection_is_exact(d, b.active.augs.effective_spec(now), v);
    if crate::bounds::covers(d, v) {
        let j = choose|j: int| 0 <= j < d.len() && crate::bounds::band_covers(#[trigger] d[j], v);
        assert(d[j] == d[0]);
    }
    if 0real <= v.value() <= b.effective_upper_w.value() {
        assert(crate::bounds::band_covers(d[0], v));
    }
}

/// A battery's snapshot shows its charge, its limits and its bounds.
pub proof fn law_battery_shows_its_charge(b: Battery)
    ensures
        ({
            let t = b.reading();
            &&& t.soc_pct == Some(b.state.soc_pct)
            &&& t.soc_lower_pct == Some(b.cfg.soc_lower_pct)
            &&& t.soc_upper_pct == Some(b.cfg.soc_upper_pct)
            &&& t.capacity_wh == Some(b.cfg.capacity_wh)
            &&& t.dc_voltage_v == Some(b.cfg.voltage_v)
            &&& t.active_power_w is None
            &&& t.active_power_bounds matches Some(s) && s.len() == 1 && s[0] == (Bounds {
                lower: Some(b.state.effective_lower_w),
                upper: Some(b.state.effective_upper_w),
            })
        }),
{
}

/// The state of a session says what happens: tripped without health; else done
/// from the target on, charging exactly while power flows, and paused
/// otherwise.
pub proof fn law_session_state_tells(
    before: EvCharger,
    after: EvCharger,
    health: Health,
    now: Timestamp,
    dt: Span,
)
    requires
        EvCharger::is_tick(before, after, health, now, dt),
        after.draw_w.finite(),
        before.ev matches Some(car) ==> car.soc_pct.finite() && car.target_soc_pct.finite(),
    ensures
        after.last is Tripped <==> health != Health::Good,
        after.last is Charging ==> before.ev is Some && after.draw_w.value() > 0real,
        health == Health::Good && after.draw_w.value() > 0real ==> after.last is Charging,
        after.last is Done <==> health == Health::Good && before.ev is Some
            && before.ev->0.soc_pct.value() >= before.ev->0.target_soc_pct.value(),
        after.last is Done || after.last is Tripped ==> after.draw_w.value() == 0real,
{
    accuracy::lemma_val_zero();
    accuracy::law_values_keep_order(after.draw_w, Single::lit(ZERO));
    if let Some(car) = before.ev {
        accuracy::law_values_keep_order(car.target_soc_pct, car.soc_pct);
    }
}

/// A power's label tells its direction: positive charges, negative discharges.
pub proof fn law_label_tells_the_direction(p: Single)
    requires
        p.finite(),
    ensures
        p.value() > 0real ==> crate::component::state_label(p) == "charging"@,
        p.value() < 0real ==> crate::component::state_label(p) == "discharging"@,
        p.value() == 0real ==> crate::component::state_label(p) == "ready"@,
{
    accuracy::lemma_val_zero();
    accuracy::law_values_keep_order(p, Single::lit(ZERO));
    accuracy::law_values_keep_order(Single::lit(ZERO), p);
}

// ---------------------------------------------------------------------------
// Envelopes

/// A number lies in a band where it lies between the edges.
pub proof fn law_band_holds_what_is_between(lower: Single, upper: Single, v: Single)
    requires
        lower.finite(),
        upper.finite(),
        v.finite(),
    ensures
        crate::bounds::covers(crate::bounds::one_band(lower, upper), v) <==> lower.value()
            <= v.value() <= upper.value(),
{
    let s = crate::bounds::one_band(lower, upper);
    accuracy::law_values_keep_order(lower, v);
    accuracy::law_values_keep_order(v, upper);
    assert(s[0] == Bounds { lower: Some(lower), upper: Some(upper) });
    if lower.value() <= v.value() <= upper.value() {
        assert(crate::bounds::band_covers(s[0], v));
    }
}

/// A battery admits what its protected bounds admit, a grid connection what it
/// is rated for, and a meter has no bounds of its own.
pub proof fn law_envelopes_are_the_components_own(
    c: SimulatedComponent,
    now: Timestamp,
    v: Single,
)
    requires
        v.finite(),
    ensures
        c matches SimulatedComponent::Battery(b) ==> (b.state.effective_lower_w.finite()
            && b.state.effective_upper_w.finite() ==> c.active_envelope(now) is Some && (
        crate::bounds::covers(c.active_envelope(now)->0, v) <==> b.state.effective_lower_w.value()
            <= v.value() <= b.state.effective_upper_w.value())),
        c matches SimulatedComponent::Grid(g) ==> (g.rated_active_bounds matches Some((l, u)) ==> (
        l.finite() && u.finite() ==> c.active_envelope(now) is Some && (crate::bounds::covers(
            c.active_envelope(now)->0,
            v,
        ) <==> l.value() <= v.value() <= u.value()))),
        c is Meter ==> c.active_envelope(now) is None && c.spec_rated() is None,
        c matches SimulatedComponent::Battery(b) ==> c.spec_rated() == Some(
            (b.cfg.rated_lower_w, b.cfg.rated_upper_w),
        ),
        c matches SimulatedComponent::EvCharger(e) ==> c.active_envelope(now) == Some(
            e.active.augs.effective_spec(now),
        ),
{
    match c {
        SimulatedComponent::Battery(b) => {
            if b.state.effective_lower_w.finite() && b.state.effective_upper_w.finite() {
                law_band_holds_what_is_between(
                    b.state.effective_lower_w,
                    b.state.effective_upper_w,
                    v,
                );
            }
        },
        SimulatedComponent::Grid(g) => {
            if let Some((l, u)) = g.rated_active_bounds {
                if l.finite() && u.finite() {
                    law_band_holds_what_is_between(l, u, v);
                }
            }
        },
        _ => {},
    }
}

/// An inverter without reactive headroom reports that it can give none.
pub proof fn law_no_headroom_shows_as_zero(s: SolarInverter, now: Timestamp, v: Single)
    requires
        s.reactive_envelope(now).len() == 0,
        v.finite(),
    ensures
        crate::bounds::covers(s.reported_reactive(now), v) <==> v.value() == 0real,
{
    accuracy::lemma_val_zero();
    law_band_holds_what_is_between(Single::lit(ZERO), Single::lit(ZERO), v);
}

// ---------------------------------------------------------------------------
// States of charge

/// The states of charge that count are those of the batteries, and no others.
pub proof fn law_only_batteries_count(components: Seq<SimulatedComponent>, soc: Single)
    ensures
        crate::scenarios::battery_socs(components).contains(soc) <==> exists|i: int|
            0 <= i < components.len() && stores(#[trigger] components[i], soc),
        crate::scenarios::battery_socs(components).len() == components.filter(
            |c: SimulatedComponent| c is Battery,
        ).len(),
    decreases components.len(),
{
    reveal(Seq::filter);
    let all = crate::scenarios::battery_socs(components);
    if components.len() > 0 {
        let rest = components.drop_last();
        let before = crate::scenarios::battery_socs(rest);
        law_only_batteries_count(rest, soc);
        assert(components[components.len() - 1] == components.last());
        if all.contains(soc) {
            let k = all.index_of(soc);
            if k < before.len() {
                assert(before[k] == soc);
                let i = choose|i: int| 0 <= i < rest.len() && stores(#[trigger] rest[i], soc);
                assert(components[i] == rest[i]);
            } else {
                assert(stores(components[components.len() - 1], soc));
            }
        }
        if exists|i: int| 0 <= i < components.len() && stores(#[trigger] components[i], soc) {
            let i = choose|i: int|
                0 <= i < components.len() && stores(#[trigger] components[i], soc);
            if i < rest.len() {
                assert(rest[i] == components[i]);
                assert(all[before.index_of(soc)] == soc);
            } else {
                assert(all[before.len() as int] == soc);
            }
        }
    }
}

/// A battery with this state of charge.
pub open spec fn stores(c: SimulatedComponent, soc: Single) -> bool {
    c matches SimulatedComponent::Battery(b) && b.state.soc_pct == soc
}

// ---------------------------------------------------------------------------
// Arguments

/// A battery is built again from its own settings, each under its name.
pub proof fn law_battery_is_built_as_it_is(b: Battery)
    requires
        b.cfg.capacity_wh.finite(),
        b.cfg.initial_soc_pct.finite(),
        b.cfg.soc_lower_pct.finite(),
        b.cfg.soc_upper_pct.finite(),
        b.cfg.voltage_v.finite(),
        b.cfg.rated_lower_w.finite(),
        b.cfg.rated_upper_w.finite(),
        b.cfg.soc_protect_margin_pct.finite(),
    ensures
        b.arguments().len() >= 8,
        b.arguments().take(8) == seq![
            (":capacity"@, KwValue::Float(b.cfg.capacity_wh)),
            (":initial-soc"@, KwValue::Float(b.cfg.initial_soc_pct)),
            (":soc-lower"@, KwValue::Float(b.cfg.soc_lower_pct)),
            (":soc-upper"@, KwValue::Float(b.cfg.soc_upper_pct)),
            (":voltage"@, KwValue::Float(b.cfg.voltage_v)),
            (":rated-lower"@, KwValue::Float(b.cfg.rated_lower_w)),
            (":rated-upper"@, KwValue::Float(b.cfg.rated_upper_w)),
            (":soc-protect-margin"@, KwValue::Float(b.cfg.soc_protect_margin_pct)),
        ],
{
}

/// A charger is built again from its own rating, delay, phases and ramp.
pub proof fn law_charger_is_built_as_it_is(e: EvCharger)
    requires
        e.cfg.rated_lower_w.finite(),
        e.cfg.rated_upper_w.finite(),
    ensures
        e.arguments().len() >= 3,
        e.arguments().take(3) == seq![
            (":rated-lower"@, KwValue::Float(e.cfg.rated_lower_w)),
            (":rated-upper"@, KwValue::Float(e.cfg.rated_upper_w)),
            (":command-delay-ms"@, crate::kwargs::millis_value(e.cfg.command_delay)),
        ],
        e.cfg.phases != 3 ==> e.arguments().len() >= 4 && e.arguments()[3] == (
            ":phases"@,
            KwValue::Integer(e.cfg.phases as u128),
        ),
{
}

/// An inverter is built again from its own rating, delay and ramp.
pub proof fn law_inverter_is_built_as_it_is(c: CommonInverterCfg)
    requires
        c.rated_lower_w.finite(),
        c.rated_upper_w.finite(),
        c.ramp_rate_w_per_s.finite(),
    ensures
        c.arguments().len() >= 4,
        c.arguments().take(4) == seq![
            (":rated-lower"@, KwValue::Float(c.rated_lower_w)),
            (":rated-upper"@, KwValue::Float(c.rated_upper_w)),
            (":command-delay-ms"@, crate::kwargs::millis_value(c.command_delay)),
            (":ramp-rate"@, KwValue::Float(c.ramp_rate_w_per_s)),
        ],
{
}

} // verus!
