//! What the inverters have in common.

use crate::bounds::{Bounds, VecBounds};
use crate::component::{power_state, Category, Telemetry, TelemetryView};
use crate::grid_state::{per_phase_apparent_current, split_per_phase, GridState};
use crate::kwargs::{add_if, millis_kw, KwValue, Kwarg};
use crate::reactive::ReactiveCapability;
use crate::single::{Single, ZERO};
use crate::time::Span;
use vstd::prelude::*;

verus! {

/// The snapshot of an inverter at powers `p` and `q` within its envelopes.
pub open spec fn inverter_reading(
    id: u64,
    grid: GridState,
    p: Single,
    q: Single,
    active: Seq<Bounds>,
    reactive: Seq<Bounds>,
) -> TelemetryView {
    let v = grid.voltage_per_phase;
    let pp = crate::grid_state::phase_split(p, v);
    let qq = crate::grid_state::phase_split(q, v);
    TelemetryView {
        active_power_w: Some(p),
        reactive_power_var: Some(q),
        per_phase_active_w: Some(pp),
        per_phase_reactive_var: Some(qq),
        per_phase_voltage_v: Some(v),
        per_phase_current_a: Some(crate::grid_state::phase_currents(pp, qq, v)),
        frequency_hz: Some(grid.frequency_hz),
        active_power_bounds: Some(active),
        reactive_power_bounds: Some(reactive),
        component_state: Some(crate::component::state_label(p)),
        ..TelemetryView::blank(id, Some(Category::Inverter))
    }
}

pub fn inverter_telemetry(
    id: u64,
    grid: &GridState,
    p: Single,
    q: Single,
    active_power_bounds: VecBounds,
    reactive_power_bounds: VecBounds,
) -> (r: Telemetry)
    ensures
        r@ == inverter_reading(id, *grid, p, q, active_power_bounds@, reactive_power_bounds@),
{
    let pp = split_per_phase(p, grid.voltage_per_phase);
    let qq = split_per_phase(q, grid.voltage_per_phase);
    let mut t = Telemetry::blank(id, Some(Category::Inverter));
    t.active_power_w = Some(p);
    t.reactive_power_var = Some(q);
    t.per_phase_active_w = Some(pp);
    t.per_phase_reactive_var = Some(qq);
    t.per_phase_voltage_v = Some(grid.voltage_per_phase);
    t.per_phase_current_a = Some(per_phase_apparent_current(pp, qq, grid.voltage_per_phase));
    t.frequency_hz = Some(grid.frequency_hz);
    t.active_power_bounds = Some(active_power_bounds);
    t.reactive_power_bounds = Some(reactive_power_bounds);
    t.component_state = Some(power_state(p));
    t
}

/// The configuration that every inverter has.
#[derive(Clone, Copy, Debug)]
pub struct CommonInverterCfg {
    pub rated_lower_w: Single,
    pub rated_upper_w: Single,
    pub command_delay: Span,
    pub ramp_rate_w_per_s: Single,
    pub interval: Span,
    pub stream_jitter_pct: Single,
    pub reactive: ReactiveCapability,
    pub reactive_command_delay: Span,
    pub reactive_ramp_rate_var_per_s: Single,
}

/// A limit as an argument; an absent one is switched off explicitly, since
/// leaving it out would bring its default back.
pub open spec fn limit_value(limit: Option<Single>) -> KwValue {
    match limit {
        Some(v) => KwValue::Float(v),
        None => KwValue::Off,
    }
}

fn limit_kw(limit: Option<Single>) -> (r: KwValue)
    ensures
        r == limit_value(limit),
{
    match limit {
        Some(v) => KwValue::Float(v),
        None => KwValue::Off,
    }
}

impl CommonInverterCfg {
    pub open spec fn wf(self) -> bool {
        self.command_delay.wf() && self.interval.wf() && self.reactive_command_delay.wf()
    }

    pub open spec fn arguments(self) -> Seq<(Seq<char>, KwValue)> {
        crate::kwargs::only_if(true, ":rated-lower"@, KwValue::Float(self.rated_lower_w))
            + crate::kwargs::only_if(true, ":rated-upper"@, KwValue::Float(self.rated_upper_w))
            + crate::kwargs::only_if(
            true,
            ":command-delay-ms"@,
            crate::kwargs::millis_value(self.command_delay),
        ) + crate::kwargs::only_if(
            true,
            ":ramp-rate"@,
            KwValue::Float(self.ramp_rate_w_per_s),
        ) + crate::kwargs::only_if(
            crate::kwargs::unusual_interval(self.interval),
            ":interval"@,
            crate::kwargs::millis_value(self.interval),
        ) + crate::kwargs::only_if(
            !self.stream_jitter_pct.feq(Single::lit(ZERO)),
            ":stream-jitter-pct"@,
            KwValue::Float(self.stream_jitter_pct),
        ) + crate::kwargs::only_if(
            true,
            ":reactive-pf-limit"@,
            limit_value(self.reactive.pf_limit),
        ) + crate::kwargs::only_if(
            true,
            ":reactive-apparent-va"@,
            limit_value(self.reactive.apparent_va),
        ) + crate::kwargs::only_if(
            true,
            ":reactive-command-delay-ms"@,
            crate::kwargs::millis_value(self.reactive_command_delay),
        ) + crate::kwargs::only_if(
            true,
            ":reactive-ramp-rate"@,
            KwValue::Float(self.reactive_ramp_rate_var_per_s),
        )
    }
}

/// The arguments that every inverter would be built from again; numbers that
/// are not finite are left out.
pub fn common_inverter_kwargs(cfg: &CommonInverterCfg) -> (r: Vec<Kwarg>)
    requires
        cfg.wf(),
    ensures
        crate::kwargs::pairs(r@) == cfg.arguments(),
{
    let mut kw: Vec<Kwarg> = Vec::new();
    add_if(&mut kw, true, ":rated-lower", KwValue::Float(cfg.rated_lower_w));
    add_if(&mut kw, true, ":rated-upper", KwValue::Float(cfg.rated_upper_w));
    add_if(&mut kw, true, ":command-delay-ms", millis_kw(cfg.command_delay));
    add_if(
        &mut kw,
        true,
        ":ramp-rate",
        KwValue::Float(cfg.ramp_rate_w_per_s),
    );
    add_if(
        &mut kw,
        cfg.interval != (Span { secs: 1, nanos: 0 }),
        ":interval",
        millis_kw(cfg.interval),
    );
    add_if(
        &mut kw,
        !cfg.stream_jitter_pct.equals(Single::from_bits(ZERO)),
        ":stream-jitter-pct",
        KwValue::Float(cfg.stream_jitter_pct),
    );
    add_if(&mut kw, true, ":reactive-pf-limit", limit_kw(cfg.reactive.pf_limit));
    add_if(&mut kw, true, ":reactive-apparent-va", limit_kw(cfg.reactive.apparent_va));
    add_if(&mut kw, true, ":reactive-command-delay-ms", millis_kw(cfg.reactive_command_delay));
    add_if(
        &mut kw,
        true,
        ":reactive-ramp-rate",
        KwValue::Float(cfg.reactive_ramp_rate_var_per_s),
    );
    assert(crate::kwargs::pairs(kw@) == cfg.arguments());
    kw
}

} // verus!
