//! A battery on the DC side of its inverters.

use crate::accuracy;
use crate::bounds::VecBounds;
use crate::component::{power_state, Category, Telemetry, TelemetryView};
use crate::decay::{integrate_soc_pct, sanitize_soc_pct, soc_protected_bounds, SocProtect};
use crate::kwargs::{add_if, millis_kw, KwValue, Kwarg};
use crate::single::{Single, ONE, SIGN, ZERO};
use crate::text::numbered;
use crate::time::Span;
use vstd::prelude::*;

verus! {

#[derive(Clone, Copy, Debug)]
pub struct BatteryConfig {
    pub capacity_wh: Single,
    pub initial_soc_pct: Single,
    pub soc_lower_pct: Single,
    pub soc_upper_pct: Single,
    pub voltage_v: Single,
    pub rated_lower_w: Single,
    pub rated_upper_w: Single,
    /// The width of the band, in percent, over which the power tapers to zero
    /// at a limit of the state of charge; zero disables it.
    pub soc_protect_margin_pct: Single,
    pub stream_jitter_pct: Single,
}

impl BatteryConfig {
    pub open spec fn standard() -> BatteryConfig {
        BatteryConfig {
            capacity_wh: Single::lit(0x47b3_b000),
            initial_soc_pct: Single::lit(0x4248_0000),
            soc_lower_pct: Single::lit(0x4120_0000),
            soc_upper_pct: Single::lit(0x42b4_0000),
            voltage_v: Single::lit(0x4448_0000),
            rated_lower_w: Single::lit(0xc6ea_6000),
            rated_upper_w: Single::lit(0x46ea_6000),
            soc_protect_margin_pct: Single::lit(0x4120_0000),
            stream_jitter_pct: Single::lit(ZERO),
        }
    }

    pub open spec fn protect(self) -> SocProtect {
        SocProtect {
            lower_pct: self.soc_lower_pct,
            upper_pct: self.soc_upper_pct,
            margin_pct: self.soc_protect_margin_pct,
        }
    }

    /// The bounds of the power at a state of charge.
    pub open spec fn bounds_at(self, soc: Single) -> (Single, Single) {
        crate::decay::protected_bounds(
            self.rated_lower_w,
            self.rated_upper_w,
            soc,
            self.protect(),
        )
    }

    fn soc_bounds(&self, soc: Single) -> (r: (Single, Single))
        ensures
            r == self.bounds_at(soc),
    {
        soc_protected_bounds(
            self.rated_lower_w,
            self.rated_upper_w,
            soc,
            SocProtect {
                lower_pct: self.soc_lower_pct,
                upper_pct: self.soc_upper_pct,
                margin_pct: self.soc_protect_margin_pct,
            },
        )
    }
}

impl Default for BatteryConfig {
    /// 92 kWh at 50 percent, limits of 10 and 90 percent with a taper of 10,
    /// 800 V, 30 kW either way.
    fn default() -> (r: Self)
        ensures
            r == BatteryConfig::standard(),
    {
        BatteryConfig {
            capacity_wh: Single::from_bits(0x47b3_b000),
            initial_soc_pct: Single::from_bits(0x4248_0000),
            soc_lower_pct: Single::from_bits(0x4120_0000),
            soc_upper_pct: Single::from_bits(0x42b4_0000),
            voltage_v: Single::from_bits(0x4448_0000),
            rated_lower_w: Single::from_bits(0xc6ea_6000),
            rated_upper_w: Single::from_bits(0x46ea_6000),
            soc_protect_margin_pct: Single::from_bits(0x4120_0000),
            stream_jitter_pct: Single::from_bits(ZERO),
        }
    }
}

#[derive(Clone, Copy, Debug)]
pub struct BatteryState {
    /// The settled active power in W.
    pub power_w: Single,
    /// The settled reactive power; it loads the conductors but moves no
    /// energy.
    pub reactive_var: Single,
    /// What the inverters have pushed since the last tick, summed.
    pub pending_p: Single,
    pub pending_q: Single,
    /// The share of the last push that the bounds let through.
    pub accept_ratio: Single,
    pub soc_pct: Single,
    pub effective_lower_w: Single,
    pub effective_upper_w: Single,
}

#[derive(Debug)]
pub struct Battery {
    pub id: u64,
    pub name: String,
    pub interval: Span,
    pub cfg: BatteryConfig,
    pub state: BatteryState,
}

impl BatteryState {
    /// The share of `total` that `settled` is, between zero and one; one
    /// where nothing was pushed.
    pub open spec fn ratio(settled: Single, total: Single) -> Single {
        if !total.feq(Single::lit(ZERO)) && settled.finite() {
            crate::decay::unit_range(settled.fdiv(total))
        } else {
            Single::lit(ONE)
        }
    }

    /// The state after a tick: the bounds follow the state of charge, the sum
    /// of the pushes is limited to them and settles, and it moves the state of
    /// charge.
    pub open spec fn ticked(self, cfg: BatteryConfig, dt: Span) -> BatteryState {
        let (l, u) = cfg.bounds_at(self.soc_pct);
        let settled = self.pending_p.fmin(u).fmax(l);
        BatteryState {
            power_w: settled,
            reactive_var: self.pending_q,
            pending_p: Single::lit(ZERO),
            pending_q: Single::lit(ZERO),
            accept_ratio: Self::ratio(settled, self.pending_p),
            soc_pct: crate::decay::soc_after(self.soc_pct, settled, dt, cfg.capacity_wh),
            effective_lower_w: l,
            effective_upper_w: u,
        }
    }

    /// The apparent power with the sign of the active power.
    pub open spec fn signed_apparent(self) -> Single {
        self.power_w.fmul(self.power_w).fadd(
            self.reactive_var.fmul(self.reactive_var),
        ).fsqrt().fmul(
            if Single::lit(ZERO).fle(self.power_w) {
                Single::lit(ONE)
            } else {
                Single::lit((ONE + SIGN) as u32)
            },
        )
    }
}

impl Battery {
    pub open spec fn wf(self) -> bool {
        self.interval.wf()
    }

    /// The battery with its state of charge set; a value that is not finite
    /// is ignored.
    pub open spec fn with_soc(self, pct: Single) -> Battery {
        Battery {
            state: BatteryState {
                soc_pct: match crate::decay::sane_soc(pct) {
                    Some(v) => v,
                    None => self.state.soc_pct,
                },
                ..self.state
            },
            ..self
        }
    }

    /// The battery with an inverter's push added to the next tick's sum.
    pub open spec fn pushed(self, p: Single) -> Battery {
        Battery {
            state: BatteryState { pending_p: self.state.pending_p.fadd(p), ..self.state },
            ..self
        }
    }

    pub fn new(id: u64, interval: Span, cfg: BatteryConfig) -> (r: Self)
        requires
            interval.wf(),
        ensures
            r.wf(),
            r.id == id,
            r.name@ == "bat"@ + "-"@ + crate::text::decimal(id as nat),
            r.interval == interval,
            r.cfg == cfg,
            r.state == (BatteryState {
                power_w: Single::lit(ZERO),
                reactive_var: Single::lit(ZERO),
                pending_p: Single::lit(ZERO),
                pending_q: Single::lit(ZERO),
                accept_ratio: Single::lit(ONE),
                soc_pct: cfg.initial_soc_pct,
                effective_lower_w: cfg.bounds_at(cfg.initial_soc_pct).0,
                effective_upper_w: cfg.bounds_at(cfg.initial_soc_pct).1,
            }),
    {
        let (l, u) = cfg.soc_bounds(cfg.initial_soc_pct);
        let zero = Single::from_bits(ZERO);
        Battery {
            id,
            name: numbered("bat", id),
            interval,
            cfg,
            state: BatteryState {
                power_w: zero,
                reactive_var: zero,
                pending_p: zero,
                pending_q: zero,
                accept_ratio: Single::from_bits(ONE),
                soc_pct: cfg.initial_soc_pct,
                effective_lower_w: l,
                effective_upper_w: u,
            },
        }
    }

    /// Sets the state of charge; a value that is not finite is ignored. The
    /// next tick follows with the bounds.
    pub fn set_soc_pct(&mut self, pct: Single) -> (r: bool)
        ensures
            r,
            *final(self) == old(self).with_soc(pct),
    {
        if let Some(v) = sanitize_soc_pct(pct) {
            self.state.soc_pct = v;
        }
        true
    }

    pub fn tick(&mut self, dt: Span)
        ensures
            *final(self) == (Battery {
                state: old(self).state.ticked(old(self).cfg, dt),
                ..*old(self)
            }),
            is_stored(old(self).state, final(self).state, old(self).cfg, dt),
    {
        let s = self.state;
        let (l, u) = self.cfg.soc_bounds(s.soc_pct);
        let zero = Single::from_bits(ZERO);
        let one = Single::from_bits(ONE);
        let settled = s.pending_p.min(u).max(l);
        let accept_ratio = if !s.pending_p.equals(zero) && settled.is_finite() {
            settled.over(s.pending_p).clamp(zero, one)
        } else {
            one
        };
        self.state = BatteryState {
            power_w: settled,
            reactive_var: s.pending_q,
            pending_p: zero,
            pending_q: zero,
            accept_ratio,
            soc_pct: integrate_soc_pct(s.soc_pct, settled, dt, self.cfg.capacity_wh),
            effective_lower_w: l,
            effective_upper_w: u,
        };
        proof {
            lemma_stored(s, self.cfg, dt);
        }
    }

    pub open spec fn reading(self) -> TelemetryView {
        let s = self.state;
        TelemetryView {
            soc_pct: Some(s.soc_pct),
            soc_lower_pct: Some(self.cfg.soc_lower_pct),
            soc_upper_pct: Some(self.cfg.soc_upper_pct),
            capacity_wh: Some(self.cfg.capacity_wh),
            dc_voltage_v: Some(self.cfg.voltage_v),
            dc_power_w: Some(s.signed_apparent()),
            dc_current_a: Some(
                if self.cfg.voltage_v.feq(Single::lit(ZERO)) {
                    Single::lit(ZERO)
                } else {
                    s.signed_apparent().fdiv(self.cfg.voltage_v)
                },
            ),
            active_power_bounds: Some(
                crate::bounds::one_band(s.effective_lower_w, s.effective_upper_w),
            ),
            component_state: Some(crate::component::state_label(s.power_w)),
            relay_state: Some("relay-closed"@),
            ..TelemetryView::blank(self.id, Some(Category::Battery))
        }
    }

    /// The snapshot. DC power and current show the apparent loading.
    pub fn telemetry(&self) -> (r: Telemetry)
        ensures
            r@ == self.reading(),
    {
        let s = self.state;
        let zero = Single::from_bits(ZERO);
        let apparent = s.power_w.times(s.power_w).plus(s.reactive_var.times(s.reactive_var)).sqrt();
        let signed = apparent.times(
            if zero.le(s.power_w) {
                Single::from_bits(ONE)
            } else {
                Single::from_bits(ONE + SIGN)
            },
        );
        let mut t = Telemetry::blank(self.id, Some(Category::Battery));
        t.soc_pct = Some(s.soc_pct);
        t.soc_lower_pct = Some(self.cfg.soc_lower_pct);
        t.soc_upper_pct = Some(self.cfg.soc_upper_pct);
        t.capacity_wh = Some(self.cfg.capacity_wh);
        t.dc_voltage_v = Some(self.cfg.voltage_v);
        t.dc_power_w = Some(signed);
        t.dc_current_a = Some(
            if self.cfg.voltage_v.equals(zero) {
                zero
            } else {
                signed.over(self.cfg.voltage_v)
            },
        );
        t.active_power_bounds = Some(VecBounds::single(s.effective_lower_w, s.effective_upper_w));
        t.component_state = Some(power_state(s.power_w));
        t.relay_state = Some("relay-closed");
        t
    }

    /// Adds an inverter's push to the next tick's sum.
    pub fn set_dc_power(&mut self, p: Single)
        ensures
            *final(self) == old(self).pushed(p),
    {
        self.state.pending_p = self.state.pending_p.plus(p);
    }

    /// Adds an inverter's active and reactive push to the next tick's sums.
    pub fn set_dc_active_reactive(&mut self, p: Single, q: Single)
        ensures
            *final(self) == (Battery {
                state: BatteryState {
                    pending_p: old(self).state.pending_p.fadd(p),
                    pending_q: old(self).state.pending_q.fadd(q),
                    ..old(self).state
                },
                ..*old(self)
            }),
    {
        self.state.pending_p = self.state.pending_p.plus(p);
        self.state.pending_q = self.state.pending_q.plus(q);
    }

    pub fn dc_accept_ratio(&self) -> (r: Single)
        ensures
            r == self.state.accept_ratio,
    {
        self.state.accept_ratio
    }

    pub fn effective_active_bounds(&self) -> (r: VecBounds)
        ensures
            r@ == crate::bounds::one_band(
                self.state.effective_lower_w,
                self.state.effective_upper_w,
            ),
    {
        VecBounds::single(self.state.effective_lower_w, self.state.effective_upper_w)
    }

    pub open spec fn arguments(self) -> Seq<(Seq<char>, KwValue)> {
        let c = self.cfg;
        crate::kwargs::only_if(true, ":capacity"@, KwValue::Float(c.capacity_wh))
            + crate::kwargs::only_if(true, ":initial-soc"@, KwValue::Float(c.initial_soc_pct))
            + crate::kwargs::only_if(true, ":soc-lower"@, KwValue::Float(c.soc_lower_pct))
            + crate::kwargs::only_if(true, ":soc-upper"@, KwValue::Float(c.soc_upper_pct))
            + crate::kwargs::only_if(true, ":voltage"@, KwValue::Float(c.voltage_v))
            + crate::kwargs::only_if(true, ":rated-lower"@, KwValue::Float(c.rated_lower_w))
            + crate::kwargs::only_if(true, ":rated-upper"@, KwValue::Float(c.rated_upper_w))
            + crate::kwargs::only_if(
            true,
            ":soc-protect-margin"@,
            KwValue::Float(c.soc_protect_margin_pct),
        ) + crate::kwargs::only_if(
            crate::kwargs::unusual_interval(self.interval),
            ":interval"@,
            crate::kwargs::millis_value(self.interval),
        ) + crate::kwargs::only_if(
            !c.stream_jitter_pct.feq(Single::lit(ZERO)),
            ":stream-jitter-pct"@,
            KwValue::Float(c.stream_jitter_pct),
        )
    }

    /// What the battery would be built from again; numbers that are not finite
    /// are left out.
    pub fn constructor_kwargs(&self) -> (r: Vec<Kwarg>)
        requires
            self.wf(),
        ensures
            crate::kwargs::pairs(r@) == self.arguments(),
    {
        let c = &self.cfg;
        let mut kw: Vec<Kwarg> = Vec::new();
        add_if(&mut kw, true, ":capacity", KwValue::Float(c.capacity_wh));
        add_if(&mut kw, true, ":initial-soc", KwValue::Float(c.initial_soc_pct));
        add_if(&mut kw, true, ":soc-lower", KwValue::Float(c.soc_lower_pct));
        add_if(&mut kw, true, ":soc-upper", KwValue::Float(c.soc_upper_pct));
        add_if(&mut kw, true, ":voltage", KwValue::Float(c.voltage_v));
        add_if(&mut kw, true, ":rated-lower", KwValue::Float(c.rated_lower_w));
        add_if(&mut kw, true, ":rated-upper", KwValue::Float(c.rated_upper_w));
        add_if(&mut kw, true, ":soc-protect-margin", KwValue::Float(c.soc_protect_margin_pct));
        add_if(
            &mut kw,
            self.interval != (Span { secs: 1, nanos: 0 }),
            ":interval",
            millis_kw(self.interval),
        );
        add_if(
            &mut kw,
            !c.stream_jitter_pct.equals(Single::from_bits(ZERO)),
            ":stream-jitter-pct",
            KwValue::Float(c.stream_jitter_pct),
        );
        assert(crate::kwargs::pairs(kw@) == self.arguments());
        kw
    }
}

/// The settled power stays inside the bounds of the tick, where these are
/// numbers in order and the push is a number.
pub proof fn law_settled_power_is_bounded(s: BatteryState, cfg: BatteryConfig, dt: Span)
    requires
        cfg.bounds_at(s.soc_pct).0.fle(cfg.bounds_at(s.soc_pct).1),
        !s.pending_p.nan(),
    ensures
        s.ticked(cfg, dt).effective_lower_w.fle(s.ticked(cfg, dt).power_w),
        s.ticked(cfg, dt).power_w.fle(s.ticked(cfg, dt).effective_upper_w),
{
}

/// A tick uses the pushes up: the next one starts from zero.
pub proof fn law_pushes_count_once(s: BatteryState, cfg: BatteryConfig, dt: Span)
    ensures
        s.ticked(cfg, dt).pending_p == Single::lit(ZERO),
        s.ticked(cfg, dt).pending_q == Single::lit(ZERO),
{
}

/// The power that settled is in the state of charge: it has moved with the
/// power's sign, and by `power * dt / 3600 / capacity * 100` percent between
/// empty and full.
pub open spec fn is_stored(
    before: BatteryState,
    after: BatteryState,
    cfg: BatteryConfig,
    dt: Span,
) -> bool {
    let p = after.power_w.value();
    let cap = cfg.capacity_wh.value();
    let change = p * dt.exact_seconds() / 3600real / cap * 100real;
    let due = before.soc_pct.value() + change;
    dt.wf() && before.soc_pct.finite() && after.power_w.finite() && cfg.capacity_wh.finite()
        && 0real <= before.soc_pct.value() <= 100real ==> {
        &&& after.soc_pct.finite()
        &&& p >= 0real ==> after.soc_pct.value() >= before.soc_pct.value()
        &&& p <= 0real ==> after.soc_pct.value() <= before.soc_pct.value()
        &&& cap > 0real && accuracy::dist(p * dt.exact_seconds()) <= accuracy::ample() / 4real
            && accuracy::dist(change) <= accuracy::ample() / 4real ==> accuracy::dist(
            after.soc_pct.value() - accuracy::limited(due, 0real, 100real),
        ) <= accuracy::dist(due) * accuracy::half_ulp() + accuracy::dist(change)
            * accuracy::steps(9) + 2000real * accuracy::speck() * (1real + 1real / cap)
    }
}

proof fn lemma_stored(s: BatteryState, cfg: BatteryConfig, dt: Span)
    ensures
        is_stored(s, s.ticked(cfg, dt), cfg, dt),
{
    let after = s.ticked(cfg, dt);
    let p = after.power_w.value();
    let cap = cfg.capacity_wh.value();
    let change = p * dt.exact_seconds() / 3600real / cap * 100real;
    let zero = Single::lit(ZERO);
    let hundred = Single::lit(crate::single::HUNDRED);
    accuracy::lemma_val_zero();
    accuracy::lemma_constants();
    if dt.wf() && s.soc_pct.finite() && after.power_w.finite() && cfg.capacity_wh.finite()
        && 0real <= s.soc_pct.value() <= 100real {
        accuracy::law_values_keep_order(zero, s.soc_pct);
        accuracy::law_values_keep_order(s.soc_pct, hundred);
        accuracy::law_values_keep_order(zero, after.power_w);
        accuracy::law_values_keep_order(after.power_w, zero);
        crate::charge_laws::law_soc_moves_with_the_power(
            s.soc_pct,
            after.power_w,
            dt,
            cfg.capacity_wh,
        );
        crate::decay::law_soc_stays_in_range(s.soc_pct, after.power_w, dt, cfg.capacity_wh);
        accuracy::law_values_keep_order(s.soc_pct, after.soc_pct);
        accuracy::law_values_keep_order(after.soc_pct, s.soc_pct);
        if cap > 0real && accuracy::dist(p * dt.exact_seconds()) <= accuracy::ample() / 4real
            && accuracy::dist(change) <= accuracy::ample() / 4real {
            law_battery_stores_the_settled_power(s, cfg, dt);
        }
    }
}

/// Charging never lowers the state of charge, and discharging never raises it.
pub proof fn law_charging_fills_the_battery(s: BatteryState, cfg: BatteryConfig, dt: Span)
    requires
        dt.wf(),
        s.ticked(cfg, dt).power_w.finite(),
        cfg.capacity_wh.finite(),
        Single::lit(ZERO).fle(s.soc_pct),
        s.soc_pct.fle(Single::lit(crate::single::HUNDRED)),
    ensures
        Single::lit(ZERO).fle(s.ticked(cfg, dt).power_w) ==> s.soc_pct.fle(
            s.ticked(cfg, dt).soc_pct,
        ),
        s.ticked(cfg, dt).power_w.fle(Single::lit(ZERO)) ==> s.ticked(cfg, dt).soc_pct.fle(
            s.soc_pct,
        ),
{
    let after = s.ticked(cfg, dt);
    crate::charge_laws::law_soc_moves_with_the_power(
        s.soc_pct,
        after.power_w,
        dt,
        cfg.capacity_wh,
    );
}

/// A tick stores the settled power: over `dt` it moves the state of charge by
/// `power * dt / 3600 / capacity * 100` percent, between empty and full, to
/// the precision of the numbers.
pub proof fn law_battery_stores_the_settled_power(s: BatteryState, cfg: BatteryConfig, dt: Span)
    requires
        dt.wf(),
        s.soc_pct.finite(),
        s.ticked(cfg, dt).power_w.finite(),
        cfg.capacity_wh.finite(),
        0real <= s.soc_pct.value() <= 100real,
        cfg.capacity_wh.value() > 0real,
        accuracy::dist(s.ticked(cfg, dt).power_w.value() * dt.exact_seconds())
            <= accuracy::ample() / 4real,
        accuracy::dist(
            s.ticked(cfg, dt).power_w.value() * dt.exact_seconds() / 3600real
                / cfg.capacity_wh.value() * 100real,
        ) <= accuracy::ample() / 4real,
    ensures
        ({
            let after = s.ticked(cfg, dt);
            let cap = cfg.capacity_wh.value();
            let change = after.power_w.value() * dt.exact_seconds() / 3600real / cap * 100real;
            let due = s.soc_pct.value() + change;
            &&& after.soc_pct.finite()
            &&& accuracy::dist(
                after.soc_pct.value() - accuracy::limited(due, 0real, 100real),
            ) <= accuracy::dist(due) * accuracy::half_ulp() + accuracy::dist(change)
                * accuracy::steps(9) + 2000real * accuracy::speck() * (1real + 1real / cap)
        }),
{
    crate::charge_laws::law_soc_follows_the_energy(
        s.soc_pct,
        s.ticked(cfg, dt).power_w,
        dt,
        cfg.capacity_wh,
    );
}

/// A push that the bounds of the tick admit settles as it is.
pub proof fn law_admitted_push_settles(s: BatteryState, cfg: BatteryConfig, dt: Span)
    requires
        s.ticked(cfg, dt).effective_lower_w.fle(s.pending_p),
        s.pending_p.fle(s.ticked(cfg, dt).effective_upper_w),
    ensures
        s.ticked(cfg, dt).power_w == s.pending_p,
        s.ticked(cfg, dt).reactive_var == s.pending_q,
{
}

/// A push beyond a bound settles at that bound.
pub proof fn law_excess_push_is_cut(s: BatteryState, cfg: BatteryConfig, dt: Span)
    requires
        s.ticked(cfg, dt).effective_lower_w.fle(s.ticked(cfg, dt).effective_upper_w),
    ensures
        s.ticked(cfg, dt).effective_upper_w.flt(s.pending_p) ==> s.ticked(cfg, dt).power_w
            == s.ticked(cfg, dt).effective_upper_w,
        s.pending_p.flt(s.ticked(cfg, dt).effective_lower_w) ==> s.ticked(cfg, dt).power_w
            == s.ticked(cfg, dt).effective_lower_w,
{
}

/// The bounds of a tick are the rated power, scaled by how much of the margin
/// is left to the limit of the state of charge that the power moves towards.
pub proof fn law_bounds_taper_with_the_soc(s: BatteryState, cfg: BatteryConfig, dt: Span)
    requires
        cfg.rated_lower_w.finite(),
        cfg.rated_upper_w.finite(),
        s.soc_pct.finite(),
        cfg.soc_lower_pct.finite(),
        cfg.soc_upper_pct.finite(),
        cfg.soc_protect_margin_pct.finite(),
        cfg.soc_protect_margin_pct.value() > 0real,
        accuracy::dist(cfg.rated_lower_w.value()) <= accuracy::ample() / 4real,
        accuracy::dist(cfg.rated_upper_w.value()) <= accuracy::ample() / 4real,
        accuracy::dist(s.soc_pct.value() - cfg.soc_lower_pct.value()) <= accuracy::ample()
            / 4real,
        accuracy::dist(cfg.soc_upper_pct.value() - s.soc_pct.value()) <= accuracy::ample()
            / 4real,
        accuracy::dist(
            (s.soc_pct.value() - cfg.soc_lower_pct.value())
                / cfg.soc_protect_margin_pct.value(),
        ) <= accuracy::ample() / 4real,
        accuracy::dist(
            (cfg.soc_upper_pct.value() - s.soc_pct.value())
                / cfg.soc_protect_margin_pct.value(),
        ) <= accuracy::ample() / 4real,
    ensures
        ({
            let after = s.ticked(cfg, dt);
            let margin = cfg.soc_protect_margin_pct.value();
            let down = (s.soc_pct.value() - cfg.soc_lower_pct.value()) / margin;
            let up = (cfg.soc_upper_pct.value() - s.soc_pct.value()) / margin;
            let lower = cfg.rated_lower_w.value();
            let upper = cfg.rated_upper_w.value();
            &&& accuracy::close(
                after.effective_lower_w.value(),
                lower * accuracy::limited(down, 0real, 1real),
                accuracy::steps(3),
                accuracy::speck() * (1real + 2real * accuracy::dist(lower)),
            )
            &&& accuracy::close(
                after.effective_upper_w.value(),
                upper * accuracy::limited(up, 0real, 1real),
                accuracy::steps(3),
                accuracy::speck() * (1real + 2real * accuracy::dist(upper)),
            )
        }),
{
    crate::charge_laws::law_power_tapers_at_the_limits(
        cfg.rated_lower_w,
        cfg.rated_upper_w,
        s.soc_pct,
        cfg.protect(),
    );
}

/// Without a margin nothing tapers: the bounds are the rated power.
pub proof fn law_no_margin_no_taper(s: BatteryState, cfg: BatteryConfig, dt: Span)
    requires
        cfg.soc_protect_margin_pct.fle(Single::lit(ZERO)),
        cfg.rated_lower_w.finite(),
        cfg.rated_upper_w.finite(),
    ensures
        s.ticked(cfg, dt).effective_lower_w == cfg.rated_lower_w,
        s.ticked(cfg, dt).effective_upper_w == cfg.rated_upper_w,
{
    crate::single_laws::law_unit_factors(cfg.rated_lower_w);
    crate::single_laws::law_unit_factors(cfg.rated_upper_w);
    crate::charge_laws::law_product_commutes(cfg.rated_lower_w, Single::lit(ONE));
    crate::charge_laws::law_product_commutes(cfg.rated_upper_w, Single::lit(ONE));
}

/// The accepted share times the push is the settled power, where the push is
/// not less than what settles of it.
pub proof fn law_accepted_share_is_settled(s: BatteryState, cfg: BatteryConfig, dt: Span)
    requires
        s.pending_p.finite(),
        s.pending_p.value() != 0real,
        s.ticked(cfg, dt).power_w.finite(),
        0real <= s.ticked(cfg, dt).power_w.value() / s.pending_p.value() <= 1real,
    ensures
        ({
            let after = s.ticked(cfg, dt);
            let share = after.power_w.value() / s.pending_p.value();
            &&& after.accept_ratio.finite()
            &&& accuracy::close(
                after.accept_ratio.value(),
                share,
                accuracy::half_ulp(),
                accuracy::speck(),
            )
        }),
{
    let after = s.ticked(cfg, dt);
    let share = after.power_w.value() / s.pending_p.value();
    let zero = Single::lit(ZERO);
    accuracy::lemma_ample();
    accuracy::lemma_val_zero();
    accuracy::lemma_constants();
    accuracy::law_values_keep_order(s.pending_p, zero);
    accuracy::law_quotient_is_accurate(after.power_w, s.pending_p);
    let q = after.power_w.fdiv(s.pending_p);
    crate::charge_laws::law_clamp_limits_the_value(q, zero, Single::lit(ONE));
    assert(0real <= accuracy::half_ulp() <= 1real / 2real);
    accuracy::lemma_limited_unit(q.value(), share, accuracy::half_ulp(), accuracy::speck());
}

/// The DC power of a snapshot is the apparent loading with the sign of the
/// active power: it squares to the sum of the squares of the settled powers,
/// where it is not tiny, and flows in while the battery charges.
pub proof fn law_dc_power_is_the_signed_loading(s: BatteryState)
    requires
        s.power_w.finite(),
        s.reactive_var.finite(),
        s.power_w.value() * s.power_w.value() + s.reactive_var.value() * s.reactive_var.value()
            <= accuracy::ample() / 4real,
        s.power_w.value() * s.power_w.value() + s.reactive_var.value() * s.reactive_var.value()
            >= 1real / 1000real,
    ensures
        ({
            let dc = s.signed_apparent();
            &&& dc.finite()
            &&& s.power_w.value() >= 0real ==> dc.value() >= 0real
            &&& s.power_w.value() < 0real ==> dc.value() <= 0real
            &&& accuracy::close(
                dc.value() * dc.value(),
                s.power_w.value() * s.power_w.value() + s.reactive_var.value()
                    * s.reactive_var.value(),
                accuracy::steps(7),
                0real,
            )
        }),
{
    let a = crate::root_laws::computed_apparent(s.power_w, s.reactive_var);
    let x = a.value();
    crate::root_laws::law_apparent_power_is_the_hypotenuse(s.power_w, s.reactive_var);
    crate::single_laws::law_unit_factors(a);
    crate::charge_laws::law_product_commutes(a, Single::lit(ONE));
    crate::charge_laws::law_product_commutes(a, Single::lit((ONE + SIGN) as u32));
    accuracy::lemma_negated_val(a);
    accuracy::lemma_val_zero();
    accuracy::law_values_keep_order(Single::lit(ZERO), s.power_w);
    assert((-x) * (-x) == x * x) by (nonlinear_arith);
}

/// Pushes add up: what settles after two of them is what one of their sum
/// would settle, to the precision of the numbers.
pub proof fn law_pushes_add_up(b: Battery, p: Single, q: Single)
    requires
        b.state.pending_p == Single::lit(ZERO),
        p.finite(),
        q.finite(),
        accuracy::dist(p.value()) + accuracy::dist(q.value()) <= accuracy::ample() / 4real,
    ensures
        b.pushed(p).state.pending_p.finite(),
        b.pushed(p).state.pending_p.value() == p.value(),
        b.pushed(p).pushed(q).state.pending_p.finite(),
        accuracy::close(
            b.pushed(p).pushed(q).state.pending_p.value(),
            p.value() + q.value(),
            accuracy::half_ulp(),
            0real,
        ),
        b.pushed(p).pushed(q).state.soc_pct == b.state.soc_pct,
{
    let zero = Single::lit(ZERO);
    accuracy::lemma_val_zero();
    crate::single_laws::law_sum_is_nearest(zero, p);
    crate::single::lemma_single_sizes();
    crate::ieee::lemma_mag_zero(crate::single::single_spec(), zero.spec_num());
    crate::single_laws::law_nearest_of_number(p);
    let first = zero.fadd(p);
    assert(first.rank() == p.rank());
    accuracy::law_values_keep_order(first, p);
    accuracy::law_sum_is_accurate(first, q);
}

/// The DC current of a snapshot is its DC power over the battery's voltage.
pub proof fn law_dc_current_times_voltage_is_dc_power(b: Battery)
    requires
        b.state.signed_apparent().finite(),
        b.cfg.voltage_v.finite(),
        b.cfg.voltage_v.value() != 0real,
        accuracy::dist(b.state.signed_apparent().value() / b.cfg.voltage_v.value())
            <= accuracy::ample(),
    ensures
        b.reading().dc_power_w == Some(b.state.signed_apparent()),
        b.reading().soc_pct == Some(b.state.soc_pct),
        b.reading().dc_current_a is Some,
        ({
            let i = b.reading().dc_current_a->0;
            let v = b.cfg.voltage_v.value();
            &&& i.finite()
            &&& accuracy::close(
                i.value() * v,
                (b.reading().dc_power_w->0).value(),
                accuracy::half_ulp(),
                accuracy::speck() * accuracy::dist(v),
            )
        }),
{
    let p = b.state.signed_apparent();
    let v = b.cfg.voltage_v;
    accuracy::lemma_val_zero();
    accuracy::law_values_keep_order(v, Single::lit(ZERO));
    accuracy::law_quotient_is_accurate(p, v);
    let q = p.value() / v.value();
    crate::reals::lemma_quotient(p.value(), v.value());
    accuracy::lemma_scaled(
        p.fdiv(v).value(),
        q,
        accuracy::half_ulp(),
        accuracy::speck(),
        v.value(),
    );
}

} // verus!
