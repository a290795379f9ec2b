//! Electric cars: the catalog, and the car plugged into a charger.

use crate::single::{Single, HUNDRED, ONE, ZERO};
use crate::text::same_text;
use crate::time::{Span, Timestamp};
use vstd::prelude::*;

verus! {

/// The nominal voltage from phase to neutral, 230 V.
pub const NOMINAL_VOLTAGE_V: u32 = 0x4366_0000;

/// An AC charger cannot signal less than 6 A per phase; a limit below that
/// pauses the session.
pub const MIN_CURRENT_A: u32 = 0x40c0_0000;

/// The gap between one and the next number, `2^-23`.
pub const EPSILON: u32 = 0x3400_0000;

/// A catalog entry.
#[derive(Clone, Copy, Debug, PartialEq, Eq)]
pub struct EvPreset {
    pub name: &'static str,
    pub phases: u8,
    /// The limit of the car's charger, per phase.
    pub max_current_a: Single,
    pub capacity_wh: Single,
    pub initial_soc_pct: Single,
    /// Above this state of charge the accepted current falls in a line to
    pub taper_start_pct: Single,
    /// this fraction of `max_current_a` at 100 percent.
    pub taper_floor: Single,
}

/// The entry under a name of the catalog.
pub open spec fn is_preset(name: Seq<char>, p: EvPreset) -> bool {
    &&& p.name@ == name
    &&& p.initial_soc_pct == Single::lit(0x4220_0000)
    &&& name == "phev"@ ==> p.phases == 1 && p.max_current_a == Single::lit(0x4180_0000)
        && p.capacity_wh == Single::lit(0x464b_2000) && p.taper_start_pct == Single::lit(
        0x42a0_0000,
    ) && p.taper_floor == Single::lit(0x3e80_0000)
    &&& name == "city"@ ==> p.phases == 1 && p.max_current_a == Single::lit(0x4200_0000)
        && p.capacity_wh == Single::lit(0x472f_c800) && p.taper_start_pct == Single::lit(
        0x42a0_0000,
    ) && p.taper_floor == Single::lit(0x3e80_0000)
    &&& name == "sedan"@ ==> p.phases == 3 && p.max_current_a == Single::lit(0x4180_0000)
        && p.capacity_wh == Single::lit(0x4796_6400) && p.taper_start_pct == Single::lit(
        0x42a0_0000,
    ) && p.taper_floor == Single::lit(0x3e4c_cccd)
    &&& name == "van"@ ==> p.phases == 3 && p.max_current_a == Single::lit(0x4200_0000)
        && p.capacity_wh == Single::lit(0x47c3_5000) && p.taper_start_pct == Single::lit(
        0x42aa_0000,
    ) && p.taper_floor == Single::lit(0x3e99_999a)
}

/// The catalog entry with a name.
///
/// A plug-in hybrid ("phev": one phase, 16 A, 13 kWh), a city car ("city": one
/// phase, 32 A, 45 kWh), a sedan (three phases, 16 A, 77 kWh) and a van (three
/// phases, 32 A, 100 kWh), each delivered at 40 percent.
pub fn preset(name: &str) -> (r: Option<EvPreset>)
    ensures
        r is Some <==> name@ == "phev"@ || name@ == "city"@ || name@ == "sedan"@ || name@ == "van"@,
        r matches Some(p) ==> is_preset(name@, p),
{
    proof {
        reveal_strlit("phev");
        reveal_strlit("city");
        reveal_strlit("sedan");
        reveal_strlit("van");
        assert("phev"@[0] == 'p');
        assert("city"@[0] == 'c');
        assert("sedan"@[0] == 's');
        assert("van"@[0] == 'v');
    }
    let initial_soc_pct = Single::from_bits(0x4220_0000);
    if same_text(name, "phev") {
        Some(
            EvPreset {
                name: "phev",
                phases: 1,
                max_current_a: Single::from_bits(0x4180_0000),
                capacity_wh: Single::from_bits(0x464b_2000),
                initial_soc_pct,
                taper_start_pct: Single::from_bits(0x42a0_0000),
                taper_floor: Single::from_bits(0x3e80_0000),
            },
        )
    } else if same_text(name, "city") {
        Some(
            EvPreset {
                name: "city",
                phases: 1,
                max_current_a: Single::from_bits(0x4200_0000),
                capacity_wh: Single::from_bits(0x472f_c800),
                initial_soc_pct,
                taper_start_pct: Single::from_bits(0x42a0_0000),
                taper_floor: Single::from_bits(0x3e80_0000),
            },
        )
    } else if same_text(name, "sedan") {
        Some(
            EvPreset {
                name: "sedan",
                phases: 3,
                max_current_a: Single::from_bits(0x4180_0000),
                capacity_wh: Single::from_bits(0x4796_6400),
                initial_soc_pct,
                taper_start_pct: Single::from_bits(0x42a0_0000),
                taper_floor: Single::from_bits(0x3e4c_cccd),
            },
        )
    } else if same_text(name, "van") {
        Some(
            EvPreset {
                name: "van",
                phases: 3,
                max_current_a: Single::from_bits(0x4200_0000),
                capacity_wh: Single::from_bits(0x47c3_5000),
                initial_soc_pct,
                taper_start_pct: Single::from_bits(0x42aa_0000),
                taper_floor: Single::from_bits(0x3e99_999a),
            },
        )
    } else {
        None
    }
}

/// What replaces a preset's values for one car.
#[derive(Clone, Copy, Debug, PartialEq, Eq)]
pub struct EvOverrides {
    pub soc_pct: Option<Single>,
    pub target_soc_pct: Option<Single>,
    pub phases: Option<u8>,
    pub max_current_a: Option<Single>,
    pub capacity_wh: Option<Single>,
    pub taper_start_pct: Option<Single>,
    pub taper_floor: Option<Single>,
}

impl Default for EvOverrides {
    fn default() -> (r: Self)
        ensures
            r == (EvOverrides {
                soc_pct: None,
                target_soc_pct: None,
                phases: None,
                max_current_a: None,
                capacity_wh: None,
                taper_start_pct: None,
                taper_floor: None,
            }),
    {
        EvOverrides {
            soc_pct: None,
            target_soc_pct: None,
            phases: None,
            max_current_a: None,
            capacity_wh: None,
            taper_start_pct: None,
            taper_floor: None,
        }
    }
}

/// The car plugged into a charger.
#[derive(Clone, Copy, Debug, PartialEq, Eq)]
pub struct ConnectedEv {
    pub preset: &'static str,
    pub capacity_wh: Single,
    pub soc_pct: Single,
    pub target_soc_pct: Single,
    pub phases: u8,
    pub max_current_a: Single,
    pub taper_start_pct: Single,
    pub taper_floor: Single,
    pub plugged_at: Timestamp,
    pub energy_wh: Single,
}

/// A value of a car.
#[derive(Clone, Copy, Debug, PartialEq, Eq, Structural)]
pub enum EvField {
    Capacity,
    Soc,
    TargetSoc,
    MaxCurrent,
    TaperStart,
}

/// Why a car was refused.
#[derive(Clone, Copy, Debug, PartialEq, Eq, Structural)]
pub enum EvError {
    /// The phases are not 1, 2 or 3.
    Phases(u8),
    /// The taper floor is not within 0 and 1.
    TaperFloor(Single),
    /// The value is not a positive number.
    NotPositive(EvField, Single),
    /// The value is not within 0 and 100.
    NotPercent(EvField, Single),
}

pub open spec fn is_percent(v: Single) -> bool {
    Single::lit(ZERO).fle(v) && v.fle(Single::lit(HUNDRED))
}

pub open spec fn is_positive(v: Single) -> bool {
    v.finite() && Single::lit(ZERO).flt(v)
}

pub open spec fn is_fraction(v: Single) -> bool {
    Single::lit(ZERO).fle(v) && v.fle(Single::lit(ONE))
}

/// The overridden value, else the preset's.
pub open spec fn or_preset<T>(o: Option<T>, p: T) -> T {
    match o {
        Some(v) => v,
        None => p,
    }
}

fn choose_value(o: Option<Single>, p: Single) -> (r: Single)
    ensures
        r == or_preset(o, p),
{
    match o {
        Some(v) => v,
        None => p,
    }
}

fn percent(v: Single) -> (r: bool)
    ensures
        r == is_percent(v),
{
    Single::from_bits(ZERO).le(v) && v.le(Single::from_bits(HUNDRED))
}

fn positive(v: Single) -> (r: bool)
    ensures
        r == is_positive(v),
{
    v.is_finite() && Single::from_bits(ZERO).lt(v)
}

impl ConnectedEv {
    /// The car of a preset with overrides, before any check.
    pub open spec fn of(p: EvPreset, o: EvOverrides, now: Timestamp) -> ConnectedEv {
        ConnectedEv {
            preset: p.name,
            capacity_wh: or_preset(o.capacity_wh, p.capacity_wh),
            soc_pct: or_preset(o.soc_pct, p.initial_soc_pct),
            target_soc_pct: or_preset(o.target_soc_pct, Single::lit(HUNDRED)),
            phases: or_preset(o.phases, p.phases),
            max_current_a: or_preset(o.max_current_a, p.max_current_a),
            taper_start_pct: or_preset(o.taper_start_pct, p.taper_start_pct),
            taper_floor: or_preset(o.taper_floor, p.taper_floor),
            plugged_at: now,
            energy_wh: Single::lit(ZERO),
        }
    }

    /// The first thing wrong with a car, in the order of the checks.
    pub open spec fn defect(self) -> Option<EvError> {
        if !(1 <= self.phases <= 3) {
            Some(EvError::Phases(self.phases))
        } else if !is_fraction(self.taper_floor) {
            Some(EvError::TaperFloor(self.taper_floor))
        } else if !is_positive(self.capacity_wh) {
            Some(EvError::NotPositive(EvField::Capacity, self.capacity_wh))
        } else if !is_percent(self.soc_pct) {
            Some(EvError::NotPercent(EvField::Soc, self.soc_pct))
        } else if !is_percent(self.target_soc_pct) {
            Some(EvError::NotPercent(EvField::TargetSoc, self.target_soc_pct))
        } else if !is_positive(self.max_current_a) {
            Some(EvError::NotPositive(EvField::MaxCurrent, self.max_current_a))
        } else if !is_percent(self.taper_start_pct) {
            Some(EvError::NotPercent(EvField::TaperStart, self.taper_start_pct))
        } else {
            None
        }
    }

    /// The current that the car accepts at its state of charge: all of it up
    /// to the taper's start, then a straight line down to the floor.
    pub open spec fn accepted(self) -> Single {
        if self.soc_pct.fle(self.taper_start_pct) {
            self.max_current_a
        } else {
            let span = Single::lit(HUNDRED).fsub(self.taper_start_pct).fmax(Single::lit(EPSILON));
            let frac = self.soc_pct.fsub(self.taper_start_pct).fdiv(span).fclamp(
                Single::lit(ZERO),
                Single::lit(ONE),
            );
            let scale = Single::lit(ONE).fsub(
                frac.fmul(Single::lit(ONE).fsub(self.taper_floor)),
            );
            self.max_current_a.fmul(scale)
        }
    }

    /// The target is reached.
    pub open spec fn is_done(self) -> bool {
        self.target_soc_pct.fle(self.soc_pct)
    }

    /// The phases that car and charger share, at least one.
    pub open spec fn shared_phases(self, charger_phases: u8) -> nat {
        let both = if self.phases <= charger_phases {
            self.phases
        } else {
            charger_phases
        };
        if both == 0 {
            1
        } else {
            both as nat
        }
    }

    /// The power drawn when `offered_a` per phase is offered: the lesser of
    /// the offer and what the car accepts, on the shared phases.
    pub open spec fn draw(self, offered_a: Single, charger_phases: u8) -> Single {
        if self.is_done() {
            Single::lit(ZERO)
        } else {
            offered_a.fmin(self.accepted()).fmax(Single::lit(ZERO)).fmul(
                Single::lit(NOMINAL_VOLTAGE_V),
            ).fmul(Single::fint(self.shared_phases(charger_phases)))
        }
    }

    /// The car after `power_w` for `dt`.
    pub open spec fn charged(self, power_w: Single, dt: Span) -> ConnectedEv {
        ConnectedEv {
            energy_wh: self.energy_wh.fadd(
                power_w.fmul(dt.spec_seconds()).fdiv(Single::lit(crate::decay::SECS_PER_HOUR)),
            ),
            soc_pct: crate::decay::soc_after(self.soc_pct, power_w, dt, self.capacity_wh),
            ..self
        }
    }

    /// The car of a preset with overrides, unless something is wrong with it.
    pub fn new(p: &EvPreset, o: &EvOverrides, now: Timestamp) -> (r: Result<Self, EvError>)
        ensures
            match Self::of(*p, *o, now).defect() {
                Some(e) => r == Err::<Self, EvError>(e),
                None => r == Ok::<Self, EvError>(Self::of(*p, *o, now)),
            },
    {
        let phases: u8 = match o.phases {
            Some(n) => n,
            None => p.phases,
        };
        if phases < 1 || phases > 3 {
            return Err(EvError::Phases(phases));
        }
        let taper_floor = choose_value(o.taper_floor, p.taper_floor);
        if !(Single::from_bits(ZERO).le(taper_floor) && taper_floor.le(Single::from_bits(ONE))) {
            return Err(EvError::TaperFloor(taper_floor));
        }
        let capacity_wh = choose_value(o.capacity_wh, p.capacity_wh);
        if !positive(capacity_wh) {
            return Err(EvError::NotPositive(EvField::Capacity, capacity_wh));
        }
        let soc_pct = choose_value(o.soc_pct, p.initial_soc_pct);
        if !percent(soc_pct) {
            return Err(EvError::NotPercent(EvField::Soc, soc_pct));
        }
        let target_soc_pct = choose_value(o.target_soc_pct, Single::from_bits(HUNDRED));
        if !percent(target_soc_pct) {
            return Err(EvError::NotPercent(EvField::TargetSoc, target_soc_pct));
        }
        let max_current_a = choose_value(o.max_current_a, p.max_current_a);
        if !positive(max_current_a) {
            return Err(EvError::NotPositive(EvField::MaxCurrent, max_current_a));
        }
        let taper_start_pct = choose_value(o.taper_start_pct, p.taper_start_pct);
        if !percent(taper_start_pct) {
            return Err(EvError::NotPercent(EvField::TaperStart, taper_start_pct));
        }
        Ok(
            ConnectedEv {
                preset: p.name,
                capacity_wh,
                soc_pct,
                target_soc_pct,
                phases,
                max_current_a,
                taper_start_pct,
                taper_floor,
                plugged_at: now,
                energy_wh: Single::from_bits(ZERO),
            },
        )
    }

    pub fn accepted_current_a(&self) -> (r: Single)
        ensures
            r == self.accepted(),
    {
        if self.soc_pct.le(self.taper_start_pct) {
            return self.max_current_a;
        }
        let one = Single::from_bits(ONE);
        let span = Single::from_bits(HUNDRED).minus(self.taper_start_pct).max(
            Single::from_bits(EPSILON),
        );
        let frac = self.soc_pct.minus(self.taper_start_pct).over(span).clamp(
            Single::from_bits(ZERO),
            one,
        );
        let scale = one.minus(frac.times(one.minus(self.taper_floor)));
        self.max_current_a.times(scale)
    }

    pub fn done(&self) -> (r: bool)
        ensures
            r == self.is_done(),
    {
        self.target_soc_pct.le(self.soc_pct)
    }

    pub fn draw_w(&self, offered_a: Single, charger_phases: u8) -> (r: Single)
        ensures
            r == self.draw(offered_a, charger_phases),
    {
        let zero = Single::from_bits(ZERO);
        if self.done() {
            return zero;
        }
        let amps = offered_a.min(self.accepted_current_a());
        let both: u8 = if self.phases <= charger_phases {
            self.phases
        } else {
            charger_phases
        };
        let phases: u64 = if both == 0 {
            1
        } else {
            both as u64
        };
        amps.max(zero).times(Single::from_bits(NOMINAL_VOLTAGE_V)).times(Single::of_integer(phases))
    }

    /// One rectangular step of charging.
    pub fn integrate(&mut self, power_w: Single, dt: Span)
        ensures
            *final(self) == old(self).charged(power_w, dt),
    {
        let wh = power_w.times(dt.seconds()).over(Single::from_bits(crate::decay::SECS_PER_HOUR));
        self.energy_wh = self.energy_wh.plus(wh);
        self.soc_pct = crate::decay::integrate_soc_pct(
            self.soc_pct,
            power_w,
            dt,
            self.capacity_wh,
        );
    }
}

/// The current per phase that a power limit amounts to.
pub open spec fn limit_amps(limit_w: Single, charger_phases: u8) -> Single {
    limit_w.fdiv(
        Single::lit(NOMINAL_VOLTAGE_V).fmul(
            Single::fint(
                if charger_phases == 0 {
                    1
                } else {
                    charger_phases as nat
                },
            ),
        ),
    )
}

/// The current per phase that a charger signals for a power limit; `None`
/// under the 6 A floor, where it pauses.
pub open spec fn offer(limit_w: Single, charger_phases: u8) -> Option<Single> {
    let amps = limit_amps(limit_w, charger_phases);
    if amps.finite() && Single::lit(MIN_CURRENT_A).fle(amps) {
        Some(amps)
    } else {
        None
    }
}

pub fn offered_current_a(limit_w: Single, charger_phases: u8) -> (r: Option<Single>)
    ensures
        r == offer(limit_w, charger_phases),
{
    let phases: u64 = if charger_phases == 0 {
        1
    } else {
        charger_phases as u64
    };
    let amps = limit_w.over(
        Single::from_bits(NOMINAL_VOLTAGE_V).times(Single::of_integer(phases)),
    );
    if amps.is_finite() && Single::from_bits(MIN_CURRENT_A).le(amps) {
        Some(amps)
    } else {
        None
    }
}

/// What a charger is doing with its car.
#[derive(Clone, Copy, Debug, PartialEq, Eq, Structural)]
pub enum EvDrawState {
    Charging,
    Paused,
    Done,
    Tripped,
}

impl EvDrawState {
    pub fn as_str(self) -> (r: &'static str)
        ensures
            self is Charging ==> r@ == "charging"@,
            self is Paused ==> r@ == "paused"@,
            self is Done ==> r@ == "done"@,
            self is Tripped ==> r@ == "tripped"@,
    {
        match self {
            EvDrawState::Charging => "charging",
            EvDrawState::Paused => "paused",
            EvDrawState::Done => "done",
            EvDrawState::Tripped => "tripped",
        }
    }
}

/// A plugged car and what the charger is doing with it.
#[derive(Clone, Copy, Debug)]
pub struct EvInfo {
    pub ev: ConnectedEv,
    pub state: EvDrawState,
}

/// A car that has reached its target draws nothing, whatever is offered.
pub proof fn law_done_car_draws_nothing(ev: ConnectedEv, offered_a: Single, phases: u8)
    requires
        ev.is_done(),
    ensures
        ev.draw(offered_a, phases) == Single::lit(ZERO),
{
}

/// An offer is never under the 6 A floor.
pub proof fn law_offer_respects_the_floor(limit_w: Single, phases: u8)
    ensures
        offer(limit_w, phases) matches Some(amps) ==> Single::lit(MIN_CURRENT_A).fle(amps),
{
}

/// A sound car accepts some current, never a negative one and never more than
/// its own maximum, whatever its state of charge.
pub proof fn law_accepted_current_is_capped(car: ConnectedEv)
    requires
        car.defect() is None,
    ensures
        car.accepted().finite(),
        0 <= car.accepted().rank() <= car.max_current_a.rank(),
{
    if !car.soc_pct.fle(car.taper_start_pct) {
        let one = Single::lit(ONE);
        let hundred = Single::lit(HUNDRED);
        let start = car.taper_start_pct;
        let z = Single::lit(ZERO);
        crate::single::lemma_single_sizes();
        crate::single_laws::lemma_negated_units(start);
        crate::single_laws::law_sum_is_nearest(hundred, start.fneg());
        crate::single_laws::law_sum_is_nearest(car.soc_pct, start.fneg());
        // the span of the taper is at most one hundred
        crate::ieee::lemma_mag_zero(crate::single::single_spec(), z.spec_num());
        crate::single_laws::law_rank_orders_values(z, start);
        crate::single_laws::law_rank_orders_values(start, hundred);
        crate::single_laws::law_nearest_of_number(hundred);
        crate::single_laws::law_nearest_of_number(z);
        crate::single_laws::law_nearest_is_monotone(
            hundred.units() - start.units(),
            hundred.units(),
        );
        crate::single_laws::law_nearest_is_monotone(0, hundred.units() - start.units());
        let span = hundred.fsub(start).fmax(Single::lit(EPSILON));
        let past = car.soc_pct.fsub(start).fdiv(span);
        assert(!past.nan()) by {
            reveal(Single::fdiv);
        }
        let frac = past.fclamp(z, one);
        let lost = one.fsub(car.taper_floor);
        crate::single_laws::law_complement_is_a_fraction(car.taper_floor);
        crate::single_laws::law_fraction_shrinks(frac, lost);
        crate::single_laws::law_complement_is_a_fraction(frac.fmul(lost));
        crate::single_laws::law_fraction_shrinks(
            car.max_current_a,
            one.fsub(frac.fmul(lost)),
        );
    }
}

} // verus!
