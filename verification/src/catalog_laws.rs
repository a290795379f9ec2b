//! The catalog of cars and the defaults of the components, in real numbers.

use crate::accuracy;
use crate::battery::BatteryConfig;
use crate::ev_charger::EvChargerConfig;
use crate::ev_presets::{ConnectedEv, EvOverrides, EvPreset};
use crate::reals;
use crate::single::Single;
use crate::solar_inverter::SolarInverterConfig;
use crate::steam_boiler::SteamBoilerConfig;
use crate::time::Timestamp;
use crate::weather::WeatherConfig;
use vstd::arithmetic::div_mod::*;
use vstd::arithmetic::power2::*;
use vstd::prelude::*;

verus! {

/// A bit pattern as a fraction of a power of two.
proof fn lemma_fraction(bits: u32, field: nat, sig: nat)
    requires
        100 <= field <= 150,
        field * 0x80_0000 <= bits < (field + 1) * 0x80_0000,
        bits - (field - 1) * 0x80_0000 == sig,
    ensures
        Single::lit(bits).finite(),
        Single::lit(bits).value() * pow2((150 - field) as nat) as real == sig as real,
{
    let k = (field - 1) as nat;
    let e = (150 - field) as nat;
    let c = bits as nat;
    crate::single::lemma_single_sizes();
    lemma2_to64();
    lemma_fundamental_div_mod_converse(
        c as int,
        0x80_0000,
        field as int,
        c - field * 0x80_0000,
    );
    assert(pow2((24 - 1) as nat) == 0x80_0000);
    assert(c / 0x80_0000 == field);
    assert(c < 151 * 0x80_0000);
    let a = Single::lit(bits);
    assert(crate::rounding::code_mag(24, c) == sig * pow2(k));
    lemma_pow2_adds(e, k);
    assert(e + k == 149);
    lemma_pow2_pos(149);
    lemma_pow2_pos(k);
    let u = pow2(149) as real;
    let w = pow2(e) as real;
    let p = pow2(k) as real;
    let s = sig as real;
    assert(u == w * p) by (nonlinear_arith)
        requires
            pow2(149) == pow2(e) * pow2(k),
            u == pow2(149) as real,
            w == pow2(e) as real,
            p == pow2(k) as real,
    ;
    assert(a.units() as real == s * p) by (nonlinear_arith)
        requires
            a.units() == sig * pow2(k),
            s == sig as real,
            p == pow2(k) as real,
    ;
    let v = a.value();
    reals::lemma_quotient(s * p, u);
    assert(v * u == s * p);
    reals::lemma_associates(v, w, p);
    reals::lemma_cancels(v * w, s, p);
}

/// The numbers that the configurations hold.
proof fn lemma_numbers()
    ensures
        Single::lit(0x47b3_b000).value() == 92000real,
        Single::lit(0x4248_0000).value() == 50real,
        Single::lit(0x4120_0000).value() == 10real,
        Single::lit(0x42b4_0000).value() == 90real,
        Single::lit(0x4448_0000).value() == 800real,
        Single::lit(0x46ea_6000).value() == 30000real,
        Single::lit(0x46ab_e000).value() == 22000real,
        Single::lit(0x4874_2400).value() == 250000real,
        Single::lit(0x4100_0000).value() == 8real,
        Single::lit(0x461c_4000).value() == 10000real,
        Single::lit(0x441c_c000).value() == 627real,
        Single::lit(0x44fa_0000).value() == 2000real,
        Single::lit(0x41a0_0000).value() == 20real,
        Single::lit(0x428c_0000).value() == 70real,
        Single::lit(0x4270_0000).value() == 60real,
        Single::lit(0x4416_0000).value() == 600real,
        Single::lit(0x4220_0000).value() == 40real,
        Single::lit(0x4180_0000).value() == 16real,
        Single::lit(0x464b_2000).value() == 13000real,
        Single::lit(0x42a0_0000).value() == 80real,
        Single::lit(0x4200_0000).value() == 32real,
        Single::lit(0x472f_c800).value() == 45000real,
        Single::lit(0x4796_6400).value() == 77000real,
        Single::lit(0x47c3_5000).value() == 100000real,
        Single::lit(0x42aa_0000).value() == 85real,
        Single::lit(0xc6ea_6000).value() == -30000real,
        Single::lit(0).value() == 0real,
        Single::lit(crate::single::HUNDRED).value() == 100real,
{
    lemma2_to64();
    accuracy::lemma_constants();
    accuracy::lemma_val_zero();
    accuracy::lemma_constant(0x47b3_b000, 143, 92000);
    accuracy::lemma_constant(0x4248_0000, 132, 50);
    accuracy::lemma_constant(0x4120_0000, 130, 10);
    accuracy::lemma_constant(0x42b4_0000, 133, 90);
    accuracy::lemma_constant(0x4448_0000, 136, 800);
    accuracy::lemma_constant(0x46ea_6000, 141, 30000);
    accuracy::lemma_constant(0x46ab_e000, 141, 22000);
    accuracy::lemma_constant(0x4874_2400, 144, 250000);
    accuracy::lemma_constant(0x4100_0000, 130, 8);
    accuracy::lemma_constant(0x461c_4000, 140, 10000);
    accuracy::lemma_constant(0x441c_c000, 136, 627);
    accuracy::lemma_constant(0x44fa_0000, 137, 2000);
    accuracy::lemma_constant(0x41a0_0000, 131, 20);
    accuracy::lemma_constant(0x428c_0000, 133, 70);
    accuracy::lemma_constant(0x4270_0000, 132, 60);
    accuracy::lemma_constant(0x4416_0000, 136, 600);
    accuracy::lemma_constant(0x4220_0000, 132, 40);
    accuracy::lemma_constant(0x4180_0000, 131, 16);
    accuracy::lemma_constant(0x464b_2000, 140, 13000);
    accuracy::lemma_constant(0x42a0_0000, 133, 80);
    accuracy::lemma_constant(0x4200_0000, 132, 32);
    accuracy::lemma_constant(0x472f_c800, 142, 45000);
    accuracy::lemma_constant(0x4796_6400, 143, 77000);
    accuracy::lemma_constant(0x47c3_5000, 143, 100000);
    accuracy::lemma_constant(0x42aa_0000, 133, 85);
    accuracy::lemma_negated_val(Single::lit(0x46ea_6000));
    assert(Single::lit(0x46ea_6000).fneg() == Single::lit(0xc6ea_6000));
}

/// A battery holds 92 kWh, starts half full, is kept between 10 and 90 percent
/// with a taper of 10, and takes and gives 30 kW at 800 V, unless told
/// otherwise.
pub proof fn law_default_battery()
    ensures
        ({
            let c = BatteryConfig::standard();
            &&& c.capacity_wh.value() == 92000real
            &&& c.initial_soc_pct.value() == 50real
            &&& c.soc_lower_pct.value() == 10real
            &&& c.soc_upper_pct.value() == 90real
            &&& c.soc_protect_margin_pct.value() == 10real
            &&& c.voltage_v.value() == 800real
            &&& c.rated_lower_w.value() == -30000real
            &&& c.rated_upper_w.value() == 30000real
            &&& c.stream_jitter_pct.value() == 0real
        }),
{
    lemma_numbers();
}

/// A charger offers 22 kW on three phases and nothing while it is not told to,
/// and answers a command after half a second, unless told otherwise.
pub proof fn law_default_charger()
    ensures
        ({
            let c = EvChargerConfig::standard();
            &&& c.rated_lower_w.value() == 0real
            &&& c.rated_upper_w.value() == 22000real
            &&& c.phases == 3
            &&& c.idle_offer().value() == 0real
            &&& c.command_delay.total() == 500_000_000
            &&& !c.resume_on_recovery
        }),
{
    lemma_numbers();
}

/// A boiler has 250 kW, holds 8 bar and stands 10, stores 10 kWh per bar and
/// takes 627 Wh for a kg of steam, unless told otherwise.
pub proof fn law_default_boiler()
    ensures
        ({
            let c = SteamBoilerConfig::standard();
            &&& c.rated_lower_w.value() == 0real
            &&& c.rated_upper_w.value() == 250000real
            &&& c.target_bar.value() == 8real
            &&& c.max_bar.value() == 10real
            &&& c.capacity_wh_per_bar.value() == 10000real
            &&& c.wh_per_kg.value() == 627real
            &&& c.demand_kg_h.value() == 0real
            &&& c.command_delay.total() == 500_000_000
        }),
{
    lemma_numbers();
}

/// A solar inverter produces 30 kW in full sun from an array of that peak,
/// unless told otherwise.
pub proof fn law_default_solar_inverter()
    ensures
        ({
            let c = SolarInverterConfig::standard();
            &&& c.rated_lower_w.value() == -30000real
            &&& c.rated_upper_w.value() == 0real
            &&& c.array_peak_w.value() == 30000real
            &&& c.sunlight_pct.value() == 100real
            &&& c.reactive_ramp_rate_var_per_s.value() == 2000real
            &&& c.command_delay.total() == 0
            &&& c.reactive_command_delay.total() == 100_000_000
            &&& c.weather_lag.total() == 0
        }),
{
    lemma_numbers();
}

/// The sun shines from six to eight in the evening, fully at noon. Random
/// clouds, once there are any, take 20 to 70 percent of the light for one to
/// ten minutes, with ramps of 10 to 60 seconds.
pub proof fn law_default_weather()
    ensures
        ({
            let c = WeatherConfig::standard();
            &&& c.sunrise.total() == 6 * 3600 * 1_000_000_000
            &&& c.sunset.total() == 20 * 3600 * 1_000_000_000
            &&& c.peak_pct.value() == 100real
            &&& c.cloud_rate_per_h is None
            &&& c.cloud_depth.0.value() == 20real && c.cloud_depth.1.value() == 70real
            &&& c.cloud_duration.0.value() == 60real && c.cloud_duration.1.value() == 600real
            &&& c.cloud_ramp.0.value() == 10real && c.cloud_ramp.1.value() == 60real
        }),
{
    lemma_numbers();
}

/// The cars of the catalog: phases, current, capacity, where the taper starts
/// and the floor that it ends on. Each arrives at 40 percent.
pub proof fn law_catalog_of_cars(name: Seq<char>, p: EvPreset)
    requires
        crate::ev_presets::is_preset(name, p),
    ensures
        p.initial_soc_pct.value() == 40real,
        name == "phev"@ ==> p.phases == 1 && p.max_current_a.value() == 16real
            && p.capacity_wh.value() == 13000real && p.taper_start_pct.value() == 80real
            && p.taper_floor.value() == 1real / 4real,
        name == "city"@ ==> p.phases == 1 && p.max_current_a.value() == 32real
            && p.capacity_wh.value() == 45000real && p.taper_start_pct.value() == 80real
            && p.taper_floor.value() == 1real / 4real,
        name == "sedan"@ ==> p.phases == 3 && p.max_current_a.value() == 16real
            && p.capacity_wh.value() == 77000real && p.taper_start_pct.value() == 80real
            && accuracy::close(
            p.taper_floor.value(),
            1real / 5real,
            accuracy::half_ulp(),
            0real,
        ),
        name == "van"@ ==> p.phases == 3 && p.max_current_a.value() == 32real
            && p.capacity_wh.value() == 100000real && p.taper_start_pct.value() == 85real
            && accuracy::close(
            p.taper_floor.value(),
            3real / 10real,
            accuracy::half_ulp(),
            0real,
        ),
{
    lemma_numbers();
    lemma2_to64();
    assert(pow2(25) == 0x200_0000);
    assert(pow2(26) == 0x400_0000);
    assert((150 - 125) as nat == 25);
    assert((150 - 124) as nat == 26);
    lemma_fraction(0x3e80_0000, 125, 0x80_0000);
    lemma_fraction(0x3e4c_cccd, 124, 0xcc_cccd);
    lemma_fraction(0x3e99_999a, 125, 0x99_999a);
    let w = pow2(25) as real;
    let x = pow2(26) as real;
    reals::lemma_cancels(Single::lit(0x3e80_0000).value(), 1real / 4real, w);
    reals::lemma_cancels(Single::lit(0x3e4c_cccd).value(), 13421773real / 67108864real, x);
    reals::lemma_cancels(Single::lit(0x3e99_999a).value(), 10066330real / 33554432real, w);
    accuracy::lemma_half_ulp(1real / 5real);
    accuracy::lemma_half_ulp(3real / 10real);
}

/// What the checks admit: percentages from 0 to 100, fractions from 0 to 1,
/// positive numbers, amounts from 0 on, and seconds up to a day.
pub proof fn law_checks_admit_their_ranges(v: Single)
    requires
        v.finite(),
    ensures
        crate::ev_presets::is_percent(v) <==> 0real <= v.value() <= 100real,
        crate::ev_presets::is_fraction(v) <==> 0real <= v.value() <= 1real,
        crate::ev_presets::is_positive(v) <==> v.value() > 0real,
        crate::validate::is_percentage(v) <==> 0real <= v.value() <= 100real,
        crate::validate::is_amount(v) <==> v.value() >= 0real,
        crate::validate::is_cloud_secs(v) <==> 0real <= v.value() <= 86400real,
{
    let zero = Single::lit(0);
    let one = Single::lit(crate::single::ONE);
    let hundred = Single::lit(crate::single::HUNDRED);
    let day = Single::lit(crate::validate::MAX_SECS);
    lemma2_to64();
    accuracy::lemma_val_zero();
    accuracy::lemma_constants();
    accuracy::lemma_constant(crate::validate::MAX_SECS, 143, 86400);
    accuracy::law_values_keep_order(zero, v);
    accuracy::law_values_keep_order(v, zero);
    accuracy::law_values_keep_order(v, one);
    accuracy::law_values_keep_order(v, hundred);
    accuracy::law_values_keep_order(v, day);
}

/// A state of charge that is set by hand is the number itself, between empty
/// and full.
pub proof fn law_set_soc_is_limited(pct: Single)
    requires
        pct.finite(),
    ensures
        crate::decay::sane_soc(pct) is Some,
        (crate::decay::sane_soc(pct)->0).finite(),
        (crate::decay::sane_soc(pct)->0).value() == accuracy::limited(
            pct.value(),
            0real,
            100real,
        ),
{
    accuracy::lemma_val_zero();
    accuracy::lemma_constants();
    crate::charge_laws::law_clamp_limits_the_value(
        pct,
        Single::lit(0),
        Single::lit(crate::single::HUNDRED),
    );
}

/// A whole percent is at most half a percent away.
pub proof fn law_whole_percent_is_nearest(v: Single)
    requires
        v.finite(),
        0real <= v.value() <= 100real,
    ensures
        accuracy::dist(v.rounded() as real - v.value()) <= 1real / 2real,
{
    let u = pow2(149);
    let m = v.units();
    accuracy::lemma_val_parts(v);
    accuracy::lemma_sign_of_val(v);
    lemma_pow2_pos(149);
    let ur = u as real;
    let x = v.value();
    reals::lemma_product_sign(x, ur);
    assert(m as real == x * ur);
    assert(m >= 0);
    let n = 2 * m + u;
    let d = 2 * u as int;
    lemma_fundamental_div_mod(n, d);
    let q = n / d;
    let r = n % d;
    assert(q >= 0) by (nonlinear_arith)
        requires
            n == d * q + r,
            0 <= r < d,
            n >= 0,
            d > 0,
    ;
    let qr = q as real;
    assert((d * q) as real == 2real * (ur * qr)) by (nonlinear_arith)
        requires
            d == 2 * u,
            ur == u as real,
            qr == q as real,
    ;
    reals::lemma_commutes(ur, qr);
    reals::lemma_distributes(qr, x, ur);
    let e = qr - x;
    assert(2real * (e * ur) == ur - r as real);
    reals::lemma_associates(2real, e, ur);
    reals::lemma_associates(-2real, e, ur);
    reals::lemma_zero(ur);
    reals::lemma_cancels(2real * e, 1real, ur);
    reals::lemma_cancels(-2real * e, 1real, ur);
}

/// What a car is plugged in with beats what its preset says, and a car starts
/// its session with nothing drawn.
pub proof fn law_overrides_beat_the_preset(p: EvPreset, o: EvOverrides, now: Timestamp)
    ensures
        ({
            let car = ConnectedEv::of(p, o, now);
            &&& car.plugged_at == now
            &&& car.energy_wh.value() == 0real
            &&& o.capacity_wh matches Some(v) ==> car.capacity_wh == v
            &&& o.capacity_wh is None ==> car.capacity_wh == p.capacity_wh
            &&& o.soc_pct matches Some(v) ==> car.soc_pct == v
            &&& o.soc_pct is None ==> car.soc_pct == p.initial_soc_pct
            &&& o.target_soc_pct matches Some(v) ==> car.target_soc_pct == v
            &&& o.target_soc_pct is None ==> car.target_soc_pct.value() == 100real
            &&& o.phases matches Some(v) ==> car.phases == v
            &&& o.phases is None ==> car.phases == p.phases
            &&& o.max_current_a matches Some(v) ==> car.max_current_a == v
            &&& o.max_current_a is None ==> car.max_current_a == p.max_current_a
            &&& o.taper_start_pct matches Some(v) ==> car.taper_start_pct == v
            &&& o.taper_start_pct is None ==> car.taper_start_pct == p.taper_start_pct
            &&& o.taper_floor matches Some(v) ==> car.taper_floor == v
            &&& o.taper_floor is None ==> car.taper_floor == p.taper_floor
        }),
{
    accuracy::lemma_val_zero();
    accuracy::lemma_constants();
}

/// The states of charge that count as a whole percent.
pub open spec fn counted_as(s: Seq<Single>, percent: nat) -> Seq<Single> {
    s.filter(|v: Single| crate::soc_stats::bucket(v) == percent)
}

proof fn lemma_tally_counts(s: Seq<Single>, percent: nat)
    ensures
        crate::soc_stats::tally(s, percent) == counted_as(s, percent).len(),
    decreases s.len(),
{
    reveal(Seq::filter);
    if s.len() > 0 {
        lemma_tally_counts(s.drop_last(), percent);
    }
}

/// The mode is the whole percent that most states of charge count as; where
/// several do, it is the lowest.
pub proof fn law_mode_is_the_commonest(s: Seq<Single>, mode: nat, percent: nat)
    requires
        crate::soc_stats::is_mode(s, mode),
        percent <= 100,
    ensures
        mode <= 100,
        counted_as(s, percent).len() <= counted_as(s, mode).len(),
        counted_as(s, percent).len() == counted_as(s, mode).len() ==> mode <= percent,
{
    lemma_tally_counts(s, percent);
    lemma_tally_counts(s, mode);
    assert(crate::soc_stats::tally(s, percent) <= crate::soc_stats::tally(s, mode));
}

} // verus!
