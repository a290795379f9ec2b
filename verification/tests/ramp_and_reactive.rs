//! Command delays, ramps and reactive capabilities.

use chrono::{TimeZone, Utc};
use macrocosim::component::Category;
use macrocosim::kwargs::KwValue;
use macrocosim::marker::Marker;
use macrocosim::ramp::{CommandDelay, Ramp};
use macrocosim::reactive::ReactiveCapability;
use macrocosim::single::Single;
use macrocosim::time::{Span, Timestamp};

fn f(x: f32) -> Single {
    Single::from_bits(x.to_bits())
}

fn n(x: Single) -> f32 {
    f32::from_bits(x.to_bits())
}

fn now() -> Timestamp {
    let t = Utc::now();
    Timestamp { secs: t.timestamp(), nanos: t.timestamp_subsec_nanos() }
}

fn ms(m: u64) -> Span {
    Span { secs: m / 1000, nanos: (m % 1000) as u32 * 1_000_000 }
}

fn later(t: Timestamp, m: u64) -> Timestamp {
    t.after(ms(m)).unwrap()
}

#[test]
fn command_delay_zero_arms_immediately() {
    let mut cd = CommandDelay::new(ms(0));
    cd.set_target(f(5000.0));
    assert_eq!(cd.armed().map(n), Some(5000.0));
}

#[test]
fn command_delay_blocks_until_due() {
    let t0 = now();
    let mut cd = CommandDelay::new(ms(2000));
    cd.set_target(f(5000.0));
    assert_eq!(cd.poll(t0), None); // first poll stamps the command
    assert_eq!(cd.poll(later(t0, 1000)), None);
    assert_eq!(cd.poll(later(t0, 2000)).map(n), Some(5000.0));
}

#[test]
fn command_delay_follows_the_tick_clock() {
    let day = Utc.with_ymd_and_hms(2020, 1, 1, 0, 0, 0).unwrap();
    let sim0 = Timestamp { secs: day.timestamp(), nanos: 0 };
    let mut cd = CommandDelay::new(ms(1000));
    cd.set_target(f(500.0));
    assert_eq!(cd.poll(sim0), None);
    assert_eq!(cd.poll(later(sim0, 1000)).map(n), Some(500.0));
}

#[test]
fn command_delay_survives_fast_resend_cadence() {
    let t0 = now();
    let mut cd = CommandDelay::new(ms(1500));
    let mut armed = None;
    for tick in 0..46u64 {
        if tick % 5 == 0 {
            cd.set_target(f((tick / 5 + 1) as f32 * 1000.0));
        }
        armed = cd.poll(later(t0, 100 * tick));
    }
    assert!(armed.is_some(), "fast re-sends starved the device");
    cd.poll(later(t0, 60_000));
    let settled = cd.poll(later(t0, 61_000));
    assert_eq!(settled.map(n), Some(10_000.0));
}

#[test]
fn command_delay_newest_waiting_command_wins() {
    let t0 = now();
    let mut cd = CommandDelay::new(ms(2000));
    cd.set_target(f(1000.0));
    assert_eq!(cd.poll(t0), None); // stamps 1000 at t0
    cd.set_target(f(2000.0));
    cd.set_target(f(3000.0)); // replaces 2000 in the waiting slot
    assert_eq!(cd.poll(later(t0, 400)), None);
    assert_eq!(cd.poll(later(t0, 2000)).map(n), Some(1000.0));
    assert_eq!(cd.poll(later(t0, 2300)).map(n), Some(1000.0));
    assert_eq!(cd.poll(later(t0, 2400)).map(n), Some(3000.0));
}

#[test]
fn ramp_step_limit() {
    let mut r = Ramp::new(f(1000.0), f(0.0));
    r.set_target(f(5000.0));
    assert_eq!(n(r.advance(ms(1000))), 1000.0);
    assert_eq!(n(r.advance(ms(1000))), 2000.0);
    // A big jump: the step caps it.
    assert_eq!(n(r.advance(ms(2000))), 4000.0);
}

#[test]
fn ramp_pass_through_when_infinite() {
    let mut r = Ramp::new(f(f32::INFINITY), f(0.0));
    r.set_target(f(5000.0));
    assert_eq!(n(r.advance(ms(1))), 5000.0);
}

#[test]
fn ramp_ignores_nan_target() {
    let mut r = Ramp::new(f(1000.0), f(0.0));
    r.set_target(f(5000.0));
    r.advance(ms(1000));
    r.set_target(f(f32::NAN));
    let v = n(r.advance(ms(1000)));
    assert!(v.is_finite() && (v - 2000.0).abs() < 1e-3, "expected 2000, got {v}");
}

/// A ramp never passes its target.
#[test]
fn a_ramp_stops_at_its_target() {
    let mut r = Ramp::new(f(700.0), f(0.0));
    r.set_target(f(-1000.0));
    assert_eq!(n(r.advance(ms(1000))), -700.0);
    assert_eq!(n(r.advance(ms(1000))), -1000.0);
    assert_eq!(n(r.advance(ms(1000))), -1000.0);
    r.snap_to(f(3.0));
    assert_eq!((n(r.actual()), n(r.target())), (3.0, 3.0));
}

fn cap(pf: Option<f32>, va: Option<f32>) -> ReactiveCapability {
    ReactiveCapability { pf_limit: pf.map(f), apparent_va: va.map(f) }
}

fn at(c: &ReactiveCapability, p: f32) -> (f32, f32) {
    let (lo, hi) = c.q_bounds_at(f(p));
    (n(lo), n(hi))
}

fn hull(c: &ReactiveCapability, p: f32) -> (f32, f32) {
    let (lo, hi) = c.hull(f(p));
    (n(lo), n(hi))
}

#[test]
fn pf_limit_scales_with_p() {
    let c = cap(Some(0.35), None);
    assert_eq!(at(&c, 0.0), (0.0, 0.0));
    let (lo, hi) = at(&c, 10_000.0);
    assert!((lo + 3500.0).abs() < 1e-3);
    assert!((hi - 3500.0).abs() < 1e-3);
    // The sign of P doesn't matter.
    assert_eq!(at(&c, -10_000.0), (lo, hi));
}

#[test]
fn kva_limit_is_circle() {
    let c = cap(None, Some(10_000.0));
    let (lo, hi) = at(&c, 0.0);
    assert!((lo + 10_000.0).abs() < 1e-3);
    assert!((hi - 10_000.0).abs() < 1e-3);
    let (lo, hi) = at(&c, 6_000.0);
    assert!((lo + 8_000.0).abs() < 1e-3);
    assert!((hi - 8_000.0).abs() < 1e-3);
    // P at the rim: no Q.
    assert_eq!(at(&c, 10_000.0), (0.0, 0.0));
}

#[test]
fn hull_shapes() {
    assert_eq!(hull(&cap(Some(0.5), None), 10_000.0), (-5_000.0, 5_000.0));
    assert_eq!(hull(&cap(None, Some(4_000.0)), 10_000.0), (-4_000.0, 4_000.0));
    assert_eq!(hull(&cap(None, None), 10_000.0), (-10_000.0, 10_000.0));
    let both = cap(Some(1.0), Some(5_000.0));
    let (lo, hi) = hull(&both, 10_000.0);
    assert!((hi - 5_000.0 / 2f32.sqrt()).abs() < 1.0 && (lo + hi).abs() < 1e-3);
    let (lo2, hi2) = hull(&both, 2_000.0);
    assert!((hi2 - 2_000.0).abs() < 1.0 && (lo2 + hi2).abs() < 1e-3);
}

#[test]
fn both_intersect() {
    let c = cap(Some(0.5), Some(10_000.0));
    let (lo, hi) = at(&c, 4_000.0);
    assert!((lo + 2_000.0).abs() < 1e-3);
    assert!((hi - 2_000.0).abs() < 1e-3);
    let (lo, _hi) = at(&c, 9_000.0);
    assert!(lo > -4_500.0 && lo < -4_300.0, "got lo={lo}");
}

#[test]
fn a_capability_contains_what_lies_between_its_bounds() {
    let c = cap(Some(0.5), None);
    assert!(c.contains(f(4_000.0), f(2_000.0)));
    assert!(c.contains(f(4_000.0), f(-2_000.0)));
    assert!(!c.contains(f(4_000.0), f(2_001.0)));
}

#[test]
fn constructor_kwargs_and_make_fn_by_category() {
    let m = Marker::new(1, Category::Chp, f(3.0));
    assert_eq!(m.make_fn(), "%make-chp");
    let kw = m.constructor_kwargs();
    assert_eq!(kw.len(), 1);
    assert_eq!(kw[0].key, ":stream-jitter-pct");
    assert!(matches!(kw[0].value, KwValue::Float(v) if n(v) == 3.0));

    assert_eq!(Marker::new(2, Category::WindTurbine, f(0.0)).make_fn(), "%make-wind-turbine");
    assert_eq!(Marker::new(3, Category::SteamBoiler, f(0.0)).make_fn(), "%make-steam-boiler");
    assert_eq!(
        Marker::new(4, Category::PowerTransformer, f(0.0)).make_fn(),
        "%make-power-transformer"
    );
    assert_eq!(Marker::new(5, Category::Breaker, f(0.0)).make_fn(), "%make-breaker");
    assert!(Marker::new(2, Category::WindTurbine, f(0.0)).constructor_kwargs().is_empty());
}

#[test]
fn the_hull_is_the_smallest_band_over_all_powers() {
    assert_eq!(ReactiveCapability::default(), cap(None, None));
    // Crossing of line and circle at the 3-4-5 triangle, where nothing rounds.
    let triangle = cap(Some(0.75), Some(5.0));
    for (c, rated, reached) in [
        (cap(None, None), 7.5f32, 7.5f32),
        (cap(Some(0.35), None), 9_999.0, 9_999.0),
        (cap(None, Some(4_321.7)), 10_000.0, 0.0),
        (cap(None, Some(0.1)), 0.05, 0.0),
        (triangle, 10.0, 4.0),
        (triangle, 2.0, 2.0),
    ] {
        let (lo, hi) = hull(&c, rated);
        let (a, b) = c.q_bounds_at(f(reached));
        assert_eq!((n(a), n(b)), (lo, hi));
        for i in 0..=64 {
            let (a, b) = c.q_bounds_at(f(rated * i as f32 / 64.0));
            assert!(lo <= n(a) && n(b) <= hi, "at {i} of 64: {} {}", n(a), n(b));
        }
    }
    assert_eq!(hull(&triangle, 10.0), (-3.0, 3.0));
    assert_eq!(hull(&triangle, 2.0), (-1.5, 1.5));
}

#[test]
fn the_root_of_a_square_is_the_number() {
    for x in [1.0f32, 3.0, 0.1, 1.0 / 3.0, 16_777_215.0, 1.5e-18, 1.8e19, 1.999_999_9] {
        let s = f(x);
        assert_eq!(s.times(s).sqrt(), s, "{x}");
    }
}
