//! Energy from power samples.

use macrocosim::energy::EnergyAccum;
use macrocosim::single::Single;

fn f(x: f32) -> Single {
    Single::from_bits(x.to_bits())
}

fn wh(e: &EnergyAccum) -> f64 {
    f64::from_bits(e.total_wh.to_bits())
}

#[test]
fn first_sample_only_seeds() {
    let mut e = EnergyAccum::default();
    e.advance(f(3600.0), 0);
    assert_eq!(wh(&e), 0.0);
}

#[test]
fn constant_power_integrates_rectangle() {
    let mut e = EnergyAccum::default();
    e.advance(f(3600.0), 0);
    e.advance(f(3600.0), 3_600_000); // +1 h at 3600 W: 3600 Wh
    assert!((wh(&e) - 3600.0).abs() < 1e-6, "{}", wh(&e));
}

#[test]
fn ramp_down_integrates_trapezoid() {
    let mut e = EnergyAccum::default();
    e.advance(f(3600.0), 0);
    e.advance(f(3600.0), 3_600_000);
    e.advance(f(0.0), 5_400_000); // +0.5 h ramp 3600 to 0: 900 Wh
    assert!((wh(&e) - 4500.0).abs() < 1e-6, "{}", wh(&e));
}

#[test]
fn negative_power_yields_negative_energy() {
    let mut e = EnergyAccum::default();
    e.advance(f(-2000.0), 0);
    e.advance(f(-2000.0), 1_800_000); // -2000 W for 0.5 h: -1000 Wh
    assert!((wh(&e) + 1000.0).abs() < 1e-6, "{}", wh(&e));
}

#[test]
fn non_monotonic_timestamp_is_ignored() {
    let mut e = EnergyAccum::default();
    e.advance(f(2000.0), 3_600_000);
    e.advance(f(2000.0), 7_200_000);
    let total = wh(&e);
    e.advance(f(2000.0), 5_400_000);
    assert!((wh(&e) - total).abs() < 1e-6, "{}", wh(&e));
    e.advance(f(2000.0), 10_800_000);
    assert!((wh(&e) - (total + 2000.0)).abs() < 1e-6, "{}", wh(&e));
}

#[test]
fn reset_cursor_keeps_total_but_skips_the_gap() {
    let mut e = EnergyAccum::default();
    e.advance(f(1000.0), 0);
    e.advance(f(1000.0), 3_600_000);
    let total = wh(&e);
    e.reset_cursor();
    e.advance(f(1000.0), 7_200_000);
    assert!((wh(&e) - total).abs() < 1e-6, "{}", wh(&e));
    e.advance(f(1000.0), 10_800_000);
    assert!((wh(&e) - (total + 1000.0)).abs() < 1e-6, "{}", wh(&e));
}
