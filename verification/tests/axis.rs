//! The power axis: envelopes, commands, idling and trips.

use chrono::{DateTime, Utc};
use macrocosim::axis::{AxisConfig, IdleTarget, PowerAxis, StepCtx};
use macrocosim::bounds::{Bounds, VecBounds};
use macrocosim::component::SetpointError;
use macrocosim::reactive::ReactiveCapability;
use macrocosim::single::Single;
use macrocosim::time::{Span, Timestamp};
use std::time::Duration;

fn f(x: f32) -> Single {
    Single::from_bits(x.to_bits())
}

fn n(x: Single) -> f32 {
    f32::from_bits(x.to_bits())
}

fn ts(t: DateTime<Utc>) -> Timestamp {
    Timestamp { secs: t.timestamp(), nanos: t.timestamp_subsec_nanos() }
}

fn span(d: Duration) -> Span {
    Span { secs: d.as_secs(), nanos: d.subsec_nanos() }
}

fn now() -> Timestamp {
    ts(Utc::now())
}

fn secs_after(t: Timestamp, secs: i64) -> Timestamp {
    Timestamp { secs: t.secs + secs, nanos: t.nanos }
}

fn millis_after(t: Timestamp, ms: u64) -> Timestamp {
    t.after(span(Duration::from_millis(ms))).unwrap()
}

fn sec(s: u64) -> Span {
    span(Duration::from_secs(s))
}

fn ms(m: u64) -> Span {
    span(Duration::from_millis(m))
}

fn band(lo: f32, hi: f32) -> VecBounds {
    VecBounds::single(f(lo), f(hi))
}

fn ctx(dynamic: Option<&VecBounds>, idle: IdleTarget) -> StepCtx<'_> {
    StepCtx { other_axis: f(0.0), dynamic, idle }
}

fn hold() -> StepCtx<'static> {
    ctx(None, IdleTarget::Hold)
}

/// A Q axis's per-tick context: the live P as the other axis, no
/// dynamic band, and hold when nothing is armed.
fn q_ctx(p_live: f32) -> StepCtx<'static> {
    StepCtx { other_axis: f(p_live), dynamic: None, idle: IdleTarget::Hold }
}

/// The first band of the validation envelope at `p_live`.
fn q_bounds(ax: &PowerAxis, p_live: f32) -> (f32, f32) {
    let env = ax.validation_envelope_at(now(), f(p_live));
    let b = env.0.first().expect("a caps band is always one bucket");
    (n(b.lower.unwrap()), n(b.upper.unwrap()))
}

fn q_axis(caps: ReactiveCapability, command_delay: Span, ramp: f32) -> PowerAxis {
    PowerAxis::new(AxisConfig {
        rated: None,
        caps: Some(caps),
        command_delay,
        ramp_rate_per_s: f(ramp),
        unit: "VAr",
    })
}

fn p_axis(lo: f32, hi: f32, ramp: f32) -> PowerAxis {
    PowerAxis::new(AxisConfig {
        rated: Some((f(lo), f(hi))),
        caps: None,
        command_delay: sec(0),
        ramp_rate_per_s: f(ramp),
        unit: "W",
    })
}

fn kva(va: f32) -> ReactiveCapability {
    ReactiveCapability { pf_limit: None, apparent_va: Some(f(va)) }
}

#[test]
fn armed_target_follows_a_tightening_envelope_and_restores() {
    let mut ax = p_axis(-10_000.0, 10_000.0, f32::INFINITY);
    let t0 = now();
    ax.accept(f(8_000.0), t0, f(0.0)).unwrap();
    assert_eq!(n(ax.step(t0, sec(1), hold())), 8_000.0);
    // Tighten via a 2 s augmentation: follows; expire: restores.
    ax.augment(t0, band(-3_000.0, 3_000.0), sec(2));
    assert_eq!(n(ax.step(secs_after(t0, 1), sec(1), hold())), 3_000.0);
    assert_eq!(n(ax.step(secs_after(t0, 3), sec(1), hold())), 8_000.0);
}

#[test]
fn empty_tracking_envelope_parks_at_zero_but_idle_hold_is_untouched() {
    let mut ax = p_axis(0.0, 22_000.0, f32::INFINITY);
    let t0 = now();
    ax.accept(f(10_000.0), t0, f(0.0)).unwrap();
    let derate = band(30_000.0, 40_000.0);
    assert_eq!(n(ax.step(t0, sec(1), ctx(Some(&derate), IdleTarget::Hold))), 0.0);
    // Unarmed with a zero-excluding augmentation: hold means 0 stays 0.
    let mut ax2 = p_axis(0.0, 22_000.0, f32::INFINITY);
    ax2.augment(t0, band(5_000.0, 22_000.0), sec(60));
    assert_eq!(n(ax2.step(t0, sec(1), hold())), 0.0);
}

#[test]
fn q_axis_validates_against_caps_and_augmentations_but_not_dynamic() {
    let mut ax = q_axis(kva(5_000.0), sec(0), f32::INFINITY);
    let t0 = now();
    // At P=3000 the kVA circle allows |Q| <= 4000.
    assert!(ax.accept(f(4_500.0), t0, f(3_000.0)).is_err());
    ax.accept(f(3_500.0), t0, f(3_000.0)).unwrap();
    ax.augment(t0, band(-1_000.0, 1_000.0), sec(60));
    assert!(ax.accept(f(3_500.0), secs_after(t0, 1), f(3_000.0)).is_err());
    let err = ax.accept(f(f32::NAN), t0, f(3_000.0)).unwrap_err();
    assert!(matches!(err, SetpointError::OutOfBounds { unit: "VAr", .. }));
    // 0 always accepted.
    ax.accept(f(0.0), t0, f(3_000.0)).unwrap();
}

#[test]
fn q_axis_survives_stacked_unbounded_augmentations() {
    let mut ax = q_axis(kva(5_000.0), sec(0), f32::INFINITY);
    let t0 = now();
    let unbounded = || VecBounds::new(vec![Bounds { lower: None, upper: None }]);
    ax.augment(t0, unbounded(), sec(60));
    ax.augment(t0, unbounded(), sec(60));
    // The envelope is still the caps band: |Q| <= 4000 at P=3000.
    ax.accept(f(3_500.0), secs_after(t0, 1), f(3_000.0)).unwrap();
    assert!(
        ax.accept(f(4_500.0), secs_after(t0, 1), f(3_000.0)).is_err(),
        "caps still bind: unbounded augmentations widen nothing"
    );
}

#[test]
fn idle_value_tracks_and_clamps() {
    let mut ax = p_axis(-30_000.0, 0.0, f32::INFINITY);
    let t0 = now();
    let idle = IdleTarget::Value(f(-6_000.0));
    assert_eq!(n(ax.step(t0, sec(1), ctx(None, idle))), -6_000.0);
    ax.augment(t0, band(-2_000.0, 0.0), sec(60));
    assert_eq!(n(ax.step(secs_after(t0, 1), sec(1), ctx(None, idle))), -2_000.0);
}

#[test]
fn trip_snaps_and_reset_parks() {
    let mut ax = p_axis(-10_000.0, 10_000.0, 1_000.0);
    let t0 = now();
    ax.accept(f(5_000.0), t0, f(0.0)).unwrap();
    ax.step(t0, sec(2), hold());
    ax.trip();
    assert_eq!(n(ax.actual()), 0.0);
    assert_eq!(n(ax.published()), 0.0);
    assert_eq!(ax.armed(), None);
    // A reset re-targets without snapping.
    ax.accept(f(5_000.0), t0, f(0.0)).unwrap();
    ax.step(t0, sec(1), hold());
    ax.reset(f(0.0));
    let v = n(ax.step(t0, ms(500), hold()));
    assert!((v - 500.0).abs() < 1.0, "ramps toward the park value, no snap: {v}");
}

#[test]
fn accept_rejects_everything_when_static_bounds_are_emptied_by_augmentation() {
    let mut ax = p_axis(0.0, 100.0, f32::INFINITY);
    let t0 = now();
    ax.augment(t0, band(200.0, 300.0), sec(60));
    assert!(ax.accept(f(150.0), t0, f(0.0)).is_err());
    assert!(ax.accept(f(0.0), t0, f(0.0)).is_ok());
}

#[test]
fn accept_rejects_everything_when_caps_band_is_emptied_by_augmentation() {
    let mut ax = q_axis(kva(4_000.0), sec(0), f32::INFINITY);
    let t0 = now();
    ax.augment(t0, band(5_000.0, 6_000.0), sec(60));
    assert!(ax.accept(f(3_500.0), t0, f(0.0)).is_err());
}

#[test]
fn mutually_disjoint_live_q_augmentations_leave_no_legal_band() {
    let mut ax = q_axis(kva(5_000.0), sec(0), f32::INFINITY);
    let t0 = now();
    ax.accept(f(2_000.0), t0, f(0.0)).unwrap();
    assert_eq!(n(ax.step(t0, sec(1), q_ctx(0.0))), 2_000.0);

    ax.augment(t0, band(-4_000.0, -3_000.0), sec(60));
    ax.augment(t0, band(-500.0, 500.0), sec(60));

    let env = ax.validation_envelope_at(t0, f(0.0));
    assert!(env.0.is_empty(), "disjoint live augmentations leave nothing legal");
    assert!(ax.accept(f(2_000.0), t0, f(0.0)).is_err());
    assert!(ax.accept(f(-3_500.0), t0, f(0.0)).is_err());
    assert!(ax.accept(f(400.0), t0, f(0.0)).is_err());
    // The armed 2 kVAr is re-clamped to the park, not to the caps band.
    assert_eq!(n(ax.step(secs_after(t0, 1), sec(1), q_ctx(0.0))), 0.0);
    // The park rule survives regardless.
    assert!(ax.accept(f(0.0), t0, f(0.0)).is_ok());
}

#[test]
fn q_axis_accept_then_step_drives_to_target() {
    // No PF cap, 10 kVA envelope. 100 ms delay, 1000 VAR/s slew.
    let mut p = q_axis(kva(10_000.0), ms(100), 1000.0);
    let t0 = now();
    assert!(p.accept(f(5000.0), t0, f(0.0)).is_ok());

    // Before the 100 ms delay elapses, no movement.
    let q = n(p.step(millis_after(t0, 50), ms(50), q_ctx(0.0)));
    assert!(q.abs() < 1.0, "expected ~0 before delay, got {q}");

    // After 1 s past the delay, the ramp reaches 1 kVAR.
    let q = n(p.step(millis_after(t0, 1100), ms(1000), q_ctx(0.0)));
    assert!((q - 1000.0).abs() < 1.0, "expected ~1000, got {q}");

    // 6 s past the delay the ramp has settled at 5000.
    let q = p.step(millis_after(t0, 6100), ms(5000), q_ctx(0.0));
    assert!((n(q) - 5000.0).abs() < 1.0, "expected 5000");
    assert_eq!(p.published(), q);
}

#[test]
fn q_axis_rejects_out_of_envelope() {
    let mut p = q_axis(
        ReactiveCapability { pf_limit: Some(f(0.5)), apparent_va: None },
        sec(0),
        f32::INFINITY,
    );
    // PF=0.5 at P=10k: an envelope of 5000 either way. 6000 is out.
    match p.accept(f(6000.0), now(), f(10_000.0)) {
        Err(SetpointError::OutOfBounds { value, envelope, .. }) => {
            assert_eq!(n(value), 6000.0);
            let b = envelope.0.first().expect("single-bucket envelope");
            let (lower, upper) = (n(b.lower.unwrap()), n(b.upper.unwrap()));
            assert!((lower + 5000.0).abs() < 1.0);
            assert!((upper - 5000.0).abs() < 1.0);
        }
        _ => panic!("expected OutOfBounds"),
    }
}

#[test]
fn q_axis_re_clamps_at_promotion() {
    let mut p = q_axis(kva(10_000.0), sec(0), f32::INFINITY);
    assert!(p.accept(f(8000.0), now(), f(0.0)).is_ok());
    let q = n(p.step(now(), ms(100), q_ctx(9000.0)));
    assert!(q < 4400.0 && q > 4350.0, "expected ~4359, got {q}");
}

#[test]
fn q_axis_re_clamps_on_p_drift_after_settle() {
    let mut p = q_axis(kva(10_000.0), sec(0), f32::INFINITY);
    assert!(p.accept(f(8000.0), now(), f(0.0)).is_ok());
    let q = n(p.step(now(), ms(100), q_ctx(0.0)));
    assert!((q - 8000.0).abs() < 1.0, "expected 8000, got {q}");
    let q = n(p.step(now(), ms(100), q_ctx(9000.0)));
    assert!(q < 4400.0 && q > 4350.0, "expected ~4359, got {q}");
    // P falls back: the original commanded Q is restored.
    let q = n(p.step(now(), ms(100), q_ctx(0.0)));
    assert!((q - 8000.0).abs() < 1.0, "expected 8000 back, got {q}");
}

#[test]
fn q_axis_override_published_wins() {
    let mut p = q_axis(ReactiveCapability::microsim_default(), sec(0), f32::INFINITY);
    let _ = p.accept(f(3000.0), now(), f(10_000.0));
    let q = n(p.step(now(), ms(100), q_ctx(10_000.0)));
    assert!((q - 3000.0).abs() < 1.0);
    p.override_published(f(2500.0));
    assert_eq!(n(p.published()), 2500.0);
}

#[test]
fn q_axis_runtime_caps() {
    let mut p = q_axis(kva(10_000.0), sec(0), f32::INFINITY);
    assert!((q_bounds(&p, 0.0).1 - 10_000.0).abs() < 1.0);
    // Drop the kVA cap, add a tight PF cap: at P=2k, Q stays within 400.
    p.set_apparent_va(None);
    p.set_pf_limit(Some(f(0.2)));
    let (lo, hi) = q_bounds(&p, 2000.0);
    assert!((hi - 400.0).abs() < 1.0);
    assert!((lo + 400.0).abs() < 1.0);
}

#[test]
fn idle_value_non_finite_is_treated_as_hold() {
    let mut ax = p_axis(-10_000.0, 10_000.0, f32::INFINITY);
    let t0 = now();
    let v = ax.step(t0, sec(1), ctx(None, IdleTarget::Value(f(4_000.0))));
    assert_eq!(n(v), 4_000.0);
    let v = ax.step(t0, sec(1), ctx(None, IdleTarget::Value(f(f32::NAN))));
    assert_eq!(n(v), 4_000.0);
}

/// An augmentation that leaves nothing legal is refused and changes nothing.
#[test]
fn a_refused_augmentation_changes_nothing() {
    let mut ax = p_axis(0.0, 100.0, f32::INFINITY);
    let t0 = now();
    let refused = ax.try_augment(t0, band(200.0, 300.0), sec(60), f(0.0), None);
    assert!(refused.is_err());
    assert!(!ax.augmented(t0));
    assert!(ax.accept(f(50.0), t0, f(0.0)).is_ok());
    assert!(ax.try_augment(t0, band(20.0, 40.0), sec(60), f(0.0), None).is_ok());
    assert!(ax.augmented(t0));
    assert!(ax.accept(f(50.0), t0, f(0.0)).is_err());
}
