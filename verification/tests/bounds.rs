//! Bands, their hulls and intersections, and bounds with a lifetime.

use chrono::Utc;
use macrocosim::bounds::{Bounds, ComponentBounds, VecBounds};
use macrocosim::component::SetpointError;
use macrocosim::message::Piece;
use macrocosim::single::Single;
use macrocosim::time::{Span, Timestamp};

fn f(x: f32) -> Single {
    Single::from_bits(x.to_bits())
}

fn n(x: Single) -> f32 {
    f32::from_bits(x.to_bits())
}

fn now() -> Timestamp {
    let t = Utc::now();
    Timestamp { secs: t.timestamp(), nanos: t.timestamp_subsec_nanos() }
}

fn secs_after(t: Timestamp, secs: i64) -> Timestamp {
    Timestamp { secs: t.secs + secs, nanos: t.nanos }
}

fn sec(s: u64) -> Span {
    Span { secs: s, nanos: 0 }
}

fn band(lo: f32, hi: f32) -> VecBounds {
    VecBounds::single(f(lo), f(hi))
}

fn b(lower: Option<f32>, upper: Option<f32>) -> Bounds {
    Bounds { lower: lower.map(f), upper: upper.map(f) }
}

fn edges(v: &Bounds) -> (Option<f32>, Option<f32>) {
    (v.lower.map(n), v.upper.map(n))
}

fn two_bands(a: f32, z: f32, c: f32, d: f32) -> VecBounds {
    VecBounds::new(vec![b(Some(a), Some(z)), b(Some(c), Some(d))])
}

#[test]
fn or_zero_band_normalizes_empty_and_leaves_non_empty_alone() {
    let normalized_empty = VecBounds(vec![]).or_zero_band();
    assert_eq!(normalized_empty.0.len(), 1);
    assert_eq!(edges(&normalized_empty.0[0]), (Some(0.0), Some(0.0)));

    let two_band = VecBounds(vec![b(Some(-30.0), Some(-10.0)), b(Some(10.0), Some(30.0))]);
    let first = two_band.0[0].lower;
    let normalized = two_band.or_zero_band();
    assert_eq!(normalized.0.len(), 2, "non-empty input passes through");
    assert_eq!(normalized.0[0].lower, first);
}

#[test]
fn intersect_keeps_unbounded_bands_and_drops_only_disjoint_ones() {
    let unbounded = VecBounds::new(vec![b(None, None)]);
    let both = unbounded.intersect(&unbounded);
    assert_eq!(both.0.len(), 1, "unbounded with unbounded is unbounded");
    assert_eq!(edges(&both.0[0]), (None, None));

    let low = band(-4000.0, -3000.0);
    let high = band(500.0, 2000.0);
    assert!(low.intersect(&high).0.is_empty(), "a disjoint pair still empties the intersection");
}

#[test]
fn sum_single_takes_the_hull_of_a_multi_band_child() {
    let multi = two_bands(-10.0, -5.0, 5.0, 10.0);
    let sum = VecBounds::sum_single(&vec![multi, band(0.0, 2.0)]);
    assert_eq!(sum.0.len(), 1);
    assert_eq!(edges(&sum.0[0]), (Some(-10.0), Some(12.0)));
}

#[test]
fn sum_single_half_open_band_unbounds_that_side_of_the_hull() {
    let half_open = VecBounds::new(vec![b(None, Some(-100.0)), b(Some(500.0), Some(1000.0))]);
    let sum = VecBounds::sum_single(&vec![half_open, band(0.0, 2.0)]);
    assert_eq!(sum.0.len(), 1);
    assert_eq!(edges(&sum.0[0]), (Some(0.0), Some(1002.0)));
}

#[test]
fn contains_and_clamp() {
    let vb = two_bands(-30.0, -10.0, 10.0, 30.0);
    assert!(vb.contains(f(-20.0)));
    assert!(!vb.contains(f(0.0)));
    assert_eq!(n(vb.clamp(f(-20.0))), -20.0);
    // 0 is as close to -10 as to 10: the first band wins.
    assert_eq!(n(vb.clamp(f(0.0))), -10.0);
    assert_eq!(n(vb.clamp(f(100.0))), 30.0);
}

#[test]
fn rated_intersected_with_augmentations() {
    let mut cb = ComponentBounds::rated(f(-100.0), f(100.0));
    cb.add_augmentation(now(), band(-50.0, 50.0), sec(60));
    let eff = cb.effective();
    assert_eq!(eff.0.len(), 1);
    assert_eq!(edges(&eff.0[0]), (Some(-50.0), Some(50.0)));
}

#[test]
fn effective_at_skips_expired_augmentation_before_reaping() {
    let mut cb = ComponentBounds::rated(f(-100.0), f(100.0));
    let t0 = now();
    cb.add_augmentation(t0, band(-30.0, 0.0), sec(5));

    let live = cb.effective_at(secs_after(t0, 1));
    assert_eq!(edges(&live.0[0]), (Some(-30.0), Some(0.0)));

    let after = cb.effective_at(secs_after(t0, 6));
    assert_eq!(edges(&after.0[0]), (Some(-100.0), Some(100.0)));
    assert!(!after.intersect(&band(50.0, 100.0)).0.is_empty());
}

#[test]
fn augmentations_only_intersects_live_augmentations_alone() {
    let mut cb = ComponentBounds::augmentations_only();
    let t0 = now();
    assert!(cb.effective_at(t0).0.is_empty());

    cb.add_augmentation(t0, band(-1_000.0, 1_000.0), sec(60));
    let eff = cb.effective_at(t0);
    assert_eq!(edges(&eff.0[0]), (Some(-1_000.0), Some(1_000.0)));

    cb.add_augmentation(t0, band(-200.0, 500.0), sec(60));
    let eff = cb.effective_at(t0);
    assert_eq!(edges(&eff.0[0]), (Some(-200.0), Some(500.0)));

    // Once both expire, the envelope is unconstrained again.
    assert!(cb.effective_at(secs_after(t0, 120)).0.is_empty());
}

#[test]
fn has_live_augmentations_separates_unconstrained_from_mutually_disjoint() {
    let mut cb = ComponentBounds::augmentations_only();
    let t0 = now();
    assert!(!cb.has_live_augmentations(t0), "nothing armed yet");

    cb.add_augmentation(t0, band(-4_000.0, -3_000.0), sec(60));
    cb.add_augmentation(t0, band(-500.0, 500.0), sec(60));
    assert!(cb.effective_at(t0).0.is_empty(), "the two augmentations exclude each other");
    assert!(cb.has_live_augmentations(t0), "but they are live: nothing is legal");

    let later = secs_after(t0, 120);
    assert!(cb.effective_at(later).0.is_empty());
    assert!(!cb.has_live_augmentations(later));
}

#[test]
fn park_zero_accepted_outside_envelope() {
    let mut cb = ComponentBounds::rated(f(-100.0), f(100.0));
    cb.add_augmentation(now(), band(50.0, 100.0), sec(60));
    assert!(cb.validate_active_setpoint(f(0.0)).is_ok());
    assert!(matches!(
        cb.validate_active_setpoint(f(40.0)),
        Err(SetpointError::OutOfBounds { .. })
    ));
    assert!(cb.validate_active_setpoint(f(60.0)).is_ok());
}

/// A clamp lands in a band, and a value in a band stays.
#[test]
fn a_clamped_value_is_contained() {
    let vb = two_bands(-30.0, -10.0, 10.0, 30.0);
    for v in [-50.0f32, -30.0, -20.0, -9.0, -1.0, 0.5, 9.0, 10.0, 31.0] {
        let c = vb.clamp(f(v));
        assert!(vb.contains(c), "{v}");
        assert_eq!(vb.clamp(c), c);
    }
}

/// Dropping what has lapsed changes no envelope.
#[test]
fn reaping_changes_no_envelope() {
    let mut cb = ComponentBounds::rated(f(-100.0), f(100.0));
    let t0 = now();
    cb.add_augmentation(t0, band(-30.0, 0.0), sec(5));
    cb.add_augmentation(t0, band(-20.0, 50.0), sec(50));
    let t = secs_after(t0, 6);
    let before = cb.effective_at(t);
    cb.drop_expired(t);
    assert_eq!(cb.augmented.len(), 1);
    assert_eq!(cb.effective_at(t), before);
}

fn words(pieces: &[Piece]) -> String {
    pieces
        .iter()
        .map(|p| match p {
            Piece::Words(s) => s.clone(),
            Piece::Number(v) => format!("{}", n(*v)),
            Piece::WideNumber(v) => format!("{}", f64::from_bits(v.to_bits())),
            Piece::SpanFault(v) => {
                format!("{:?}", std::time::Duration::try_from_secs_f64(f64::from_bits(v.to_bits())))
            }
        })
        .collect()
}

#[test]
fn bounds_are_written_as_bands() {
    assert_eq!(words(&VecBounds(vec![]).message()), "[]");
    assert_eq!(words(&band(-1.5, 2.0).message()), "[-1.5, 2]");
    let half = VecBounds(vec![b(None, Some(-100.0)), b(Some(500.0), None)]);
    assert_eq!(words(&half.message()), "[*, -100], [500, *]");
    let cb = ComponentBounds::rated(f(-100.0), f(100.0));
    let err = cb.validate_active_setpoint(f(140.0)).unwrap_err();
    assert_eq!(words(&err.message()), "set-point 140 W out of bounds [-100, 100]");
    assert_eq!(
        words(&SetpointError::Unsupported.message()),
        "operation not supported by this component type"
    );
}

#[test]
fn values_that_the_parts_cover_add_up_inside_the_sum() {
    let split = VecBounds(vec![
        Bounds { lower: Some(f(-9.7)), upper: Some(f(-3.3)) },
        Bounds { lower: Some(f(0.1)), upper: Some(f(7.9)) },
    ]);
    let parts = vec![split, band(-0.2, 0.3), VecBounds(Vec::new()), band(1e7, 3e7)];
    let sum = VecBounds::sum_single(&parts);
    for a in [-9.7f32, -3.3, 0.1, 4.4, 7.9] {
        for b in [-0.2f32, 0.0, 0.3] {
            for c in [1e7f32, 1.234_567e7, 3e7] {
                assert!(sum.contains(f(0.0 + a + b + c)), "{a} + {b} + {c}");
            }
        }
    }
}

#[test]
fn no_legal_value_is_nearer_than_the_clamped_one() {
    let s = VecBounds(vec![b(None, Some(-8.0)), b(Some(-2.0), Some(1.5)), b(Some(4.0), Some(9.0))]);
    let legal = [-100.0f32, -8.5, -8.0, -2.0, -0.1, 0.0, 1.5, 4.0, 6.0, 9.0];
    for v in [-7.9f32, -5.0, -4.9, 1.6, 2.75, 2.76, 3.99, 9.1, 1e30] {
        let c = n(s.clamp(f(v)));
        assert!(s.contains(f(c)));
        for w in legal {
            assert!((v - c).abs() <= (v - w).abs(), "{v} went to {c}, not {w}");
        }
    }
    assert_eq!(n(s.clamp(f(-5.0))), -8.0, "the edge below on a tie");
}

#[test]
fn bands_the_wrong_way_round_vanish_in_an_intersection() {
    let mixed = VecBounds::new(vec![
        b(Some(5.0), Some(-5.0)),
        b(Some(20.0), Some(30.0)),
        b(Some(0.0), Some(10.0)),
    ]);
    let met = mixed.intersect(&band(-100.0, 25.0));
    assert_eq!(met.0.len(), 2);
    assert_eq!(edges(&met.0[0]), (Some(0.0), Some(10.0)));
    assert_eq!(edges(&met.0[1]), (Some(20.0), Some(25.0)));
}
