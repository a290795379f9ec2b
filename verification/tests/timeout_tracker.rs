//! Deadlines of commands.

use macrocosim::time::Span;
use macrocosim::timeout_tracker::{SetpointAxis, TimeoutTracker};

/// A moment of the monotonic clock, in milliseconds.
fn ms(m: u64) -> Span {
    Span { secs: m / 1000, nanos: (m % 1000) as u32 * 1_000_000 }
}

fn arm(t: &mut TimeoutTracker, id: u64, axis: SetpointAxis, lifetime_ms: u64, now_ms: u64) {
    t.actuate_and_arm(id, axis, ms(lifetime_ms), ms(now_ms), || Ok::<(), ()>(())).unwrap();
}

fn sweep(t: &mut TimeoutTracker, now_ms: u64) -> Vec<(u64, SetpointAxis)> {
    t.reset_expired_with(ms(now_ms)).iter().map(|k| (k.0, k.1)).collect()
}

const T0: u64 = 5_000;

#[test]
fn axes_expire_independently() {
    let mut t = TimeoutTracker::new();
    arm(&mut t, 7, SetpointAxis::Active, 3_600_000, T0);
    arm(&mut t, 7, SetpointAxis::Reactive, 0, T0);
    assert_eq!(sweep(&mut t, T0 + 2), vec![(7, SetpointAxis::Reactive)]);
    // The active deadline is untouched and still pending.
    assert_eq!(sweep(&mut t, T0 + 2), Vec::new());
}

#[test]
fn rearming_one_axis_keeps_the_other() {
    let mut t = TimeoutTracker::new();
    arm(&mut t, 7, SetpointAxis::Reactive, 0, T0);
    arm(&mut t, 7, SetpointAxis::Active, 0, T0);
    arm(&mut t, 7, SetpointAxis::Active, 3_600_000, T0);
    assert_eq!(sweep(&mut t, T0 + 2), vec![(7, SetpointAxis::Reactive)]);
}

#[test]
fn remaining_reports_time_left_and_none_when_absent() {
    let mut t = TimeoutTracker::new();
    arm(&mut t, 1, SetpointAxis::Active, 60_000, T0);
    let left = t.remaining(1, SetpointAxis::Active, ms(T0 + 1)).expect("tracked");
    assert_eq!(left, ms(59_999));
    assert_eq!(t.remaining(1, SetpointAxis::Reactive, ms(T0 + 1)), None);
    assert_eq!(t.remaining(2, SetpointAxis::Active, ms(T0 + 1)), None);
}

#[test]
fn remaining_is_none_once_the_deadline_has_passed() {
    let mut t = TimeoutTracker::new();
    arm(&mut t, 3, SetpointAxis::Active, 0, T0);
    assert_eq!(t.remaining(3, SetpointAxis::Active, ms(T0 + 1)), None);
}

/// A renewal after the sweep is freshly armed.
#[test]
fn rearmed_key_survives_the_expiry_sweep() {
    let mut t = TimeoutTracker::new();
    arm(&mut t, 7, SetpointAxis::Active, 0, T0);
    assert_eq!(sweep(&mut t, T0 + 1), vec![(7, SetpointAxis::Active)]);
    arm(&mut t, 7, SetpointAxis::Active, 900_000, T0 + 1);
    assert_eq!(sweep(&mut t, T0 + 2), Vec::new());
    assert!(t.remaining(7, SetpointAxis::Active, ms(T0 + 2)).is_some());
}

#[test]
fn clear_drops_every_deadline() {
    let mut t = TimeoutTracker::new();
    arm(&mut t, 7, SetpointAxis::Active, 0, T0);
    arm(&mut t, 8, SetpointAxis::Reactive, 0, T0);
    arm(&mut t, 9, SetpointAxis::Active, 3_600_000, T0);

    t.clear();

    assert_eq!(sweep(&mut t, T0 + 2), Vec::new(), "nothing left to expire");
    assert_eq!(t.remaining(9, SetpointAxis::Active, ms(T0)), None);
}

#[test]
fn remove_component_drops_both_axes_of_that_id_only() {
    let mut t = TimeoutTracker::new();
    for (id, axis) in
        [(7, SetpointAxis::Active), (7, SetpointAxis::Reactive), (8, SetpointAxis::Active)]
    {
        arm(&mut t, id, axis, 3_600_000, T0);
    }

    t.remove_component(7);

    assert_eq!(t.remaining(7, SetpointAxis::Active, ms(T0)), None);
    assert_eq!(t.remaining(7, SetpointAxis::Reactive, ms(T0)), None);
    assert!(t.remaining(8, SetpointAxis::Active, ms(T0)).is_some());
    // Removing an untracked id changes nothing.
    t.remove_component(999);
    assert!(t.remaining(8, SetpointAxis::Active, ms(T0)).is_some());
}

#[test]
fn failed_actuation_arms_nothing() {
    let mut t = TimeoutTracker::new();
    let r = t.actuate_and_arm(7, SetpointAxis::Active, ms(900_000), ms(T0), || Err(()));
    assert!(r.is_err());
    arm(&mut t, 8, SetpointAxis::Active, 0, T0);
    assert_eq!(sweep(&mut t, T0), vec![(8, SetpointAxis::Active)]);
    assert_eq!(sweep(&mut t, T0 + 1_000_000_000), Vec::new());
    
}

#[test]
fn axes_have_their_units() {
    assert_eq!(SetpointAxis::Active.unit(), "W");
    assert_eq!(SetpointAxis::Reactive.unit(), "VAr");
}
