//! The arithmetic against the machine's, and spans against the standard library's.

use chrono::{DateTime, TimeDelta, TimeZone, Timelike, Utc};
use macrocosim::double::Double;
use macrocosim::single::Single;
use macrocosim::text::{numbered, parse_unsigned, same_text, strip_prefix};
use macrocosim::time::{before_by, Span, Timestamp};
use std::time::Duration;

/// A small generator of bit patterns.
struct Bits(u64);

impl Bits {
    fn next(&mut self) -> u64 {
        self.0 ^= self.0 << 13;
        self.0 ^= self.0 >> 7;
        self.0 ^= self.0 << 17;
        self.0
    }
}

const SINGLES: [u32; 22] = [
    0,
    0x8000_0000,
    1,
    0x8000_0001,
    0x007f_ffff,
    0x0080_0000,
    0x3f80_0000,
    0xbf80_0000,
    0x3f80_0001,
    0x4b80_0000,
    0x4b7f_ffff,
    0x7f7f_ffff,
    0xff7f_ffff,
    0x7f80_0000,
    0xff80_0000,
    0x7fc0_0000,
    0x3eaa_aaab,
    0x4248_0000,
    0x3333_3333,
    0x00ff_ffff,
    0x2f80_0000,
    0x5f80_0000,
];

fn singles() -> Vec<u32> {
    let mut bits = Bits(0x9e37_79b9_7f4a_7c15);
    let mut all: Vec<u32> = SINGLES.to_vec();
    for _ in 0..60 {
        all.push(bits.next() as u32);
    }
    // Numbers of like size, so that sums round.
    for _ in 0..40 {
        all.push(0x4000_0000 | (bits.next() as u32 & 0x83ff_ffff));
    }
    all
}

fn doubles() -> Vec<u64> {
    let mut bits = Bits(0x0123_4567_89ab_cdef);
    let mut all: Vec<u64> = singles().iter().map(|b| (f32::from_bits(*b) as f64).to_bits()).collect();
    all.extend([1, 0x8000_0000_0000_0001, 0x000f_ffff_ffff_ffff, 0x0010_0000_0000_0000]);
    all.extend([0x7fef_ffff_ffff_ffff, 0x3ff0_0000_0000_0001, 0x4340_0000_0000_0000]);
    for _ in 0..40 {
        all.push(bits.next());
    }
    for _ in 0..20 {
        all.push(0x4010_0000_0000_0000 | (bits.next() & 0x803f_ffff_ffff_ffff));
    }
    all
}

fn same32(ours: Single, theirs: f32, what: &str) {
    if theirs.is_nan() {
        assert!(ours.is_nan(), "{what}");
    } else {
        assert_eq!(ours.to_bits(), theirs.to_bits(), "{what}");
    }
}

fn same64(ours: Double, theirs: f64, what: &str) {
    if theirs.is_nan() {
        assert!(ours.is_nan(), "{what}");
    } else {
        assert_eq!(ours.to_bits(), theirs.to_bits(), "{what}");
    }
}

#[test]
fn single_arithmetic_is_the_machines() {
    let all = singles();
    for &a in &all {
        let (x, s) = (f32::from_bits(a), Single::from_bits(a));
        same32(s.sqrt(), x.sqrt(), "sqrt");
        same32(s.negated(), -x, "neg");
        same32(s.abs(), x.abs(), "abs");
        same32(s.signum(), x.signum(), "signum");
        same64(s.widen(), x as f64, "widen");
        assert_eq!(s.is_finite(), x.is_finite());
        assert_eq!(s.is_nan(), x.is_nan());
        for &b in &all {
            let (y, t) = (f32::from_bits(b), Single::from_bits(b));
            let what = format!("{x:e} {y:e}");
            same32(s.plus(t), x + y, &what);
            same32(s.minus(t), x - y, &what);
            same32(s.times(t), x * y, &what);
            same32(s.over(t), x / y, &what);
            assert_eq!(s.lt(t), x < y, "{what}");
            assert_eq!(s.le(t), x <= y, "{what}");
            assert_eq!(s.equals(t), x == y, "{what}");
            let (lo, hi) = (s.min(t), s.max(t));
            if x != y {
                same32(lo, x.min(y), &what);
                same32(hi, x.max(y), &what);
            }
        }
    }
}

#[test]
fn double_arithmetic_is_the_machines() {
    let all = doubles();
    for &a in &all {
        let (x, s) = (f64::from_bits(a), Double::from_bits(a));
        same64(s.sqrt(), x.sqrt(), "sqrt");
        same64(s.negated(), -x, "neg");
        same64(s.abs(), x.abs(), "abs");
        same32(s.narrow(), x as f32, "narrow");
        for &b in &all {
            let (y, t) = (f64::from_bits(b), Double::from_bits(b));
            let what = format!("{x:e} {y:e}");
            same64(s.plus(t), x + y, &what);
            same64(s.minus(t), x - y, &what);
            same64(s.times(t), x * y, &what);
            same64(s.over(t), x / y, &what);
            assert_eq!(s.lt(t), x < y, "{what}");
            assert_eq!(s.le(t), x <= y, "{what}");
        }
    }
}

#[test]
fn integers_are_rounded_as_the_machine_does() {
    let mut bits = Bits(77);
    for shift in 0..64 {
        for _ in 0..20 {
            let x = bits.next() >> shift;
            same32(Single::of_integer(x), x as f32, "single");
            same64(Double::of_integer(x), x as f64, "double");
        }
    }
    for x in [0, 1, 16_777_216, 16_777_217, 16_777_219, u64::MAX] {
        same32(Single::of_integer(x), x as f32, "single");
        same64(Double::of_integer(x), x as f64, "double");
    }
}

#[test]
fn clamps_are_the_machines() {
    for &a in &singles() {
        let x = f32::from_bits(a);
        let ours = Single::from_bits(a)
            .clamp(Single::from_bits((-2.5f32).to_bits()), Single::from_bits(40.0f32.to_bits()));
        same32(ours, x.clamp(-2.5, 40.0), "clamp");
    }
}

fn as_duration(s: Option<Span>) -> Option<Duration> {
    s.map(|s| Duration::new(s.secs, s.nanos))
}

#[test]
fn seconds_become_spans_as_in_the_standard_library() {
    for &a in &singles() {
        let x = f32::from_bits(a);
        assert_eq!(
            as_duration(Single::from_bits(a).to_span()),
            Duration::try_from_secs_f32(x).ok(),
            "{x:e}"
        );
    }
    let mut list = doubles();
    list.extend([0.1f64, 2.7, 1e-9, 0.5e-9, 1.5e-9, 86_400.000_000_000_5, 1.8e19].map(|x| x.to_bits()));
    for a in list {
        let x = f64::from_bits(a);
        assert_eq!(
            as_duration(Double::from_bits(a).to_span()),
            Duration::try_from_secs_f64(x).ok(),
            "{x:e}"
        );
    }
}

#[test]
fn spans_become_seconds_as_in_the_standard_library() {
    let mut bits = Bits(5);
    for shift in [0, 20, 40, 60] {
        for _ in 0..30 {
            let d = Duration::new(bits.next() >> shift, (bits.next() % 1_000_000_000) as u32);
            let s = Span { secs: d.as_secs(), nanos: d.subsec_nanos() };
            same32(s.seconds(), d.as_secs_f32(), "seconds");
        }
    }
}

#[test]
fn percents_are_rounded_half_up() {
    for x in [0.0f32, 0.49, 0.5, 1.5, 2.5, 49.999_996, 50.4, 50.6, 99.5, 100.0] {
        assert_eq!(Single::from_bits(x.to_bits()).round_percent(), x.round() as u64, "{x}");
    }
}

fn chrono_of(t: Timestamp) -> DateTime<Utc> {
    Utc.timestamp_opt(t.secs, t.nanos).unwrap()
}

fn ts(t: DateTime<Utc>) -> Timestamp {
    Timestamp { secs: t.timestamp(), nanos: t.timestamp_subsec_nanos() }
}

#[test]
fn moments_move_as_in_chrono() {
    let t = Timestamp { secs: 1_700_000_000, nanos: 900_000_000 };
    let span = Span { secs: 3_601, nanos: 200_000_000 };
    let delta = TimeDelta::from_std(Duration::new(span.secs, span.nanos)).unwrap();
    assert_eq!(t.after(span), Some(ts(chrono_of(t) + delta)));
    assert_eq!(before_by(t, span), Some(ts(chrono_of(t) - delta)));
    assert_eq!(t.after(Span { secs: u64::MAX, nanos: 0 }), None);
    assert_eq!(before_by(t, Span { secs: 9_000_000_000_000, nanos: 0 }), None);
    let later = t.after(span).unwrap();
    assert_eq!(later.since(t), span);
    assert!(t.before(later) && !later.before(t));
}

#[test]
fn the_time_of_day_is_chronos() {
    for secs in [0, 1, 86_399, 86_400, 1_700_000_123, -1, -86_401] {
        let t = Timestamp { secs, nanos: 5 };
        assert_eq!(t.seconds_of_day(), chrono_of(t).time().num_seconds_from_midnight());
        assert_eq!(t.millis(), chrono_of(t).timestamp_millis());
    }
}

#[test]
fn texts_are_cut_and_compared() {
    assert!(same_text("grüße", "grüße"));
    assert!(!same_text("a", "b"));
    assert!(!same_text("a", "ab"));
    assert_eq!(strip_prefix("→ab", "→"), Some("ab"));
    assert_eq!(strip_prefix("ab", "b"), None);
    assert_eq!(numbered("meter", 120), "meter-120");
    assert_eq!(parse_unsigned("120"), Some(120));
    assert_eq!(parse_unsigned("12a"), None);
}

#[test]
fn longer_spans_are_no_fewer_seconds() {
    let nanos = [0, 1, 499_999_999, 500_000_000, 999_999_970, 999_999_999];
    for base in [0u64, 1, 1 << 23, (1 << 24) - 2, 1 << 24, 1 << 25, (1 << 25) + 3, 1 << 40] {
        let mut last = 0.0f32;
        for secs in base..base + 6 {
            for ns in nanos {
                let s = f32::from_bits(Span { secs, nanos: ns }.seconds().to_bits());
                assert!(last <= s, "{secs}.{ns}");
                last = s;
            }
        }
    }
}
