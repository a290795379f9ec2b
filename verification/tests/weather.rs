//! The sky: the clear-sky arch, clouds, the ambient generator and updates.

use chrono::{TimeZone, Utc};
use macrocosim::double::Double;
use macrocosim::message::Piece;
use macrocosim::microgrid_site::MicrogridSite;
use macrocosim::single::Single;
use macrocosim::time::{Span, Timestamp};
use macrocosim::validate::{
    cloud_rate, depth_range, pass_cloud_args, peak_pct, secs_range, sunrise_before_sunset,
    weather_lag_s, WeatherError,
};
use macrocosim::weather::{
    uniform_bounds, CloudDraws, CloudEvent, SkyStep, Weather, WeatherConfig,
};
use macrocosim::weather_patch::{WeatherDoor, WeatherPatch};
use rand::rngs::SmallRng;
use rand::{Rng, SeedableRng};

fn f(x: f32) -> Single {
    Single::from_bits(x.to_bits())
}

fn n(x: Single) -> f32 {
    f32::from_bits(x.to_bits())
}

fn d(x: f64) -> Double {
    Double::from_bits(x.to_bits())
}

fn at(h: u32, m: u32) -> Timestamp {
    let t = Utc.with_ymd_and_hms(2026, 6, 1, h, m, 0).unwrap();
    Timestamp { secs: t.timestamp(), nanos: 0 }
}

fn plus(t: Timestamp, secs: i64) -> Timestamp {
    Timestamp { secs: t.secs + secs, nanos: t.nanos }
}

fn sec(s: u64) -> Span {
    Span { secs: s, nanos: 0 }
}

fn sine(w: &Weather, t: Timestamp) -> Single {
    f(w.sun_angle(t).map(|a| n(a).sin()).unwrap_or(0.0))
}

fn clear(w: &Weather, t: Timestamp) -> f32 {
    n(w.clear_sky_pct(t, sine(w, t)))
}

fn pct(w: &Weather, t: Timestamp) -> f32 {
    n(w.pct_at(t, sine(w, t)))
}

fn draw(rng: &mut SmallRng, range: (Single, Single)) -> Single {
    match uniform_bounds(range) {
        Some((lo, hi)) => f(rng.random_range(n(lo)..n(hi))),
        None => f(0.0),
    }
}

/// Moves the weather on, with draws from the generator.
fn advance(w: &mut Weather, rng: &mut SmallRng, now: Timestamp) {
    let mut step = w.advance(now);
    loop {
        step = match step {
            SkyStep::Done => return,
            SkyStep::Gap { from } => {
                let u: f32 = rng.random_range(1e-6..1.0f32);
                w.take_gap(now, from, f(u.ln()))
            }
            SkyStep::Cloud { at } => {
                let cfg = w.config();
                let draws = CloudDraws {
                    depth: draw(rng, cfg.cloud_depth),
                    duration: draw(rng, cfg.cloud_duration),
                    ramp: draw(rng, cfg.cloud_ramp),
                };
                w.take_cloud(at, draws)
            }
        }
    }
}

fn seeded(seed: u64) -> SmallRng {
    SmallRng::seed_from_u64(seed)
}

fn config(rate: Option<f32>, seed: Option<u64>) -> WeatherConfig {
    WeatherConfig { cloud_rate_per_h: rate.map(f), seed, ..WeatherConfig::default() }
}

#[test]
fn clear_sky_is_a_sine_between_sunrise_and_sunset() {
    let w = Weather::new(WeatherConfig::default()); // 06:00 to 20:00, peak 100
    assert_eq!(clear(&w, at(3, 0)), 0.0);
    assert_eq!(clear(&w, at(22, 0)), 0.0);
    assert_eq!(clear(&w, at(6, 0)), 0.0);
    assert!((clear(&w, at(13, 0)) - 100.0).abs() < 0.01, "solar noon");
    let quarter = clear(&w, at(9, 30)); // 3.5 h of 14 h in
    assert!((quarter - 100.0 * (std::f32::consts::PI * 0.25).sin()).abs() < 0.01);
}

#[test]
fn cloud_event_is_a_trapezoid() {
    let e = CloudEvent {
        start: at(12, 0),
        ramp_in: sec(60),
        plateau: sec(120),
        ramp_out: sec(60),
        depth_pct: f(50.0),
    };
    assert_eq!(n(e.attenuation_at(at(11, 59))), 0.0);
    assert!((n(e.attenuation_at(plus(at(12, 0), 30))) - 0.25).abs() < 1e-4);
    assert!((n(e.attenuation_at(at(12, 2))) - 0.5).abs() < 1e-4); // plateau
    assert_eq!(n(e.attenuation_at(plus(e.end(), 1))), 0.0);
}

#[test]
fn overlapping_clouds_multiply() {
    let mut w = Weather::new(WeatherConfig::default());
    w.advance(at(13, 0));
    assert!(w.pass_cloud(f(50.0), sec(600), sec(0)));
    assert!(w.pass_cloud(f(40.0), sec(600), sec(0)));
    let c = clear(&w, at(13, 1));
    assert!((pct(&w, at(13, 1)) - c * 0.5 * 0.6).abs() < 0.01);
}

#[test]
fn seeded_generator_is_reproducible() {
    let mk = |seed: u64| {
        let mut w = Weather::new(config(Some(30.0), Some(seed)));
        let mut rng = seeded(w.config().seed.unwrap());
        let mut t = at(10, 0);
        let end = at(14, 0);
        while !end.before(t) {
            advance(&mut w, &mut rng, t);
            t = plus(t, 300);
        }
        w.events().iter().map(|e| (e.start, e.depth_pct)).collect::<Vec<_>>()
    };
    assert_eq!(mk(7), mk(7));
    assert!(!mk(7).is_empty(), "4 h at 30/h must produce events");
    assert_ne!(mk(7), mk(8));
}

#[test]
fn generator_tolerates_clock_steps() {
    let mut w = Weather::new(config(Some(60.0), Some(1)));
    let mut rng = seeded(1);
    advance(&mut w, &mut rng, at(12, 0));
    let anchor = w.anchor();
    advance(&mut w, &mut rng, at(11, 0)); // a step backward
    assert_eq!(w.anchor(), anchor, "backward now must not move the anchor");
    let before = w.events().len();
    advance(&mut w, &mut rng, plus(at(12, 0), 6 * 3600)); // a suspended machine resumes
    let gained = w.events().len() - before;
    assert_eq!(gained, 0, "a leap of more than 1 h re-anchors instead of backfilling");
}

#[test]
fn disabling_the_cloud_rate_re_anchors_the_next_arrival() {
    let mut w = Weather::new(config(Some(30.0), Some(3)));
    let mut rng = seeded(3);
    let start = at(10, 0);
    advance(&mut w, &mut rng, start);
    advance(&mut w, &mut rng, plus(start, 600));

    // The rate is off for a day of ordinary ticks.
    w.config_mut().cloud_rate_per_h = None;
    let gap_end = plus(start, 86_400);
    let mut t = plus(start, 900);
    while !gap_end.before(t) {
        advance(&mut w, &mut rng, t);
        t = plus(t, 300);
    }
    assert!(w.events().is_empty(), "a disabled rate produces no clouds at all");

    // Re-enabled: one advance re-anchors rather than backfilling.
    w.config_mut().cloud_rate_per_h = Some(f(30.0));
    advance(&mut w, &mut rng, plus(gap_end, 60));
    assert!(w.events().len() <= 10, "got {} events", w.events().len());
    for e in w.events() {
        assert!(!e.start.before(gap_end), "no arrival may land back in the disabled gap");
    }
}

#[test]
fn events_prune_past_the_lag_margin() {
    let mut w = Weather::new(WeatherConfig::default());
    w.advance(at(10, 0));
    w.pass_cloud(f(50.0), sec(60), sec(0));
    w.advance(at(10, 30));
    assert_eq!(w.events().len(), 1, "expired but inside the margin");
    w.advance(at(12, 0));
    assert!(w.events().is_empty(), "past the margin");
}

fn no_patch() -> WeatherPatch {
    WeatherPatch {
        sunrise: None,
        sunset: None,
        peak_pct: None,
        cloud_rate_per_h: None,
        cloud_depth: None,
        cloud_duration: None,
        cloud_ramp: None,
        seed: None,
    }
}

#[test]
fn install_over_a_stale_reading_does_not_resurrect_cleared_weather() {
    let mut site = MicrogridSite::new();
    let patch = WeatherPatch { peak_pct: Some(f(80.0)), ..no_patch() };

    patch
        .install_over(&mut site.weather, WeatherDoor::Http, Some(WeatherConfig::default()))
        .expect("a valid patch");
    assert!(site.weather.is_none(), "the reset's cleared weather must stay cleared");

    let reseed = WeatherPatch { seed: Some(7), ..WeatherPatch { peak_pct: Some(f(80.0)), ..no_patch() } };
    reseed
        .install_over(&mut site.weather, WeatherDoor::Http, Some(WeatherConfig::default()))
        .expect("a valid patch");
    assert!(site.weather.is_none(), "a re-seed must not resurrect the cleared weather either");

    patch.install(&mut site, WeatherDoor::Http).expect("a valid patch");
    assert_eq!(
        site.weather.as_ref().map(|w| n(w.config().peak_pct)),
        Some(80.0),
        "a genuinely weatherless site still gets a fresh sky"
    );
}

#[test]
fn advance_does_not_panic_on_absurd_config_bypassing_the_doors() {
    let mut w = Weather::new(WeatherConfig {
        cloud_rate_per_h: Some(f(1e-30)),
        cloud_duration: (f(1e30), f(1e30)),
        cloud_ramp: (f(1e30), f(1e30)),
        seed: Some(1),
        ..WeatherConfig::default()
    });
    let mut rng = seeded(1);
    let mut t = at(0, 0);
    let end = at(23, 0);
    while !end.before(t) {
        advance(&mut w, &mut rng, t);
        t = plus(t, 1800);
    }
}

/// An absurd cloud is cut to a day.
#[test]
fn a_drawn_cloud_is_at_most_a_day_long() {
    let mut w = Weather::new(WeatherConfig {
        cloud_rate_per_h: Some(f(60.0)),
        cloud_duration: (f(1e30), f(1e30)),
        cloud_ramp: (f(0.0), f(0.0)),
        ..WeatherConfig::default()
    });
    let draws = CloudDraws { depth: f(30.0), duration: f(0.0), ramp: f(0.0) };
    w.take_cloud(at(12, 0), draws);
    assert_eq!(w.events()[0].end(), plus(at(12, 0), 86_400));
}

fn text(pieces: &[Piece]) -> String {
    pieces
        .iter()
        .map(|p| match p {
            Piece::Words(s) => s.clone(),
            Piece::Number(v) => format!("{}", n(*v)),
            Piece::WideNumber(v) => format!("{}", f64::from_bits(v.to_bits())),
            Piece::SpanFault(v) => {
                let secs = f64::from_bits(v.to_bits());
                match std::time::Duration::try_from_secs_f64(secs) {
                    Ok(_) => String::new(),
                    Err(e) => e.to_string(),
                }
            }
        })
        .collect()
}

#[test]
fn a_refused_update_changes_nothing_and_names_its_field() {
    let mut site = MicrogridSite::new();
    let base = WeatherPatch { peak_pct: Some(f(80.0)), ..no_patch() };
    base.install(&mut site, WeatherDoor::Lisp("make-weather")).unwrap();
    let refused = |site: &mut MicrogridSite, p: WeatherPatch, door: WeatherDoor<'_>| {
        let e = p.install(site, door).unwrap_err();
        text(&e.message())
    };
    let lisp = WeatherDoor::Lisp("set-weather");
    assert_eq!(
        refused(&mut site, WeatherPatch { peak_pct: Some(f(-1.0)), ..no_patch() }, lisp),
        "set-weather: :peak% must be a non-negative percentage, got -1"
    );
    assert_eq!(
        refused(&mut site, WeatherPatch { peak_pct: Some(f(-1.0)), ..no_patch() }, WeatherDoor::Http),
        "peak_pct: must be a non-negative percentage, got -1"
    );
    assert_eq!(
        refused(
            &mut site,
            WeatherPatch { cloud_depth: Some((f(10.0), f(120.0))), ..no_patch() },
            lisp
        ),
        ":cloud-depth must be within [0, 100], got (10, 120)"
    );
    assert_eq!(
        refused(
            &mut site,
            WeatherPatch { cloud_duration: Some((f(1.0), f(90_000.0))), ..no_patch() },
            WeatherDoor::Http
        ),
        "cloud_duration: must be a non-negative number of seconds no greater than 86400 (one day), got (1, 90000)"
    );
    assert_eq!(
        refused(
            &mut site,
            WeatherPatch { sunrise: Some(sec(72_000)), ..no_patch() },
            WeatherDoor::Http
        ),
        "sunrise/sunset: sunrise must be before sunset, got 72000s and 72000s"
    );
    assert_eq!(
        refused(&mut site, WeatherPatch { cloud_rate_per_h: Some(f(4_000.0)), ..no_patch() }, lisp),
        "set-weather: :cloud-rate must be no more than 3600 (one cloud a second), got 4000"
    );
    assert_eq!(n(site.weather.as_ref().unwrap().config().peak_pct), 80.0);
}

#[test]
fn each_check_refuses_what_it_is_for() {
    assert!(secs_range((f(0.0), f(86_400.0))).is_ok());
    assert_eq!(
        secs_range((f(-1.0), f(3.0))),
        Err(WeatherError::SecsRange(f(-1.0), f(3.0)))
    );
    assert_eq!(weather_lag_s(d(2.5)).unwrap(), Span { secs: 2, nanos: 500_000_000 });
    assert_eq!(weather_lag_s(d(-1.0)), Err(WeatherError::LagNegative(d(-1.0))));
    assert_eq!(weather_lag_s(d(3_601.0)), Err(WeatherError::LagTooLong(d(3_601.0))));
    assert!(depth_range((f(0.0), f(100.0))).is_ok());
    assert!(matches!(depth_range((f(0.0), f(f32::NAN))), Err(WeatherError::DepthRange(_, _))));
    assert!(peak_pct(f(130.0)).is_ok());
    assert_eq!(peak_pct(f(f32::INFINITY)), Err(WeatherError::Peak(f(f32::INFINITY))));
    assert_eq!(cloud_rate(f(0.0)), Ok(None));
    assert_eq!(cloud_rate(f(6.0)), Ok(Some(f(6.0))));
    assert_eq!(cloud_rate(f(-0.5)), Err(WeatherError::RateNegative(f(-0.5))));
    assert_eq!(cloud_rate(f(3_600.5)), Err(WeatherError::RateTooHigh(f(3_600.5))));
    assert!(sunrise_before_sunset(sec(1), sec(2)).is_ok());
    assert_eq!(
        sunrise_before_sunset(sec(2), sec(2)).unwrap_err(),
        "sunrise must be before sunset, got 2s and 2s"
    );
}

#[test]
fn a_scripted_clouds_numbers_are_checked_in_order() {
    let (depth, duration, ramp) = pass_cloud_args(d(40.0), d(60.25), d(5.0)).unwrap();
    assert_eq!((n(depth), duration, ramp), (40.0, Span { secs: 60, nanos: 250_000_000 }, sec(5)));
    let refused = |a: f64, b: f64, c: f64| text(&pass_cloud_args(d(a), d(b), d(c)).unwrap_err().message());
    assert_eq!(refused(101.0, -1.0, 0.0), "depth must be within [0, 100], got 101");
    assert_eq!(
        refused(50.0, -1.0, 2.0),
        "duration and ramp must be non-negative, got -1 and 2"
    );
    let too_long = std::time::Duration::try_from_secs_f64(1e30).unwrap_err().to_string();
    assert_eq!(refused(50.0, 1e30, 0.0), format!("bad duration: {too_long}"));
    assert_eq!(refused(50.0, 1.0, f64::NAN), format!("bad ramp: {too_long}"));
}

#[test]
fn clouds_take_no_more_than_their_depth_and_only_dim() {
    let start = at(12, 0);
    let mut w = Weather::new(WeatherConfig::default());
    w.pass_cloud_from(start, f(80.0), sec(31), sec(9));
    w.pass_cloud_from(plus(start, 5), f(35.0), sec(7), sec(0));
    let e = CloudEvent {
        start,
        depth_pct: f(140.0),
        ramp_in: sec(7),
        plateau: sec(11),
        ramp_out: sec(3),
    };
    for s in 0..40 {
        let t = plus(start, s);
        let a = n(e.attenuation_at(t));
        assert!((0.0..=1.0).contains(&a));
        assert!(0.0 <= pct(&w, t) && pct(&w, t) <= clear(&w, t));
    }
    assert_eq!(n(e.attenuation_at(plus(start, 10))), 1.0);
    assert!(pct(&w, plus(start, 10)) < clear(&w, plus(start, 10)));
}

#[test]
fn a_cloud_over_weather_that_never_moved_starts_at_the_present() {
    let mut w = Weather::new(WeatherConfig::default());
    let before = Utc::now();
    assert!(w.pass_cloud(f(50.0), sec(600), sec(60)));
    let after = Utc::now();
    let e = w.events()[0];
    let start = Utc.timestamp_opt(e.start.secs, e.start.nanos).unwrap();
    assert!(before <= start && start <= after);
    assert_eq!((n(e.depth_pct), e.plateau), (50.0, sec(480)));
    assert!(w.anchor().is_none());
    // One that would outlast the calendar is refused.
    assert!(!w.pass_cloud(f(50.0), sec(9_000_000_000_000), sec(0)));
    assert_eq!(w.events().len(), 1);
}
