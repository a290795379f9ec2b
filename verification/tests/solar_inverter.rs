//! The solar inverter: sunlight, curtailment and faults.

use chrono::{TimeZone, Utc};
use macrocosim::bounds::VecBounds;
use macrocosim::component::KnobKind;
use macrocosim::double::Double;
use macrocosim::dynamic_scalar::{DynamicScalar, Outcome};
use macrocosim::kwargs::{KwValue, Kwarg};
use macrocosim::microgrid_site::MicrogridSite;
use macrocosim::reactive::ReactiveCapability;
use macrocosim::runtime::Health;
use macrocosim::simulated::SimulatedComponent;
use macrocosim::single::Single;
use macrocosim::site_power::SkySample;
use macrocosim::solar_inverter::{SolarInverter, SolarInverterConfig, SunlightSource};
use macrocosim::time::{Span, Timestamp};
use macrocosim::timeout_tracker::SetpointAxis;
use macrocosim::weather::{Weather, WeatherConfig};

fn f(x: f32) -> Single {
    Single::from_bits(x.to_bits())
}

fn n(x: Single) -> f32 {
    f32::from_bits(x.to_bits())
}

fn now() -> Timestamp {
    let t = Utc::now();
    Timestamp { secs: t.timestamp(), nanos: t.timestamp_subsec_nanos() }
}

fn at(h: u32, m: u32) -> Timestamp {
    let t = Utc.with_ymd_and_hms(2026, 6, 1, h, m, 0).unwrap();
    Timestamp { secs: t.timestamp(), nanos: 0 }
}

fn sec(s: u64) -> Span {
    Span { secs: s, nanos: 0 }
}

fn dt() -> Span {
    Span { secs: 0, nanos: 100_000_000 }
}

fn number(v: f64) -> Outcome {
    Outcome::Number(Double::from_bits(v.to_bits()))
}

fn cfg_with_sun(pct: f32) -> SolarInverterConfig {
    SolarInverterConfig {
        rated_lower_w: f(-10_000.0),
        rated_upper_w: f(0.0),
        sunlight_pct: f(pct),
        ramp_rate_w_per_s: f(f32::INFINITY),
        array_peak_w: f(10_000.0),
        ..SolarInverterConfig::default()
    }
}

fn with_sun(pct: f32) -> SolarInverter {
    SolarInverter::new(1, sec(1), cfg_with_sun(pct))
}

fn following() -> SolarInverterConfig {
    SolarInverterConfig { sunlight_follow: true, ..SolarInverterConfig::default() }
}

fn lambda(pct: f32, text: &str) -> DynamicScalar {
    DynamicScalar::from_funcall(0, text.to_string(), f(pct))
}

/// A site with one inverter, under id 1.
struct Sited {
    w: MicrogridSite,
}

fn sited(cfg: SolarInverterConfig) -> Sited {
    let mut w = MicrogridSite::new();
    w.register(SimulatedComponent::Solar(SolarInverter::new(1, sec(1), cfg)));
    Sited { w }
}

impl Sited {
    fn inv(&mut self) -> &mut SolarInverter {
        match &mut self.w.components[0] {
            SimulatedComponent::Solar(c) => c,
            _ => panic!("not an inverter"),
        }
    }

    fn tick_at(&mut self, t: Timestamp) {
        let health = self.w.runtime_of(1).health;
        self.w.components[0].tick(health, t, dt());
    }

    fn tick(&mut self) {
        self.tick_at(now());
    }

    fn p(&self) -> f32 {
        n(self.w.get(1).unwrap().aggregate_power_w(&self.w))
    }

    fn q(&self) -> f32 {
        n(self.w.get(1).unwrap().aggregate_reactive_var(&self.w))
    }

    fn reading(&mut self) -> f32 {
        n(self.inv().sunlight_reading().value)
    }

    /// A tick of the whole site under its weather.
    fn tick_once(&mut self, t: Timestamp, draw: f32) {
        let sample = match (&self.w.weather, self.w.components.first()) {
            (Some(weather), Some(SimulatedComponent::Solar(inv))) => {
                let sine = inv
                    .sky_request(t)
                    .and_then(|(then, _)| weather.sun_angle(then))
                    .map(|a| n(a).sin())
                    .unwrap_or(0.0);
                SkySample { sine: f(sine), draw: f(draw) }
            }
            _ => SkySample { sine: f(0.0), draw: f(draw) },
        };
        self.w.read_sky(t, &vec![sample]);
        self.w.tick_once(t, dt());
    }
}

#[test]
fn sunlight_pct_drives_min_avail_floor() {
    let mut inv = with_sun(50.0);
    assert!((n(inv.min_avail_w()) - (-5_000.0)).abs() < 1e-3);
    inv.set_sunlight_pct(f(20.0));
    assert!((n(inv.min_avail_w()) - (-2_000.0)).abs() < 1e-3);
    // Overdrive clamps at the AC rating.
    inv.set_sunlight_pct(f(150.0));
    assert!((n(inv.min_avail_w()) - (-10_000.0)).abs() < 1e-3);
}

#[test]
fn oversized_array_clips_at_the_ac_rating() {
    let matched = SolarInverter::new(1, sec(1), SolarInverterConfig::default());
    assert!((n(matched.min_avail_w()) - (-30_000.0)).abs() < 1e-3);
    let mut oversized = SolarInverter::new(
        2,
        sec(1),
        SolarInverterConfig { array_peak_w: f(45_000.0), ..SolarInverterConfig::default() },
    );
    assert!((n(oversized.min_avail_w()) - (-30_000.0)).abs() < 1e-3);
    oversized.set_sunlight_pct(f(50.0));
    assert!((n(oversized.min_avail_w()) - (-22_500.0)).abs() < 1e-3);
}

#[test]
fn initial_output_clamps_at_the_ac_rating_before_any_tick() {
    let s = sited(SolarInverterConfig {
        rated_lower_w: f(-30_000.0),
        rated_upper_w: f(0.0),
        sunlight_pct: f(80.0),
        array_peak_w: f(45_000.0),
        ramp_rate_w_per_s: f(f32::INFINITY),
        ..SolarInverterConfig::default()
    });
    let t = s.w.get(1).unwrap().telemetry(&s.w, now());
    let p = n(t.active_power_w.expect("active power present"));
    assert!((p - (-30_000.0)).abs() < 1e-3, "expected -30000 W before any tick, got {p}");
}

#[test]
fn dynamic_sunlight_source_refreshes() {
    let mut inv = with_sun(100.0);
    inv.set_sunlight_source(lambda(100.0, "(lambda () 40.0)"));
    // Before the refresh the fallback is still in effect.
    assert!((n(inv.min_avail_w()) - (-10_000.0)).abs() < 1e-3);
    inv.refresh_inputs(number(40.0));
    assert!((n(inv.min_avail_w()) - (-4_000.0)).abs() < 1e-3);
}

#[test]
fn set_sunlight_pct_collapses_dynamic_source() {
    let mut inv = with_sun(100.0);
    inv.set_sunlight_source(lambda(100.0, "(lambda () 70.0)"));
    inv.refresh_inputs(number(70.0));
    assert!((n(inv.min_avail_w()) - (-7_000.0)).abs() < 1e-3);

    inv.set_sunlight_pct(f(30.0));
    // A refresh changes nothing on the constant.
    inv.refresh_inputs(number(70.0));
    assert!((n(inv.min_avail_w()) - (-3_000.0)).abs() < 1e-3);
}

#[test]
fn errored_inverter_stops_producing() {
    let mut s = sited(cfg_with_sun(100.0));
    s.tick();
    assert!((s.p() - (-10_000.0)).abs() < 1.0);

    s.w.set_health(1, Health::Error);
    s.tick();
    assert!(s.p().abs() < 1.0, "errored PV inverter must produce 0 W, got {}", s.p());

    s.w.set_health(1, Health::Good);
    s.tick();
    assert!((s.p() - (-10_000.0)).abs() < 1.0);
}

fn with_q(pct: f32) -> SolarInverterConfig {
    SolarInverterConfig {
        reactive: ReactiveCapability { pf_limit: None, apparent_va: Some(f(10_000.0)) },
        reactive_command_delay: sec(0),
        reactive_ramp_rate_var_per_s: f(f32::INFINITY),
        ..cfg_with_sun(pct)
    }
}

#[test]
fn health_trip_trips_q_but_keeps_the_armed_curtailment() {
    let mut s = sited(with_q(100.0));
    s.inv().set_active_setpoint(f(-4_000.0), now()).unwrap();
    s.tick();
    s.inv().set_reactive_setpoint(f(2_000.0), now()).unwrap();
    s.tick();
    assert!((s.p() - (-4_000.0)).abs() < 1.0);
    assert!((s.q() - 2_000.0).abs() < 1.0);

    s.w.set_health(1, Health::Error);
    s.tick();
    assert!(s.p().abs() < 1.0, "P snaps to 0");
    assert!(s.q().abs() < 1.0, "Q snaps to 0, got {}", s.q());

    s.w.set_health(1, Health::Good);
    s.tick();
    assert!((s.p() - (-4_000.0)).abs() < 1.0, "P resumes at the curtailment, got {}", s.p());
    assert!(s.q().abs() < 1.0, "Q must await re-dispatch, got {}", s.q());

    s.inv().set_reactive_setpoint(f(1_500.0), now()).unwrap();
    s.tick();
    assert!((s.q() - 1_500.0).abs() < 1.0);
}

#[test]
fn reset_releases_a_curtailment_back_to_the_sunlight_floor() {
    let mut s = sited(with_q(60.0));
    let floor = -6_000.0;
    s.inv().set_active_setpoint(f(-2_000.0), now()).unwrap();
    s.tick();
    assert!((s.p() - (-2_000.0)).abs() < 1.0, "curtailed to -2 kW, got {}", s.p());

    s.inv().reset_setpoint();
    s.tick();
    assert!((s.p() - floor).abs() < 1.0, "reset returns to the floor, got {}", s.p());

    s.inv().set_active_setpoint(f(-1_000.0), now()).unwrap();
    s.inv().set_reactive_setpoint(f(3_000.0), now()).unwrap();
    s.tick();
    assert!((s.p() - (-1_000.0)).abs() < 1.0);
    assert!((s.q() - 3_000.0).abs() < 1.0);

    s.inv().reset_setpoint_axis(SetpointAxis::Active);
    s.tick();
    assert!((s.p() - floor).abs() < 1.0, "released to the floor, got {}", s.p());
    assert!((s.q() - 3_000.0).abs() < 1.0, "the Q command survives, got {}", s.q());
}

#[test]
fn augmentation_beyond_available_sun_parks_at_zero() {
    let mut s = sited(SolarInverterConfig {
        rated_lower_w: f(-30_000.0),
        rated_upper_w: f(0.0),
        sunlight_pct: f(10.0), // only -3 kW available
        ramp_rate_w_per_s: f(f32::INFINITY),
        ..SolarInverterConfig::default()
    });
    let t0 = now();
    s.inv()
        .try_augment_active_bounds(t0, VecBounds::single(f(-8_000.0), f(-6_000.0)), sec(60))
        .unwrap();
    s.tick_at(t0);
    assert!(s.p().abs() < 1.0, "no legal band left: park at 0, got {}", s.p());
}

fn render(kw: &[Kwarg]) -> String {
    kw.iter()
        .map(|a| {
            let shown = match a.value {
                KwValue::Float(v) => format!("{}", n(v)),
                _ => String::new(),
            };
            format!("{} {}", a.key, a.value.text(&shown))
        })
        .collect::<Vec<_>>()
        .join(" ")
}

#[test]
fn constructor_kwargs_round_trip_solar() {
    let cfg = SolarInverterConfig { rated_lower_w: f(-12_000.0), ..cfg_with_sun(42.0) };
    let inv = SolarInverter::new(5, sec(1), cfg);
    let s = render(&inv.constructor_kwargs());
    assert!(s.contains(":sunlight% 42.0"));
    assert!(s.contains(":rated-lower -12000.0"));
    assert_eq!(SimulatedComponent::Solar(inv).make_fn(), "%make-solar-inverter");
}

#[test]
fn constructor_kwargs_omits_sunlight_pct_when_dynamic() {
    let cfg = SolarInverterConfig { sunlight_dynamic: true, ..cfg_with_sun(100.0) };
    let inv = SolarInverter::new(6, sec(1), cfg);
    let s = render(&inv.constructor_kwargs());
    assert!(!s.contains(":sunlight%"));
    assert!(inv.has_unrenderable_source());
}

#[test]
fn a_runtime_lambda_sunlight_poke_reports_unrenderable() {
    let mut inv = with_sun(80.0);
    assert!(!inv.has_unrenderable_source(), "a static one is fine");
    inv.set_sunlight_source(lambda(80.0, "(lambda () 40.0)"));
    assert!(inv.has_unrenderable_source());
}

#[test]
fn a_cleared_follow_slot_is_renderable_despite_the_sticky_dynamic_flag() {
    let cfg = SolarInverterConfig { sunlight_dynamic: true, ..cfg_with_sun(100.0) };
    let mut inv = SolarInverter::new(6, sec(1), cfg);
    assert!(inv.has_unrenderable_source(), "built with a lambda");

    inv.clear_sunlight();
    assert!(!inv.has_unrenderable_source(), "a Follow slot renders by omission");
    let s = render(&inv.constructor_kwargs());
    assert!(!s.contains(":sunlight%"), "and the kwarg stays omitted");
}

#[test]
fn snapshot_restore_round_trip_sunlight_dynamic_source() {
    let mut inv = with_sun(50.0);
    inv.set_sunlight_source(lambda(50.0, "(lambda () 33.0)"));
    let text_before = inv.sunlight_reading().expr;
    assert!(text_before.is_some());

    let snap = inv.snapshot_knob(KnobKind::Sunlight).unwrap();

    inv.set_sunlight_pct(f(10.0));
    assert!(inv.sunlight_reading().expr.is_none());
    assert!(!inv.has_unrenderable_source());

    assert!(inv.restore_knob(snap));
    assert_eq!(inv.sunlight_reading().expr, text_before);
    assert!(inv.has_unrenderable_source(), "dynamic source restored");
}

#[test]
fn follow_source_tracks_site_weather() {
    let mut s = sited(following());
    s.w.set_weather(Some(Weather::new(WeatherConfig::default())));
    s.tick_once(at(13, 0), 0.0);
    let r = s.inv().sunlight_reading();
    assert!((n(r.value) - 100.0).abs() < 0.01, "solar noon: 100, got {}", n(r.value));
    assert_eq!(r.expr.as_deref(), Some("weather"), "Follow read-back marker");

    s.tick_once(at(9, 30), 0.0);
    let pct = s.reading();
    let expect = 100.0 * (std::f32::consts::PI * 0.25).sin();
    assert!((pct - expect).abs() < 0.1, "expected {expect}, got {pct}");

    s.w.set_weather(None);
    s.tick_once(at(9, 30), 0.0);
    let pct = s.reading();
    assert!((pct - 100.0).abs() < 0.01, "no weather: 100, got {pct}");
}

#[test]
fn manual_override_and_clear_round_trip() {
    let mut s = sited(following());
    s.w.set_weather(Some(Weather::new(WeatherConfig::default())));
    let night = at(2, 0);
    assert!(s.w.components[0].set_sunlight_pct(f(42.0)));
    s.tick_once(night, 0.0);
    assert!((s.reading() - 42.0).abs() < 0.01);
    assert!(s.w.components[0].clear_sunlight_source(), "solar takes the clear");
    s.tick_once(night, 0.0);
    assert_eq!(s.reading(), 0.0, "night sky via Follow");
}

#[test]
fn follow_source_reads_the_sky_one_lag_ago() {
    let mut s = sited(SolarInverterConfig { weather_lag: sec(3_600), ..following() });
    s.w.set_weather(Some(Weather::new(WeatherConfig::default())));
    s.tick_once(at(13, 0), 0.0);
    let pct = s.reading();
    let an_hour_ago = 100.0 * (std::f32::consts::PI * 6.0 / 14.0).sin();
    assert!((pct - an_hour_ago).abs() < 0.05, "reads {an_hour_ago}, got {pct}");
    assert!((pct - 100.0).abs() > 1.0, "distinguishable from the unlagged 100 at noon");
}

#[test]
fn follow_source_jitters_within_the_configured_band() {
    let mut s = sited(SolarInverterConfig { weather_jitter_pct: f(50.0), ..following() });
    s.w.set_weather(Some(Weather::new(WeatherConfig::default())));
    let (_, width) = s.inv().sky_request(at(13, 0)).unwrap();
    assert_eq!(n(width), 50.0);
    let mut seen = Vec::new();
    for draw in [-50.0f32, -12.5, 0.0, 3.0, 50.0] {
        s.tick_once(at(13, 0), draw);
        seen.push(s.reading());
    }
    assert!(
        seen.windows(2).any(|p| (p[0] - p[1]).abs() > f32::EPSILON),
        "jitter must move the sample tick to tick, got {seen:?}"
    );
    for v in &seen {
        assert!((50.0..=150.0).contains(v), "got {v} in {seen:?}");
    }
}

#[test]
fn knob_snapshot_restores_follow() {
    let mut inv = SolarInverter::new(1, sec(1), following());
    let snap = inv.snapshot_knob(KnobKind::Sunlight).unwrap();
    inv.set_sunlight_pct(f(5.0));
    assert!(inv.restore_knob(snap));
    assert!(matches!(&inv.sunlight_source, SunlightSource::Follow { .. }));
}

#[test]
fn knob_snapshot_restores_manual_over_follow() {
    let mut inv = SolarInverter::new(1, sec(1), following());
    inv.set_sunlight_pct(f(42.0));
    let snap = inv.snapshot_knob(KnobKind::Sunlight).unwrap();

    inv.clear_sunlight();
    assert_eq!(inv.sunlight_reading().expr.as_deref(), Some("weather"));

    assert!(inv.restore_knob(snap));
    let r = inv.sunlight_reading();
    assert!((n(r.value) - 42.0).abs() < 0.01, "restored 42, got {}", n(r.value));
    assert_eq!(r.expr, None, "a restored constant carries no marker");
    assert!(matches!(&inv.sunlight_source, SunlightSource::Manual(_)));
}

#[test]
fn a_sunlight_set_over_a_following_inverter_is_not_written() {
    let mut inv = SolarInverter::new(6, sec(1), following());
    assert!(!inv.has_unrenderable_source());
    inv.set_sunlight_pct(f(40.0));
    assert!(inv.has_unrenderable_source());
    assert!(inv.constructor_kwargs().iter().all(|a| a.key != ":sunlight%"));
    inv.clear_sunlight();
    assert!(!inv.has_unrenderable_source());

    // One that was built with a sunlight writes that, and has nothing to lose.
    let mut inv = with_sun(80.0);
    inv.set_sunlight_pct(f(40.0));
    assert!(!inv.has_unrenderable_source());
    assert!(inv
        .constructor_kwargs()
        .iter()
        .any(|a| a.key == ":sunlight%" && a.value == KwValue::Float(f(80.0))));
}

#[test]
fn a_new_inverter_has_no_command_on_either_axis() {
    let inv = with_sun(80.0);
    for axis in [&inv.active, &inv.reactive] {
        assert!(axis.delay.armed.is_none());
        assert!(axis.delay.executing.is_none());
        assert!(axis.delay.waiting.is_none());
        assert_eq!(n(axis.published), 0.0);
    }
}
