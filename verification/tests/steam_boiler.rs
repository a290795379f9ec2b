//! The boiler: pressure, demand and what it draws.

use chrono::Utc;
use macrocosim::component::{KnobKind, KnobSnapshot, Telemetry};
use macrocosim::dynamic_scalar::DynamicScalar;
use macrocosim::kwargs::{KwValue, Kwarg};
use macrocosim::microgrid_site::MicrogridSite;
use macrocosim::runtime::Health;
use macrocosim::simulated::SimulatedComponent;
use macrocosim::single::Single;
use macrocosim::solar_inverter::SunlightSource;
use macrocosim::steam_boiler::{SteamBoiler, SteamBoilerConfig};
use macrocosim::time::{Span, Timestamp};

fn f(x: f32) -> Single {
    Single::from_bits(x.to_bits())
}

fn n(x: Single) -> f32 {
    f32::from_bits(x.to_bits())
}

fn now() -> Timestamp {
    let t = Utc::now();
    Timestamp { secs: t.timestamp(), nanos: t.timestamp_subsec_nanos() }
}

fn dt() -> Span {
    Span { secs: 1, nanos: 0 }
}

fn boiler(cfg: SteamBoilerConfig) -> SimulatedComponent {
    SimulatedComponent::SteamBoiler(SteamBoiler::new(
        700,
        dt(),
        SteamBoilerConfig {
            command_delay: Span { secs: 0, nanos: 0 },
            ramp_rate_w_per_s: f(f32::INFINITY),
            ..cfg
        },
    ))
}

fn tick(b: &mut SimulatedComponent) {
    b.tick(Health::Good, now(), dt());
}

fn power(b: &SimulatedComponent) -> f32 {
    n(b.aggregate_power_w(&MicrogridSite::new()))
}

fn telemetry(b: &SimulatedComponent) -> Telemetry {
    b.telemetry(&MicrogridSite::new(), now())
}

fn pressure(b: &SimulatedComponent) -> Option<f32> {
    telemetry(b).pressure_bar.map(n)
}

fn upper(b: &SimulatedComponent) -> f32 {
    n(b.effective_active_bounds(now()).unwrap().0[0].upper.unwrap())
}

#[test]
fn at_target_consumes_exactly_demand_when_allotted() {
    let mut b = boiler(SteamBoilerConfig::default());
    // 100 kg/h x 627 Wh/kg = 62_700 W
    assert!(b.set_steam_demand_kg_h(f(100.0)));
    assert!(b.set_active_setpoint(f(200_000.0), now()).is_ok());
    tick(&mut b);
    assert!((power(&b) - 62_700.0).abs() < 1.0);
    assert_eq!(pressure(&b), Some(8.0));
}

#[test]
fn allotment_below_demand_is_consumed_gas_covers_rest() {
    let mut b = boiler(SteamBoilerConfig::default());
    b.set_steam_demand_kg_h(f(100.0));
    assert!(b.set_active_setpoint(f(40_000.0), now()).is_ok());
    tick(&mut b);
    assert!((power(&b) - 40_000.0).abs() < 1.0);
    assert_eq!(pressure(&b), Some(8.0));
}

#[test]
fn no_command_draws_nothing() {
    let mut b = boiler(SteamBoilerConfig::default());
    b.set_steam_demand_kg_h(f(100.0));
    tick(&mut b);
    assert_eq!(power(&b), 0.0);
    assert_eq!(pressure(&b), Some(8.0));
}

#[test]
fn above_target_declines_power_and_decays_at_demand_rate() {
    let mut b = boiler(SteamBoilerConfig::default());
    b.set_steam_demand_kg_h(f(100.0)); // 62_700 W draw
    assert!(b.set_pressure_bar(f(9.0)));
    assert!(b.set_active_setpoint(f(100_000.0), now()).is_ok());
    tick(&mut b);
    assert_eq!(power(&b), 0.0);
    let p = pressure(&b).unwrap();
    assert!((p - (9.0 - 62_700.0 / 3600.0 / 10_000.0)).abs() < 1e-4);
    for _ in 0..1_000 {
        tick(&mut b);
    }
    assert_eq!(pressure(&b), Some(8.0));
}

#[test]
fn below_target_start_bursts_electric_when_allotted() {
    let mut b = boiler(SteamBoilerConfig {
        initial_bar: Some(f(7.9)),
        ..SteamBoilerConfig::default()
    });
    b.set_steam_demand_kg_h(f(100.0));
    assert!(b.set_active_setpoint(f(250_000.0), now()).is_ok());
    tick(&mut b);
    assert!((power(&b) - 250_000.0).abs() < 1.0);
    assert_eq!(pressure(&b), Some(8.0));
}

#[test]
fn below_target_start_without_command_gas_restores() {
    let mut b = boiler(SteamBoilerConfig {
        initial_bar: Some(f(7.0)),
        ..SteamBoilerConfig::default()
    });
    tick(&mut b);
    assert_eq!(power(&b), 0.0);
    assert_eq!(pressure(&b), Some(8.0));
}

#[test]
fn demand_sanitizes_negative_and_non_finite() {
    let mut b = boiler(SteamBoilerConfig::default());
    b.set_steam_demand_kg_h(f(-50.0));
    b.set_active_setpoint(f(10_000.0), now()).unwrap();
    tick(&mut b);
    assert_eq!(power(&b), 0.0, "negative demand is 0");
    assert_eq!(pressure(&b), Some(8.0));
}

#[test]
fn set_pressure_clamps_to_max() {
    let mut b = boiler(SteamBoilerConfig::default());
    assert!(b.set_pressure_bar(f(50.0)));
    tick(&mut b);
    assert_eq!(pressure(&b), Some(10.0));
    assert!(b.set_pressure_bar(f(f32::NAN)));
    assert_eq!(pressure(&b), Some(10.0), "NaN ignored");
}

#[test]
fn effective_bounds_track_need() {
    let mut b = boiler(SteamBoilerConfig::default());
    tick(&mut b);
    assert_eq!(upper(&b), 0.0);
    b.set_steam_demand_kg_h(f(100.0));
    tick(&mut b);
    assert!((upper(&b) - 62_700.0).abs() < 1.0);
}

#[test]
fn telemetry_shape() {
    let b = boiler(SteamBoilerConfig::default());
    let t = telemetry(&b);
    assert_eq!(t.reactive_power_var.map(n), Some(0.0));
    assert_eq!(t.pressure_bar.map(n), Some(8.0));
    assert_eq!(b.pressure_target_bar().map(n), Some(8.0));
    assert!(b.takes_pressure_bar());
    assert!(b.takes_steam_demand());
}

fn render(kw: &[Kwarg]) -> String {
    kw.iter()
        .map(|a| {
            let shown = match a.value {
                KwValue::Float(v) => format!("{}", n(v)),
                _ => String::new(),
            };
            format!("{} {}", a.key, a.value.text(&shown))
        })
        .collect::<Vec<_>>()
        .join(" ")
}

#[test]
fn steam_boiler_constructor_kwargs_round_trip() {
    let b = SteamBoiler::new(
        9,
        Span { secs: 0, nanos: 500_000_000 },
        SteamBoilerConfig {
            rated_upper_w: f(100_000.0),
            target_bar: f(6.0),
            max_bar: f(9.0),
            demand_kg_h: f(40.0),
            stream_jitter_pct: f(5.0),
            ..SteamBoilerConfig::default()
        },
    );
    let s = render(&b.constructor_kwargs());
    assert_eq!(SimulatedComponent::SteamBoiler(b).make_fn(), "%make-steam-boiler");
    assert!(s.contains(":rated-upper 100000.0"));
    assert!(s.contains(":target-bar 6.0"));
    assert!(s.contains(":max-bar 9.0"));
    assert!(s.contains(":demand 40.0"));
    assert!(s.contains(":interval 500"));
    assert!(s.contains(":stream-jitter-pct 5.0"));
    assert!(!s.contains(":ramp-rate"), "infinite ramp omitted");
    assert!(!s.contains(":initial-bar"), "default initial omitted");

    // Dynamic demand is omitted entirely.
    let b2 = SteamBoiler::new(
        10,
        dt(),
        SteamBoilerConfig { demand_dynamic: true, ..SteamBoilerConfig::default() },
    );
    let s2 = render(&b2.constructor_kwargs());
    assert!(!s2.contains(":demand"));
    assert!(b2.has_unrenderable_source());
}

#[test]
fn snapshot_restore_round_trip_boiler_demand_dynamic_source() {
    let mut b = boiler(SteamBoilerConfig::default());
    b.set_steam_demand_source(DynamicScalar::from_funcall(
        0,
        "(lambda () 77.0)".to_string(),
        f(0.0),
    ));
    let text_before = b.demand_reading().unwrap().expr;
    assert!(text_before.is_some());

    let snap = b.snapshot_knob(KnobKind::BoilerDemand).unwrap();

    // A scenario collapses it to a constant.
    assert!(b.set_steam_demand_kg_h(f(15.0)));
    assert!(b.demand_reading().unwrap().expr.is_none());
    assert!(!b.has_unrenderable_source());

    assert!(b.restore_knob(snap));
    assert_eq!(b.demand_reading().unwrap().expr, text_before);
    assert!(b.has_unrenderable_source(), "dynamic source restored");
}

#[test]
fn restore_knob_rejects_a_sunlight_snapshot() {
    let mut b = boiler(SteamBoilerConfig::default());
    assert!(!b.restore_knob(KnobSnapshot::Sunlight(SunlightSource::manual(
        DynamicScalar::constant(f(1.0))
    ))));
    assert_eq!(n(b.demand_reading().unwrap().value), 0.0);
}
