//! The charger: what it offers and what its car takes.

use chrono::Utc;
use macrocosim::bounds::{Bounds, VecBounds};
use macrocosim::component::{AugmentError, KnobKind, KnobSnapshot, SetpointError, Telemetry};
use macrocosim::ev_charger::{EvCharger, EvChargerConfig, EvIdle};
use macrocosim::ev_presets::{preset, ConnectedEv, EvDrawState, EvOverrides};
use macrocosim::kwargs::{KwValue, Kwarg};
use macrocosim::microgrid_site::MicrogridSite;
use macrocosim::runtime::Health;
use macrocosim::simulated::SimulatedComponent;
use macrocosim::single::Single;
use macrocosim::time::{Span, Timestamp};
use macrocosim::timeout_tracker::SetpointAxis;

fn f(x: f32) -> Single {
    Single::from_bits(x.to_bits())
}

fn n(x: Single) -> f32 {
    f32::from_bits(x.to_bits())
}

fn now() -> Timestamp {
    let t = Utc::now();
    Timestamp { secs: t.timestamp(), nanos: t.timestamp_subsec_nanos() }
}

fn sec(s: u64) -> Span {
    Span { secs: s, nanos: 0 }
}

fn none() -> EvOverrides {
    EvOverrides {
        soc_pct: None,
        target_soc_pct: None,
        phases: None,
        max_current_a: None,
        capacity_wh: None,
        taper_start_pct: None,
        taper_floor: None,
    }
}

fn test_car(name: &str, soc: f32) -> ConnectedEv {
    let p = preset(name).unwrap();
    ConnectedEv::new(&p, &EvOverrides { soc_pct: Some(f(soc)), ..none() }, now()).unwrap()
}

fn instant() -> EvChargerConfig {
    EvChargerConfig {
        command_delay: sec(0),
        ramp_rate_w_per_s: f(f32::INFINITY),
        ..EvChargerConfig::default()
    }
}

/// A charger at a site, under id 7.
struct Sited {
    w: MicrogridSite,
}

fn sited(cfg: EvChargerConfig) -> Sited {
    let mut w = MicrogridSite::new();
    w.register(SimulatedComponent::EvCharger(EvCharger::new(7, sec(1), cfg)));
    Sited { w }
}

impl Sited {
    fn ev(&mut self) -> &mut EvCharger {
        match &mut self.w.components[0] {
            SimulatedComponent::EvCharger(c) => c,
            _ => panic!("not a charger"),
        }
    }

    fn tick_n(&mut self, count: usize) {
        for _ in 0..count {
            let health = self.w.runtime_of(7).health;
            self.w.components[0].tick(health, now(), sec(1));
        }
    }

    fn power(&self) -> f32 {
        n(self.w.get(7).unwrap().aggregate_power_w(&self.w))
    }

    fn state(&mut self) -> EvDrawState {
        self.ev().ev_info().unwrap().state
    }

    fn command(&mut self, w: f32) -> Result<(), SetpointError> {
        self.ev().set_active_setpoint(f(w), now())
    }

    fn telemetry(&self) -> Telemetry {
        self.w.get(7).unwrap().telemetry(&self.w, now())
    }

    fn offer(&mut self) -> f32 {
        n(self.ev().effective_active_bounds(now()).0[0].upper.unwrap())
    }
}

fn band(lo: f32, hi: f32) -> VecBounds {
    VecBounds(vec![Bounds { lower: Some(f(lo)), upper: Some(f(hi)) }])
}

#[test]
fn empty_charger_draws_nothing_and_still_advertises_its_rating() {
    let mut s = sited(instant());
    s.command(22_000.0).unwrap();
    s.tick_n(3);
    assert_eq!(s.power(), 0.0);
    assert_eq!(s.offer(), 22_000.0, "bounds are the charger's own");
    assert!(s.ev().ev_info().is_none());
}

#[test]
fn plugged_car_draws_within_the_limit_on_its_own_phases() {
    let mut s = sited(instant());
    s.ev().plug_ev(test_car("city", 30.0)).unwrap(); // 1 ph, 32 A
    s.command(22_000.0).unwrap();
    s.tick_n(2);
    let p = s.power();
    assert!((p - 22_000.0 / 3.0).abs() < 1.0, "one phase of the offer, got {p}");
    assert_eq!(s.state(), EvDrawState::Charging);
}

#[test]
fn limit_under_six_amps_pauses() {
    let mut s = sited(instant());
    s.ev().plug_ev(test_car("sedan", 30.0)).unwrap();
    s.command(4_000.0).unwrap(); // 5.8 A on 3 phases
    s.tick_n(2);
    assert_eq!(s.power(), 0.0);
    assert_eq!(s.state(), EvDrawState::Paused);
    s.command(4_200.0).unwrap(); // 6.09 A
    s.tick_n(2);
    assert!(s.power() > 4_100.0);
}

#[test]
fn idle_paused_draws_nothing_and_idle_full_draws_the_cap() {
    let mut s = sited(instant());
    s.ev().plug_ev(test_car("sedan", 30.0)).unwrap();
    s.tick_n(2);
    assert_eq!(s.power(), 0.0, "no command, paused idle");

    let mut s = sited(EvChargerConfig { idle: EvIdle::Full, ..instant() });
    s.ev().plug_ev(test_car("sedan", 30.0)).unwrap();
    s.tick_n(2);
    let p = s.power();
    assert!((p - 3.0 * 230.0 * 16.0).abs() < 1.0, "11 kW cap, got {p}");
}

#[test]
fn target_soc_ends_the_session_and_unplug_clears_it() {
    let mut s = sited(instant());
    let car = ConnectedEv::new(
        &preset("phev").unwrap(),
        &EvOverrides { soc_pct: Some(f(99.9)), target_soc_pct: Some(f(100.0)), ..none() },
        now(),
    )
    .unwrap();
    s.ev().plug_ev(car).unwrap();
    s.command(22_000.0).unwrap();
    // About 4 A after the taper on a 13 kWh pack: 0.1 % takes about 50 s.
    s.tick_n(90);
    assert_eq!(s.state(), EvDrawState::Done);
    assert_eq!(s.power(), 0.0);
    assert!(s.ev().unplug_ev());
    assert!(s.ev().ev_info().is_none());
    assert!(!s.ev().unplug_ev(), "empty already");
}

#[test]
fn plugging_clears_the_previous_session_state() {
    let mut s = sited(instant());
    s.w.set_health(7, Health::Error);
    s.tick_n(1);
    assert_eq!(s.ev().ev_info().map(|i| i.state), None, "nothing plugged yet");
    s.w.set_health(7, Health::Good);
    s.ev().plug_ev(test_car("sedan", 30.0)).unwrap();
    assert_eq!(s.state(), EvDrawState::Paused, "a freshly plugged car is paused, not tripped");
    assert_eq!(s.power(), 0.0);
}

#[test]
fn plug_while_plugged_errors() {
    let mut s = sited(instant());
    s.ev().plug_ev(test_car("sedan", 30.0)).unwrap();
    assert!(s.ev().plug_ev(test_car("van", 30.0)).is_err());
    assert_eq!(s.ev().ev_info().unwrap().ev.preset, "sedan");
}

#[test]
fn health_trip_still_zeroes_and_clears_the_command() {
    let mut s = sited(instant());
    s.ev().plug_ev(test_car("sedan", 30.0)).unwrap();
    s.command(22_000.0).unwrap();
    s.tick_n(2);
    assert!(s.power() > 10_000.0);
    s.w.set_health(7, Health::Error);
    s.tick_n(1);
    assert_eq!(s.power(), 0.0);
    assert_eq!(s.state(), EvDrawState::Tripped);
    s.w.set_health(7, Health::Good);
    s.tick_n(3);
    assert_eq!(s.power(), 0.0, "no command survives the trip");
}

#[test]
fn ttl_expiry_slews_the_limit_and_the_draw_follows() {
    let mut s = sited(EvChargerConfig { ramp_rate_w_per_s: f(1_000.0), ..instant() });
    s.ev().plug_ev(test_car("van", 30.0)).unwrap(); // 3 ph 32 A = 22 kW cap
    s.command(22_000.0).unwrap();
    s.tick_n(25);
    assert!((s.power() - 22_000.0).abs() < 100.0);
    s.ev().reset_setpoint();
    s.tick_n(1);
    let p = s.power();
    assert!(p > 20_000.0 && p < 22_000.0, "one tick of slew, got {p}");
}

#[test]
fn energy_matches_the_integrated_draw() {
    let mut s = sited(instant());
    s.ev().plug_ev(test_car("sedan", 30.0)).unwrap();
    s.command(22_000.0).unwrap();
    s.tick_n(10);
    let got = n(s.ev().ev_info().unwrap().ev.energy_wh);
    let expected = 9.0 * 11_040.0 / 3600.0;
    assert!((got - expected).abs() < 5.0, "got {got}");
}

#[test]
fn set_soc_moves_the_plugged_car_only() {
    let mut s = sited(instant());
    assert!(!s.ev().takes_soc_pct(), "no car, no SoC");
    s.ev().plug_ev(test_car("sedan", 30.0)).unwrap();
    assert!(s.ev().takes_soc_pct());
    assert!(s.ev().set_soc_pct(f(55.0)));
    assert_eq!(n(s.ev().ev_info().unwrap().ev.soc_pct), 55.0);
}

#[test]
fn knob_snapshot_restores_the_plug_state() {
    let mut s = sited(instant());
    let before = s.ev().snapshot_knob(KnobKind::Ev);
    assert!(matches!(before, Some(KnobSnapshot::Ev(None))));
    s.ev().plug_ev(test_car("sedan", 30.0)).unwrap();
    assert!(s.ev().restore_knob(before.unwrap()));
    assert!(s.ev().ev_info().is_none(), "restore unplugs");
    s.ev().plug_ev(test_car("van", 30.0)).unwrap();
    let plugged = s.ev().snapshot_knob(KnobKind::Ev).unwrap();
    assert!(s.ev().unplug_ev());
    assert!(s.ev().restore_knob(plugged));
    assert_eq!(s.ev().ev_info().unwrap().ev.preset, "van");
}

fn render(kw: &[Kwarg]) -> String {
    kw.iter()
        .map(|a| {
            let shown = match a.value {
                KwValue::Float(v) => format!("{}", n(v)),
                _ => String::new(),
            };
            format!("{} {}", a.key, a.value.text(&shown))
        })
        .collect::<Vec<_>>()
        .join(" ")
}

#[test]
fn ev_charger_constructor_kwargs_round_trip() {
    let kw = |cfg: EvChargerConfig| render(&EvCharger::new(9, sec(1), cfg).constructor_kwargs());
    let d = kw(EvChargerConfig::default());
    assert!(d.contains(":rated-upper 22000"), "{d}");
    assert!(!d.contains(":phases"), "default phases omitted: {d}");
    assert!(!d.contains(":idle"), "default idle omitted: {d}");
    assert!(!d.contains(":capacity"), "the pack is gone: {d}");
    let s = kw(EvChargerConfig { phases: 1, idle: EvIdle::Full, ..EvChargerConfig::default() });
    assert!(s.contains(":phases 1"), "{s}");
    assert!(s.contains(":idle 'full"), "{s}");
}

#[test]
fn resume_on_recovery_keeps_the_command_through_the_fault() {
    let mut s = sited(EvChargerConfig { resume_on_recovery: true, ..instant() });
    s.ev().plug_ev(test_car("van", 30.0)).unwrap(); // takes the whole offer
    s.command(22_000.0).unwrap();
    s.tick_n(2);
    assert!((s.power() - 22_000.0).abs() < 100.0);

    s.w.set_health(7, Health::Error);
    s.tick_n(3);
    assert_eq!(s.power(), 0.0, "stays off while faulted");
    assert_eq!(s.state(), EvDrawState::Tripped);

    s.w.set_health(7, Health::Good);
    s.tick_n(2);
    let p = s.power();
    assert!((p - 22_000.0).abs() < 100.0, "resumes the armed command, got {p}");
}

#[test]
fn standby_trips_like_an_error_and_awaits_redispatch() {
    let mut s = sited(instant());
    s.ev().plug_ev(test_car("van", 30.0)).unwrap();
    s.command(22_000.0).unwrap();
    s.tick_n(2);
    assert!(s.power() > 10_000.0);

    s.w.set_health(7, Health::Standby);
    s.tick_n(1);
    assert_eq!(s.power(), 0.0, "standby is offline too");
    assert_eq!(s.state(), EvDrawState::Tripped);

    s.w.set_health(7, Health::Good);
    s.tick_n(3);
    assert_eq!(s.power(), 0.0, "waking up awaits a re-dispatch");
    s.command(22_000.0).unwrap();
    s.tick_n(2);
    assert!(s.power() > 10_000.0, "a new command resumes charging");
}

#[test]
fn augmentation_narrows_the_offer_and_the_draw_follows() {
    let mut s = sited(instant());
    s.ev().plug_ev(test_car("van", 30.0)).unwrap();
    s.command(22_000.0).unwrap();
    s.tick_n(2);
    assert!((s.power() - 22_000.0).abs() < 100.0);

    s.ev().try_augment_active_bounds(now(), band(0.0, 7_000.0), sec(60)).unwrap();
    assert_eq!(s.offer(), 7_000.0, "the offer is narrowed");

    // 7 kW over three phases is 10.1 A, above the 6 A floor.
    s.tick_n(2);
    let p = s.power();
    assert!((p - 7_000.0).abs() < 50.0, "draw follows the offer, got {p}");

    // And the narrowing is the validation envelope too.
    assert!(matches!(s.command(10_000.0), Err(SetpointError::OutOfBounds { .. })));
}

#[test]
fn an_augmentation_disjoint_from_rated_is_rejected() {
    let mut s = sited(instant());
    s.ev().plug_ev(test_car("van", 30.0)).unwrap();
    s.command(22_000.0).unwrap();
    assert!(matches!(
        s.ev().try_augment_active_bounds(now(), band(30_000.0, 40_000.0), sec(60)),
        Err(AugmentError::Disjoint(_))
    ));
    assert_eq!(s.offer(), 22_000.0, "rated survives a rejected augmentation");
    s.tick_n(2);
    assert!((s.power() - 22_000.0).abs() < 100.0, "and the car still charges");
}

#[test]
fn augmentation_active_reports_only_the_active_axis() {
    let mut s = sited(instant());
    let t = now();
    assert!(!s.ev().augmentation_active(SetpointAxis::Active, t));
    assert!(!s.ev().augmentation_active(SetpointAxis::Reactive, t));

    s.ev().try_augment_active_bounds(t, band(0.0, 7_000.0), sec(60)).unwrap();
    assert!(s.ev().augmentation_active(SetpointAxis::Active, t));
    assert!(
        !s.ev().augmentation_active(SetpointAxis::Reactive, t),
        "the charger has no reactive axis to narrow"
    );
}

#[test]
fn telemetry_advertises_zero_reactive_and_tracks_the_plug() {
    let mut s = sited(instant());
    let t = s.telemetry();
    assert_eq!(t.reactive_power_var.map(n), Some(0.0));
    assert_eq!(t.cable_state, Some("ev-charging-cable-unplugged"));
    assert_eq!(t.soc_pct, None, "an empty charger has no SoC to report");

    s.ev().plug_ev(test_car("sedan", 30.0)).unwrap();
    let t = s.telemetry();
    assert_eq!(t.reactive_power_var.map(n), Some(0.0));
    assert_eq!(t.cable_state, Some("ev-charging-cable-locked-at-ev"));
    assert_eq!(t.soc_pct.map(n), Some(30.0), "the car's SoC, not the charger's");
}

#[test]
fn component_state_tracks_the_flow_not_the_plug() {
    let mut s = sited(instant());
    assert_eq!(s.telemetry().component_state, Some("ready"), "an empty charger is ready");

    s.ev().plug_ev(test_car("van", 30.0)).unwrap();
    s.tick_n(2);
    assert_eq!(s.telemetry().component_state, Some("ready"), "plugged but paused");

    s.command(22_000.0).unwrap();
    s.tick_n(2);
    assert!(s.power() > 0.0);
    assert_eq!(s.telemetry().component_state, Some("charging"));

    s.command(4_000.0).unwrap();
    s.tick_n(2);
    assert_eq!(s.power(), 0.0);
    assert_eq!(s.telemetry().component_state, Some("ready"));
    assert_eq!(
        s.telemetry().cable_state,
        Some("ev-charging-cable-locked-at-ev"),
        "paused is not unplugged"
    );
}

#[test]
fn a_one_phase_charger_delivers_one_phase() {
    let mut s = sited(EvChargerConfig { phases: 1, ..instant() });
    s.ev().plug_ev(test_car("van", 30.0)).unwrap(); // a 3 ph, 32 A car
    s.command(7_360.0).unwrap();
    s.tick_n(2);
    let p = s.power();
    assert!((p - 7_360.0).abs() < 1.0, "one phase at 32 A, got {p}");

    s.command(22_000.0).unwrap();
    s.tick_n(2);
    let p = s.power();
    assert!((p - 7_360.0).abs() < 1.0, "still one phase of 32 A, got {p}");
}

#[test]
fn idle_modes_read_back() {
    assert_eq!(EvIdle::parse("paused"), Some(EvIdle::Paused));
    assert_eq!(EvIdle::parse("full"), Some(EvIdle::Full));
    assert_eq!(EvIdle::parse("sideways"), None);
    assert_eq!(EvIdle::Full.as_str(), "full");
}
