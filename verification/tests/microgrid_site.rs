//! A site: its components, their graph, their modes and its power.

use chrono::Utc;
use macrocosim::battery::{Battery, BatteryConfig};
use macrocosim::bounds::VecBounds;
use macrocosim::component::{Category, OperationalMode, FIRST_AUTO_ID};
use macrocosim::double::Double;
use macrocosim::dynamic_scalar::DynamicScalar;
use macrocosim::ev_charger::{EvCharger, EvChargerConfig};
use macrocosim::ev_presets::{preset, ConnectedEv, EvOverrides};
use macrocosim::events::SiteEvent;
use macrocosim::grid::Grid;
use macrocosim::history::ComponentHistory;
use macrocosim::kwargs::KwValue;
use macrocosim::marker::Marker;
use macrocosim::meter::Meter;
use macrocosim::microgrid_site::{IdAllocator, MicrogridSite};
use macrocosim::runtime::{CommandMode, Health, TelemetryMode};
use macrocosim::setpoints::{SetpointEvent, SetpointKind, SetpointOutcome};
use macrocosim::simulated::SimulatedComponent;
use macrocosim::single::Single;
use macrocosim::solar_inverter::{SolarInverter, SolarInverterConfig};
use macrocosim::time::{Span, Timestamp};
use macrocosim::timeout_tracker::SetpointAxis;

fn f(x: f32) -> Single {
    Single::from_bits(x.to_bits())
}

fn n(x: Single) -> f32 {
    f32::from_bits(x.to_bits())
}

fn wide(x: Double) -> f64 {
    f64::from_bits(x.to_bits())
}

fn now() -> Timestamp {
    let t = Utc::now();
    Timestamp { secs: t.timestamp(), nanos: t.timestamp_subsec_nanos() }
}

fn sec(s: u64) -> Span {
    Span { secs: s, nanos: 0 }
}

fn ms(m: u64) -> Span {
    Span { secs: m / 1000, nanos: (m % 1000) as u32 * 1_000_000 }
}

fn meter(id: u64) -> SimulatedComponent {
    SimulatedComponent::Meter(Meter::new(id, sec(1), None, None, f(0.0), false))
}

fn hidden_meter(id: u64) -> SimulatedComponent {
    SimulatedComponent::Meter(Meter::new(id, sec(1), None, None, f(0.0), true))
}

fn grid(id: u64) -> SimulatedComponent {
    SimulatedComponent::Grid(Grid::new(id, 0, None, f(0.0)))
}

fn battery(id: u64) -> SimulatedComponent {
    SimulatedComponent::Battery(Battery::new(id, sec(1), BatteryConfig::default()))
}

fn at(w: &mut MicrogridSite, id: u64) -> &mut SimulatedComponent {
    w.components.iter_mut().find(|c| c.id() == id).unwrap()
}

#[test]
fn active_power_w_matches_telemetry() {
    let mut w = MicrogridSite::new();
    w.register(battery(1));
    let mut charger = EvCharger::new(2, sec(1), EvChargerConfig::default());
    let overrides = EvOverrides {
        soc_pct: Some(f(30.0)),
        target_soc_pct: None,
        phases: None,
        max_current_a: None,
        capacity_wh: None,
        taper_start_pct: None,
        taper_floor: None,
    };
    charger
        .plug_ev(ConnectedEv::new(&preset("city").unwrap(), &overrides, now()).unwrap())
        .unwrap();
    w.register(SimulatedComponent::EvCharger(charger));
    w.register(SimulatedComponent::Solar(SolarInverter::new(
        4,
        sec(1),
        SolarInverterConfig::default(),
    )));
    w.register(meter(5));
    w.connect(5, 4);

    let mut t = now();
    at(&mut w, 2).set_active_setpoint(f(13_000.0), t).unwrap();
    for _ in 0..30 {
        t = t.after(ms(100)).unwrap();
        w.tick_once(t, ms(100));
    }

    for id in [1, 2, 4, 5] {
        let c = w.get(id).unwrap();
        assert_eq!(
            c.active_power_w(&w),
            c.telemetry(&w, t).active_power_w,
            "component {id}: active_power_w() drifted from telemetry()"
        );
    }
    let power = |id: u64| w.get(id).unwrap().active_power_w(&w).map(n).unwrap_or(0.0);
    assert!(power(4) < 0.0);
    assert!(power(2) > 0.0);
    // Energy was added up for what reports power, and for nothing else.
    assert!(w.component_energy_wh(4).map(wide).unwrap() < 0.0);
    assert!(w.component_energy_wh(1).is_none());
}

#[test]
fn set_health_couples_command_mode() {
    let mut w = MicrogridSite::new();
    w.set_health(5, Health::Error);
    assert_eq!(w.runtime_of(5).health, Health::Error);
    assert_eq!(w.runtime_of(5).command, CommandMode::Error);
    w.set_health(5, Health::Good);
    assert_eq!(w.runtime_of(5).command, CommandMode::Normal);
    w.set_command_mode(5, CommandMode::Timeout).unwrap();
    w.set_health(5, Health::Standby);
    assert_eq!(w.runtime_of(5).command, CommandMode::Timeout);
}

#[test]
fn operational_mode_derives_runtime_knobs() {
    let mut w = MicrogridSite::new();
    w.register(meter(5));
    assert_eq!(w.operational_mode(5), OperationalMode::Unspecified);

    w.set_operational_mode(5, OperationalMode::Inactive).unwrap();
    assert_eq!(w.runtime_of(5).telemetry, TelemetryMode::Silent);
    assert_eq!(w.runtime_of(5).command, CommandMode::Error);

    w.set_operational_mode(5, OperationalMode::TelemetryOnly).unwrap();
    assert_eq!(w.runtime_of(5).telemetry, TelemetryMode::Normal);
    assert_eq!(w.runtime_of(5).command, CommandMode::Error);

    w.set_operational_mode(5, OperationalMode::ControlAndTelemetry).unwrap();
    assert_eq!(w.runtime_of(5).telemetry, TelemetryMode::Normal);
    assert_eq!(w.runtime_of(5).command, CommandMode::Normal);
}

#[test]
fn runtime_knobs_validate_against_operational_mode() {
    let mut w = MicrogridSite::new();
    w.register(meter(5));
    w.set_operational_mode(5, OperationalMode::Inactive).unwrap();
    assert!(w.set_telemetry_mode(5, TelemetryMode::Normal).is_err());
    assert!(w.set_command_mode(5, CommandMode::Normal).is_err());
    // Fault values stay settable: they only deepen the outage.
    w.set_telemetry_mode(5, TelemetryMode::Closed).unwrap();
    w.set_command_mode(5, CommandMode::Timeout).unwrap();

    w.set_operational_mode(5, OperationalMode::ControlOnly).unwrap();
    assert!(w.set_telemetry_mode(5, TelemetryMode::Normal).is_err());
    w.set_command_mode(5, CommandMode::Normal).unwrap();
}

#[test]
fn operational_mode_changes_are_structural() {
    let mut w = MicrogridSite::new();
    w.register(meter(5));
    let before = w.structural_version();
    w.set_operational_mode(5, OperationalMode::ControlOnly).unwrap();
    assert!(w.structural_version() > before);
    // An unregistered id is rejected.
    assert!(w.set_operational_mode(99, OperationalMode::Inactive).is_err());
}

#[test]
fn health_and_operational_mode_couple_on_commands() {
    let mut w = MicrogridSite::new();
    w.register(meter(5));
    w.set_operational_mode(5, OperationalMode::ControlOnly).unwrap();
    w.set_health(5, Health::Error);
    w.set_health(5, Health::Good);
    assert_eq!(w.runtime_of(5).command, CommandMode::Normal);

    w.set_operational_mode(5, OperationalMode::Inactive).unwrap();
    w.set_health(5, Health::Error);
    w.set_health(5, Health::Good);
    assert_eq!(w.runtime_of(5).command, CommandMode::Error);

    w.set_health(5, Health::Error);
    w.set_operational_mode(5, OperationalMode::ControlAndTelemetry).unwrap();
    assert_eq!(w.runtime_of(5).command, CommandMode::Error);
}

#[test]
fn connect_rejects_cycle_creating_edges() {
    let mut w = MicrogridSite::new();
    assert!(w.connect(1, 2));
    assert!(w.connect(2, 3));
    assert!(!w.connect(3, 1), "3 -> 1 closes 1->2->3");
    assert!(!w.connect(2, 1), "2 -> 1 closes 1->2");
    assert!(!w.connect(4, 4), "self-edge");
    assert_eq!(w.connections().len(), 2);
    assert!(w.connect(3, 4));
}

#[test]
fn shared_child_under_two_parents() {
    let mut w = MicrogridSite::new();
    w.connect(2, 100);
    w.connect(3, 100);
    let conns = w.connections();
    assert_eq!(conns.len(), 2);
    assert!(conns.contains(&(2, 100)));
    assert!(conns.contains(&(3, 100)));
    assert!(w.aggregate_child_bounds(2, now()).is_none());
    assert!(w.aggregate_child_bounds(3, now()).is_none());
}

#[test]
fn children_of_returns_every_edge_from_parent() {
    let mut w = MicrogridSite::new();
    w.connect(2, 100);
    w.connect(2, 101);
    assert_eq!(w.children_of(2), vec![100, 101]);
    w.disconnect(2, 100);
    assert_eq!(w.children_of(2), vec![101]);
}

#[test]
fn parent_count_reports_edge_count() {
    let mut w = MicrogridSite::new();
    assert_eq!(w.parent_count(100), 0); // unconnected
    w.connect(2, 100);
    assert_eq!(w.parent_count(100), 1);
    w.connect(3, 100);
    assert_eq!(w.parent_count(100), 2);
    assert_eq!(w.parent_count(101), 0);
}

#[test]
fn bump_version_broadcasts_event() {
    let mut w = MicrogridSite::new();
    assert_eq!(w.version(), 0);
    let v = w.bump_version();
    assert_eq!(v, 1);
    assert_eq!(w.version(), 1);
    let events = w.take_events();
    assert_eq!(events.len(), 1);
    assert!(matches!(events[0], SiteEvent::TopologyChanged { version: 1 }));
    assert!(w.take_events().is_empty());
}

#[test]
fn remove_component_drops_registry_and_edges() {
    let mut w = MicrogridSite::new();
    w.register(meter(1));
    w.register(meter(2));
    w.register(meter(3));
    w.connect(1, 2);
    w.connect(2, 3);
    w.connect(1, 3);

    assert!(w.remove_component(2));
    assert!(w.get(2).is_none());
    assert!(w.get(1).is_some());
    assert_eq!(w.connections(), vec![(1, 3)]);
    assert!(!w.remove_component(99));
}

#[test]
fn disconnect_drops_one_edge_keeps_endpoints() {
    let mut w = MicrogridSite::new();
    w.register(meter(1));
    w.register(meter(2));
    w.connect(1, 2);
    w.connect(1, 2); // duplicate
    assert!(w.disconnect(1, 2));
    assert!(w.connections().is_empty());
    assert!(w.get(1).is_some());
    assert!(w.get(2).is_some());
    assert!(!w.disconnect(1, 2));
}

#[test]
fn rename_overrides_display_name_only() {
    let mut w = MicrogridSite::new();
    w.register(SimulatedComponent::Marker(Marker {
        id: 7,
        name: "stub-7".to_string(),
        category: Category::Chp,
        stream_jitter_pct: f(0.0),
    }));
    assert_eq!(w.display_name(7).as_deref(), Some("stub-7"));
    w.rename(7, "frontside-meter".to_string());
    assert_eq!(w.display_name(7).as_deref(), Some("frontside-meter"));
    assert_eq!(w.get(7).unwrap().name(), "stub-7");
}

#[test]
fn name_override_and_all_connections_are_raw() {
    let mut site = MicrogridSite::new();
    site.register(meter(1));
    site.register(hidden_meter(2));
    site.connect(1, 2);
    assert_eq!(site.name_override(1), None, "auto default is not an override");
    site.rename(1, "main".to_string());
    assert_eq!(site.name_override(1).as_deref(), Some("main"));
    assert_eq!(site.all_connections(), vec![(1, 2)]);
    assert!(site.connections().is_empty(), "visible-only stays filtered");
}

#[test]
fn reset_clears_history() {
    let mut w = MicrogridSite::new();
    w.histories.insert(42, ComponentHistory::new(600));
    w.reset();
    assert!(w.histories.is_empty());
}

#[test]
fn reset_does_not_rewind_a_shared_id_allocator() {
    let mut site_a = MicrogridSite::with_id_allocator(IdAllocator::default());
    assert_eq!(site_a.next_id(), FIRST_AUTO_ID);
    assert_eq!(site_a.next_id(), FIRST_AUTO_ID + 1);
    // The counter goes over to the other site, which resets.
    let mut site_b = MicrogridSite::with_id_allocator(site_a.next_id);
    site_b.reset();
    site_a.next_id = site_b.next_id;
    assert_eq!(
        site_a.next_id(),
        FIRST_AUTO_ID + 2,
        "a per-site reset rewound the shared id allocator"
    );
}

#[test]
fn command_normal_is_rejected_while_health_is_error() {
    let mut w = MicrogridSite::new();
    w.register(meter(1));
    w.set_health(1, Health::Error);
    assert!(w.set_command_mode(1, CommandMode::Normal).is_err());
    assert_eq!(w.runtime_of(1).command, CommandMode::Error);
    assert!(w.set_command_mode(1, CommandMode::Timeout).is_ok());
    w.set_health(1, Health::Good);
    assert!(w.set_command_mode(1, CommandMode::Normal).is_ok());
}

#[test]
fn reserve_id_advances_the_shared_allocator() {
    let mut site_a = MicrogridSite::with_id_allocator(IdAllocator { next: FIRST_AUTO_ID });
    site_a.reserve_id(2000);
    let mut site_b = MicrogridSite::with_id_allocator(site_a.next_id);
    assert_eq!(site_b.next_id(), 2001);
    // Reserving below the watermark changes nothing.
    site_a.next_id = site_b.next_id;
    site_a.reserve_id(5);
    site_b.next_id = site_a.next_id;
    assert_eq!(site_b.next_id(), 2002);
    // The ceiling saturates instead of wrapping to 0.
    site_a.next_id = site_b.next_id;
    site_a.reserve_id(u64::MAX);
    site_b.next_id = site_a.next_id;
    assert_eq!(site_b.next_id(), u64::MAX);
}

#[test]
fn reset_clears_scenario_and_setpoints() {
    let mut w = MicrogridSite::new();
    w.register(meter(1));
    w.log_setpoint(
        1,
        SetpointEvent {
            ts: now(),
            kind: SetpointKind::ActivePower,
            value: f(1234.0),
            ttl_s: Some(60),
            outcome: SetpointOutcome::Accepted { effective_value: Some(f(1234.0)) },
        },
    );
    assert_eq!(w.setpoints_window(1, Timestamp { secs: 0, nanos: 0 }).len(), 1);
    w.scenario_start("smoke".to_string(), now());
    w.scenario_record("k".to_string(), "v".to_string(), now());

    w.reset();

    assert!(w.setpoint_logs.is_empty(), "setpoint_logs must clear");
    assert!(w.scenario.started_at.is_none(), "scenario journal must reset");
    assert_eq!(w.scenario.event_count(), 0);
}

#[test]
fn main_meter_id_is_sole_meter_child_of_grid() {
    let mut w = MicrogridSite::new();
    w.register(grid(1));
    w.register(meter(2));
    w.register(battery(3));
    assert_eq!(w.main_meter_id(), None);
    w.connect(1, 2);
    w.connect(2, 3);
    assert_eq!(w.main_meter_id(), Some(2));
    // A duplicate edge collapses to one distinct child.
    w.connect(1, 2);
    assert_eq!(w.main_meter_id(), Some(2));
    // A second distinct child of the grid makes it ambiguous.
    w.register(battery(4));
    w.connect(1, 4);
    assert_eq!(w.main_meter_id(), None);
    w.disconnect(1, 4);
    assert_eq!(w.main_meter_id(), Some(2));
    w.remove_component(1);
    assert_eq!(w.main_meter_id(), None);
}

#[test]
fn main_meter_id_none_when_sole_grid_child_isnt_a_meter() {
    let mut w = MicrogridSite::new();
    w.register(grid(1));
    w.register(battery(2));
    w.connect(1, 2);
    assert_eq!(w.main_meter_id(), None);
}

#[test]
fn main_meter_id_ignores_hidden_grid_child() {
    let mut w = MicrogridSite::new();
    w.register(grid(1));
    w.register(meter(2));
    w.register(hidden_meter(5));
    w.connect(1, 2);
    w.connect(1, 5);
    assert_eq!(w.main_meter_id(), Some(2));
}

#[test]
fn main_meter_id_none_with_multiple_grids() {
    let mut w = MicrogridSite::new();
    w.register(grid(1));
    w.register(meter(2));
    w.register(grid(3));
    w.register(meter(4));
    w.connect(1, 2);
    w.connect(3, 4);
    assert_eq!(w.main_meter_id(), None);
}

#[test]
fn constructor_kwargs_round_trip_battery() {
    let cfg = BatteryConfig {
        capacity_wh: f(50_000.0),
        initial_soc_pct: f(20.0),
        ..BatteryConfig::default()
    };
    let b = Battery::new(7, ms(500), cfg);
    let s = b
        .constructor_kwargs()
        .iter()
        .map(|a| match a.value {
            KwValue::Float(v) => {
                format!("{} {}", a.key, a.value.text(&format!("{}", n(v))))
            }
            _ => format!("{} {}", a.key, a.value.text("")),
        })
        .collect::<Vec<_>>()
        .join(" ");
    assert_eq!(SimulatedComponent::Battery(b).make_fn(), "%make-battery");
    assert!(s.contains(":capacity 50000.0"));
    assert!(s.contains(":initial-soc 20.0"));
    assert!(s.contains(":interval 500"));
    assert!(s.contains(":rated-lower -30000.0"));
}

/// A lapsed deadline releases the command of its component, and no other.
#[test]
fn expired_deadlines_release_their_commands() {
    let mut w = MicrogridSite::new();
    let cfg = || SolarInverterConfig {
        command_delay: sec(0),
        ramp_rate_w_per_s: f(f32::INFINITY),
        ..SolarInverterConfig::default()
    };
    w.register(SimulatedComponent::Solar(SolarInverter::new(1, sec(1), cfg())));
    w.register(SimulatedComponent::Solar(SolarInverter::new(2, sec(1), cfg())));
    let t = now();
    for id in [1, 2] {
        at(&mut w, id).set_active_setpoint(f(-4_000.0), t).unwrap();
    }
    w.add_timeout(1, SetpointAxis::Active, sec(10), sec(100));
    w.add_timeout(2, SetpointAxis::Active, sec(60), sec(100));
    w.tick_once(t, ms(100));
    assert!(w.reset_expired(sec(105)).is_empty());
    assert_eq!(w.reset_expired(sec(111)), vec![(1, SetpointAxis::Active)]);
    w.tick_once(t, ms(100));
    let p = |id: u64| n(w.get(id).unwrap().aggregate_power_w(&w));
    assert!((p(1) - -30_000.0).abs() < 1.0, "back to full sun, got {}", p(1));
    assert!((p(2) - -4_000.0).abs() < 1.0, "still curtailed, got {}", p(2));
}

/// A meter's envelope is the sum of those of its children.
#[test]
fn envelopes_add_up() {
    let mut w = MicrogridSite::new();
    w.register(battery(1));
    w.register(battery(2));
    w.register(meter(3));
    w.connect(3, 1);
    w.connect(3, 2);
    let t = now();
    let one = w.get(1).unwrap().effective_active_bounds(t).unwrap();
    let sum = w.aggregate_child_bounds(3, t).unwrap();
    let hull = VecBounds::sum_single(&vec![
        one,
        w.get(2).unwrap().effective_active_bounds(t).unwrap(),
    ]);
    assert_eq!(sum, hull);
    assert_eq!(w.active_setpoint_envelope(3, t), Some(hull));
    assert_eq!(w.active_setpoint_envelope(99, t), None);
}

#[test]
fn energy_adds_up_and_counts_from_the_scenarios_start() {
    let mut w = MicrogridSite::new();
    w.register(SimulatedComponent::Meter(Meter::new(
        1,
        sec(1),
        Some(DynamicScalar::constant(f(3600.0))),
        None,
        f(0.0),
        false,
    )));
    let t0 = Timestamp { secs: 1_000_000, nanos: 0 };
    w.integrate_energy(t0);
    w.integrate_energy(Timestamp { secs: t0.secs + 3600, nanos: 0 });
    assert!((wide(w.component_energy_wh(1).unwrap()) - 3600.0).abs() < 1e-6);
    w.scenario_start("s".to_string(), Timestamp { secs: t0.secs + 3600, nanos: 0 });
    w.integrate_energy(Timestamp { secs: t0.secs + 5400, nanos: 0 });
    assert!((wide(w.component_energy_wh(1).unwrap()) - 5400.0).abs() < 1e-6);
    assert!((wide(w.component_energy_since_scenario_wh(1).unwrap()) - 1800.0).abs() < 1e-6);
}

#[test]
fn configuration_errors_are_dated_and_told() {
    let mut w = MicrogridSite::new();
    let before = Utc::now().timestamp_millis();
    w.broadcast_config_error("no such file".to_string());
    let after = Utc::now().timestamp_millis();
    match &w.take_events()[0] {
        SiteEvent::ConfigError { ts_ms, message } => {
            assert_eq!(message, "no such file");
            assert!(before <= *ts_ms && *ts_ms <= after);
        }
        _ => panic!("expected a configuration error"),
    }
    w.config_error_at("bad form".to_string(), Timestamp { secs: 12, nanos: 345_678_901 });
    match &w.take_events()[0] {
        SiteEvent::ConfigError { ts_ms, message } => {
            assert_eq!((*ts_ms, message.as_str()), (12_345, "bad form"));
        }
        _ => panic!("expected a configuration error"),
    }
}

#[test]
fn a_battery_without_a_finite_rating_is_written_without_it() {
    let cfg = BatteryConfig { rated_upper_w: f(f32::INFINITY), ..BatteryConfig::default() };
    let keys: Vec<&str> =
        Battery::new(7, ms(500), cfg).constructor_kwargs().iter().map(|a| a.key).collect();
    assert!(!keys.contains(&":rated-upper"));
    assert!(keys.contains(&":rated-lower"));
}

#[test]
fn no_step_opens_a_channel_that_mode_or_health_shuts() {
    let healths = [Health::Good, Health::Error, Health::Standby];
    let modes = [
        OperationalMode::Unspecified,
        OperationalMode::Inactive,
        OperationalMode::TelemetryOnly,
        OperationalMode::ControlOnly,
        OperationalMode::ControlAndTelemetry,
    ];
    for health in healths {
        for mode in modes {
            for next in healths {
                let mut w = MicrogridSite::new();
                w.register(meter(1));
                w.set_health(1, health);
                w.set_operational_mode(1, mode).unwrap();
                let _ = w.set_command_mode(1, CommandMode::Normal);
                let _ = w.set_telemetry_mode(1, TelemetryMode::Normal);
                w.set_health(1, next);
                w.register(meter(1));
                let state = w.runtime_of(1);
                if state.command == CommandMode::Normal {
                    assert!(mode.accepts_control() && state.health != Health::Error);
                }
                if state.telemetry == TelemetryMode::Normal {
                    assert!(mode.provides_telemetry());
                }
            }
        }
    }
}

#[test]
fn the_default_site_is_a_new_one() {
    let fresh = MicrogridSite::new();
    let site = MicrogridSite::default();
    assert!(site.components.is_empty() && site.connections.is_empty() && site.events.is_empty());
    assert_eq!(site.next_id.next, FIRST_AUTO_ID);
    assert_eq!(site.physics_tick_ms, 100);
    assert_eq!(site.grid_state, fresh.grid_state);
    assert_eq!((site.version, site.structural_version, site.run_generation), (0, 0, 0));
    assert_eq!((site.stream_cancel_epoch, site.sample_lag_ms), (0, 0));
    assert!(site.grid_frequency.is_none() && site.weather.is_none());
}
