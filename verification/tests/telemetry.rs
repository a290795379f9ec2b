//! Snapshots, their metrics and their histories.

use macrocosim::bounds::{Bounds, VecBounds};
use macrocosim::component::{Category, OperationalMode, Telemetry};
use macrocosim::grid::Grid;
use macrocosim::history::{ComponentHistory, History, Metric};
use macrocosim::kwargs::{KwValue, Kwarg};
use macrocosim::marker::Marker;
use macrocosim::simulated::{ComponentHandle, SimulatedComponent};
use macrocosim::single::Single;
use macrocosim::time::Timestamp;

fn f(x: f32) -> Single {
    Single::from_bits(x.to_bits())
}

fn n(x: Single) -> f32 {
    f32::from_bits(x.to_bits())
}

fn t(secs: i64) -> Timestamp {
    Timestamp { secs, nanos: 0 }
}

fn b(lower: f32, upper: f32) -> Bounds {
    Bounds { lower: Some(f(lower)), upper: Some(f(upper)) }
}

fn blank() -> Telemetry {
    Telemetry::blank(0, None)
}

fn render(kw: &[Kwarg]) -> String {
    kw.iter()
        .map(|a| {
            let shown = match a.value {
                KwValue::Float(v) => format!("{}", n(v)),
                _ => String::new(),
            };
            format!("{} {}", a.key, a.value.text(&shown))
        })
        .collect::<Vec<_>>()
        .join(" ")
}

#[test]
fn metric_value_bounds_use_envelope_extremes() {
    let snap = Telemetry {
        active_power_w: Some(f(2500.0)),
        active_power_bounds: Some(VecBounds(vec![b(-10000.0, -2000.0), b(2000.0, 10000.0)])),
        ..blank()
    };
    assert_eq!(snap.metric_value(Metric::ActivePowerW).map(n), Some(2500.0));
    assert_eq!(snap.metric_value(Metric::ActivePowerLowerBoundW).map(n), Some(-10000.0));
    assert_eq!(snap.metric_value(Metric::ActivePowerUpperBoundW).map(n), Some(10000.0));
    // Unpublished metrics read None.
    assert_eq!(snap.metric_value(Metric::SocPct), None);
    assert_eq!(snap.metric_value(Metric::ReactivePowerLowerBoundVar), None);
}

#[test]
fn metric_value_reactive_bounds_report_envelope_extremes() {
    let snap = Telemetry {
        reactive_power_var: Some(f(500.0)),
        reactive_power_bounds: Some(VecBounds(vec![b(-2000.0, -500.0), b(500.0, 2000.0)])),
        ..blank()
    };
    assert_eq!(snap.metric_value(Metric::ReactivePowerLowerBoundVar).map(n), Some(-2000.0));
    assert_eq!(snap.metric_value(Metric::ReactivePowerUpperBoundVar).map(n), Some(2000.0));
}

#[test]
fn ring_evicts_oldest_when_full() {
    let mut h = History::new(3);
    h.push(t(1), f(10.0));
    h.push(t(2), f(20.0));
    h.push(t(3), f(30.0));
    h.push(t(4), f(40.0)); // evicts t=1

    let values: Vec<f32> = h.iter().iter().map(|s| n(s.value)).collect();
    assert_eq!(values, vec![20.0, 30.0, 40.0]);
    assert_eq!(h.len(), 3);
}

#[test]
fn iter_window_skips_older_samples() {
    let mut h = History::new(5);
    for i in 1..=5 {
        h.push(t(i), f(i as f32 * 10.0));
    }
    let in_window: Vec<f32> = h.iter_window(t(3)).iter().map(|s| n(s.value)).collect();
    assert_eq!(in_window, vec![30.0, 40.0, 50.0]);
}

#[test]
fn component_history_records_only_published_metrics() {
    let mut ch = ComponentHistory::new(10);
    let snap = Telemetry {
        active_power_w: Some(f(1500.0)),
        reactive_power_var: Some(f(200.0)),
        frequency_hz: Some(f(50.01)),
        ..blank()
    };
    ch.push_snapshot(t(1), &snap);
    let metrics = ch.metrics();
    assert!(metrics.contains(&Metric::ActivePowerW));
    assert!(metrics.contains(&Metric::ReactivePowerVar));
    assert!(metrics.contains(&Metric::FrequencyHz));
    assert!(!metrics.contains(&Metric::SocPct));
    assert_eq!(ch.get(Metric::ActivePowerW).unwrap().len(), 1);
}

fn first(ch: &ComponentHistory, m: Metric) -> f32 {
    n(ch.get(m).unwrap().iter()[0].value)
}

#[test]
fn component_history_extracts_active_bounds_envelope() {
    let mut ch = ComponentHistory::new(10);
    let snap = Telemetry {
        active_power_w: Some(f(0.0)),
        active_power_bounds: Some(VecBounds::single(f(-5000.0), f(5000.0))),
        ..blank()
    };
    ch.push_snapshot(t(1), &snap);
    assert_eq!(first(&ch, Metric::ActivePowerLowerBoundW), -5000.0);
    assert_eq!(first(&ch, Metric::ActivePowerUpperBoundW), 5000.0);
}

#[test]
fn component_history_reactive_bounds_collapse_to_first_band() {
    let mut ch = ComponentHistory::new(10);
    let snap = Telemetry {
        reactive_power_var: Some(f(0.0)),
        reactive_power_bounds: Some(VecBounds(vec![b(-2000.0, -500.0), b(500.0, 2000.0)])),
        ..blank()
    };
    ch.push_snapshot(t(1), &snap);
    assert_eq!(first(&ch, Metric::ReactivePowerLowerBoundVar), -2000.0);
    assert_eq!(first(&ch, Metric::ReactivePowerUpperBoundVar), -500.0);
}

#[test]
fn component_history_zero_headroom_band_still_emits_scalars() {
    let mut ch = ComponentHistory::new(10);
    let snap = Telemetry {
        reactive_power_var: Some(f(0.0)),
        reactive_power_bounds: Some(VecBounds::single(f(0.0), f(0.0))),
        ..blank()
    };
    ch.push_snapshot(t(1), &snap);
    assert_eq!(first(&ch, Metric::ReactivePowerLowerBoundVar), 0.0);
    assert_eq!(first(&ch, Metric::ReactivePowerUpperBoundVar), 0.0);
}

#[test]
fn constructor_kwargs_empty_for_defaults() {
    let g = Grid::new(1, 0, None, f(0.0));
    assert!(g.constructor_kwargs().is_empty());
    assert_eq!(SimulatedComponent::Grid(g).make_fn(), "%make-grid-connection-point");
}

#[test]
fn constructor_kwargs_round_trip_grid() {
    let g = Grid::new(2, 200, Some((f(-50_000.0), f(50_000.0))), f(2.5));
    let s = render(&g.constructor_kwargs());
    assert!(s.contains(":rated-fuse-current 200"));
    assert!(s.contains(":rated-lower -50000.0"));
    assert!(s.contains(":rated-upper 50000.0"));
    assert!(s.contains(":stream-jitter-pct 2.5"));
}

#[test]
fn metric_names_read_back() {
    for m in [
        Metric::ActivePowerW,
        Metric::ReactivePowerVar,
        Metric::FrequencyHz,
        Metric::SocPct,
        Metric::DcPowerW,
        Metric::EnergyWh,
        Metric::ActivePowerLowerBoundW,
        Metric::ActivePowerUpperBoundW,
        Metric::ReactivePowerLowerBoundVar,
        Metric::ReactivePowerUpperBoundVar,
    ] {
        assert_eq!(Metric::parse(m.as_str()), Some(m));
    }
    assert_eq!(Metric::parse("nonsense"), None);
    assert_eq!(Metric::ActivePowerW.unit(), "W");
}

#[test]
fn operational_modes_read_back() {
    for m in [
        OperationalMode::Unspecified,
        OperationalMode::Inactive,
        OperationalMode::TelemetryOnly,
        OperationalMode::ControlOnly,
        OperationalMode::ControlAndTelemetry,
    ] {
        assert_eq!(OperationalMode::parse(m.as_str()), Some(m));
    }
    assert!(OperationalMode::TelemetryOnly.provides_telemetry());
    assert!(!OperationalMode::TelemetryOnly.accepts_control());
    assert!(OperationalMode::ControlOnly.accepts_control());
    assert_eq!(OperationalMode::parse("no-such-mode"), None);
}

#[test]
fn handles_name_their_component() {
    let c = SimulatedComponent::Marker(Marker::new(7, Category::Chp, f(0.0)));
    let h = ComponentHandle::new(&c);
    assert_eq!(h.id(), 7);
    assert!(!h.is_hidden());
    assert_eq!(c.category().as_str(), Category::Chp.as_str());
    assert!(h.text().contains('7'));
}

#[test]
fn arguments_leave_out_what_is_not_finite() {
    let g = Grid::new(2, 0, Some((f(f32::NEG_INFINITY), f(50_000.0))), f(f32::NAN));
    assert_eq!(render(&g.constructor_kwargs()), ":rated-upper 50000.0");
}

#[test]
fn a_snapshot_opens_rings_for_what_it_publishes_alone() {
    let mut ch = ComponentHistory::new(10);
    assert!(ch.metrics().is_empty());
    let snap = Telemetry { active_power_w: Some(f(5.0)), ..blank() };
    ch.push_snapshot(t(1), &snap);
    assert_eq!(ch.metrics(), vec![Metric::ActivePowerW]);
    assert!(ch.get(Metric::SocPct).is_none());
    assert!(ch.get(Metric::ReactivePowerVar).is_none());
    // A ring stays open when a later snapshot leaves its metric out.
    ch.push_snapshot(t(2), &blank());
    assert_eq!(ch.metrics(), vec![Metric::ActivePowerW]);
    assert_eq!(ch.get(Metric::ActivePowerW).unwrap().iter().len(), 1);
}

#[test]
fn recording_opens_one_ring_of_the_full_capacity() {
    let mut ch = ComponentHistory::new(2);
    ch.record(t(1), Metric::SocPct, f(10.0));
    assert_eq!(ch.metrics(), vec![Metric::SocPct]);
    assert_eq!(ch.capacity, 2);
    assert_eq!(ch.get(Metric::SocPct).unwrap().capacity, 2);
    ch.record(t(2), Metric::SocPct, f(20.0));
    ch.record(t(3), Metric::SocPct, f(30.0));
    let values: Vec<f32> =
        ch.get(Metric::SocPct).unwrap().iter().iter().map(|s| n(s.value)).collect();
    assert_eq!(values, vec![20.0, 30.0]);
}
