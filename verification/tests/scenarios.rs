//! Scenarios: knobs, journals and reports.

use chrono::Utc;
use macrocosim::battery::{Battery, BatteryConfig};
use macrocosim::component::KnobKind;
use macrocosim::csv_listing::csv_names;
use macrocosim::double::Double;
use macrocosim::dynamic_scalar::DynamicScalar;
use macrocosim::events::SiteEvent;
use macrocosim::grid::Grid;
use macrocosim::meter::{pf_argument, Meter, ReactiveSource};
use macrocosim::microgrid_site::MicrogridSite;
use macrocosim::scenario::{BatteryTotals, ScenarioCheck, WindowTotals};
use macrocosim::scenarios::refresh_order;
use macrocosim::simulated::SimulatedComponent;
use macrocosim::single::Single;
use macrocosim::soc_stats::compute_soc_stats;
use macrocosim::time::{Span, Timestamp};

fn f(x: f32) -> Single {
    Single::from_bits(x.to_bits())
}

fn n(x: Single) -> f32 {
    f32::from_bits(x.to_bits())
}

fn d(x: f64) -> Double {
    Double::from_bits(x.to_bits())
}

fn wide(x: Double) -> f64 {
    f64::from_bits(x.to_bits())
}

fn now() -> Timestamp {
    let t = Utc::now();
    Timestamp { secs: t.timestamp(), nanos: t.timestamp_subsec_nanos() }
}

fn sec(s: u64) -> Span {
    Span { secs: s, nanos: 0 }
}

fn meter_with_power(id: u64, watts: f32) -> SimulatedComponent {
    SimulatedComponent::Meter(Meter::new(
        id,
        sec(1),
        Some(DynamicScalar::constant(f(watts))),
        None,
        f(0.0),
        false,
    ))
}

fn drive(w: &mut MicrogridSite, id: u64, watts: f32) {
    let c = w.components.iter_mut().find(|c| c.id() == id).unwrap();
    assert!(c.set_active_power_override(f(watts)));
}

fn power(w: &MicrogridSite, id: u64) -> f32 {
    n(w.get(id).unwrap().meter_power_reading().unwrap().value)
}

#[test]
fn snapshot_outside_a_running_scenario_is_a_noop() {
    let mut w = MicrogridSite::new();
    w.register(meter_with_power(1, 1000.0));
    let t = now();
    w.scenario_snapshot_knob(1, KnobKind::MeterPower);

    w.scenario_start("s".to_string(), t);
    drive(&mut w, 1, 5000.0);
    w.scenario_stop(t);

    assert_eq!(power(&w, 1), 5000.0, "nothing was snapshotted, so stop touches nothing");
}

#[test]
fn first_snapshot_wins_and_stop_restores_it() {
    let mut w = MicrogridSite::new();
    w.register(meter_with_power(2, 1200.0));
    let t = now();
    w.scenario_start("s2".to_string(), t);
    w.scenario_snapshot_knob(2, KnobKind::MeterPower); // captures 1200.0
    drive(&mut w, 2, 3000.0);
    w.scenario_snapshot_knob(2, KnobKind::MeterPower); // already captured
    drive(&mut w, 2, 7000.0);

    w.scenario_stop(t);
    assert_eq!(power(&w, 2), 1200.0, "restore must land on the first snapshot");
}

#[test]
fn second_scenario_stop_is_idempotent() {
    let mut w = MicrogridSite::new();
    w.register(meter_with_power(3, 1500.0));
    let t = now();
    w.scenario_start("s3".to_string(), t);
    w.scenario_snapshot_knob(3, KnobKind::MeterPower);
    drive(&mut w, 3, 4000.0);
    w.scenario_stop(t);
    assert_eq!(power(&w, 3), 1500.0);

    w.take_events();
    w.scenario_stop(t);
    assert!(w.take_events().is_empty(), "a second stop must not rebroadcast a restored knob");
}

#[test]
fn remove_component_prunes_the_knob_baseline() {
    let mut w = MicrogridSite::new();
    w.register(meter_with_power(4, 100.0));
    let t = now();
    w.scenario_start("s4".to_string(), t);
    w.scenario_snapshot_knob(4, KnobKind::MeterPower); // baseline: 100.0
    w.remove_component(4);
    w.register(meter_with_power(4, 555.0));
    w.scenario_stop(t);
    assert_eq!(power(&w, 4), 555.0, "a stale baseline must not restore onto the fresh one");
}

#[test]
fn reset_clears_the_knob_baseline() {
    let mut w = MicrogridSite::new();
    w.register(meter_with_power(5, 200.0));
    let t = now();
    w.scenario_start("s5".to_string(), t);
    w.scenario_snapshot_knob(5, KnobKind::MeterPower);
    drive(&mut w, 5, 999.0);
    w.reset();

    w.register(meter_with_power(5, 777.0));
    w.scenario_start("s6".to_string(), t);
    w.scenario_stop(t);
    assert_eq!(power(&w, 5), 777.0, "a baseline from before must not come back after reset()");
}

#[test]
fn stop_rebroadcasts_the_right_knob_tokens() {
    let mut w = MicrogridSite::new();
    w.register(SimulatedComponent::Meter(Meter::new(
        6,
        sec(1),
        Some(DynamicScalar::constant(f(8_000.0))),
        Some(ReactiveSource::Var(DynamicScalar::constant(f(500.0)))),
        f(0.0),
        false,
    )));
    let t = now();
    w.scenario_start("s7".to_string(), t);
    w.scenario_snapshot_knob(6, KnobKind::MeterPower);
    w.scenario_snapshot_knob(6, KnobKind::MeterReactive);
    drive(&mut w, 6, 1_000.0);
    let tan_phi = f(n(pf_argument(f(0.8))).acos().tan());
    assert!(w.components[0].set_power_factor(f(0.8), true, tan_phi));

    w.take_events();
    w.scenario_stop(t);

    let told: Vec<(&str, Option<f32>)> = w
        .take_events()
        .iter()
        .filter_map(|e| match e {
            SiteEvent::KnobChanged { id: 6, knob, value, .. } => Some((*knob, value.map(n))),
            _ => None,
        })
        .collect();
    assert_eq!(
        told,
        vec![
            ("meter-power", Some(8_000.0)),
            ("meter-reactive-power", Some(500.0)),
            ("meter-power-factor", None),
        ]
    );
}

fn socs(v: &[f32]) -> Vec<Single> {
    v.iter().map(|x| f(*x)).collect()
}

#[test]
fn soc_stats_compute_on_typical_set() {
    let s = compute_soc_stats(&socs(&[20.0, 40.0, 60.0, 80.0])).unwrap();
    assert!((wide(s.mean_pct) - 50.0).abs() < 1e-6);
    // The lower of the middle two.
    assert!((wide(s.median_pct) - 40.0).abs() < 1e-6);
    // The lowest of the tied buckets.
    assert_eq!(s.mode_pct, Some(20));
}

#[test]
fn soc_stats_mode_picks_repeated_bucket() {
    let s = compute_soc_stats(&socs(&[50.0, 50.4, 50.6, 25.0, 80.0])).unwrap();
    assert_eq!(s.mode_pct, Some(50));
}

#[test]
fn soc_stats_empty_returns_none() {
    assert!(compute_soc_stats(&Vec::new()).is_none());
}

#[test]
fn a_summary_follows_the_life_of_a_scenario() {
    let mut w = MicrogridSite::new();
    let t = Timestamp { secs: 1_000, nanos: 0 };
    let later = Timestamp { secs: 1_005, nanos: 500_000_000 };
    assert!(!w.scenario_is_running());
    assert_eq!(w.scenario_summary(t).name, None);
    w.scenario_start("peak".to_string(), t);
    assert!(w.scenario_is_running());
    let a = w.scenario_record("note".to_string(), "one".to_string(), t);
    let b = w.scenario_record("note".to_string(), "two".to_string(), later);
    assert_eq!(b, a + 1);
    let s = w.scenario_summary(later);
    assert_eq!(s.name.as_deref(), Some("peak"));
    assert_eq!((s.event_count, s.next_event_id, s.earliest_event_id), (2, b + 1, a));
    assert_eq!(wide(s.elapsed_s), 5.5);
    let events = w.scenario_events_since(b, 10);
    assert_eq!(events.len(), 1);
    assert_eq!(events[0].payload, "two");
    assert_eq!(w.scenario_events_since(a, 1).len(), 1);
    w.scenario_stop(later);
    assert!(!w.scenario_is_running());
    // The clock of a scenario that ended stands still.
    assert_eq!(wide(w.scenario_elapsed_s(Timestamp { secs: 9_000, nanos: 0 })), 5.5);
}

#[test]
fn a_report_adds_up_what_was_measured() {
    let mut w = MicrogridSite::new();
    for (id, soc) in [(1, 20.0), (2, 40.0), (3, 90.0)] {
        let cfg = BatteryConfig { initial_soc_pct: f(soc), ..BatteryConfig::default() };
        w.register(SimulatedComponent::Battery(Battery::new(id, sec(1), cfg)));
    }
    w.scenario_start("r".to_string(), now());
    w.scenario_record_check(ScenarioCheck { text: "holds".to_string(), passed: true });
    w.scenario_record_check(ScenarioCheck { text: "fails".to_string(), passed: false });
    let g = &mut w.scenario;
    g.per_battery.push((1, BatteryTotals { charge_wh: d(10.0), discharge_wh: d(1.5) }));
    g.per_battery.push((2, BatteryTotals { charge_wh: d(5.25), discharge_wh: d(0.0) }));
    g.per_pv.push((9, d(700.0)));
    g.window_avgs.push((900, WindowTotals { sum_w: d(3_000.0), count: 4 }));
    g.window_avgs.push((1_800, WindowTotals { sum_w: d(0.0), count: 0 }));
    g.window_avgs.push((i64::MAX, WindowTotals { sum_w: d(8.0), count: 2 }));
    g.peak_grid_active_w = d(12_000.0);
    g.peak_grid_pq = Some((d(-6_000.0), d(-8_000.0)));

    let before = now();
    let r = w.scenario_report(now());
    assert_eq!(wide(r.total_battery_charged_wh), 15.25);
    assert_eq!(wide(r.total_battery_discharged_wh), 1.5);
    assert_eq!(wide(r.total_pv_produced_wh), 700.0);
    assert_eq!((r.per_battery.len(), r.per_pv.len()), (2, 1));
    assert_eq!(wide(r.peak_grid_w), 12_000.0);
    assert_eq!(wide(r.peak_grid_var), 8_000.0);
    assert_eq!(r.site_pf_at_peak_var.map(wide), Some(0.6));
    let averages: Vec<f64> = r.grid_window_averages.iter().map(|a| wide(a.avg_w)).collect();
    assert_eq!(averages, vec![750.0, 0.0, 4.0]);
    assert_eq!(r.grid_window_averages[0].window_start, Timestamp { secs: 900, nanos: 0 });
    // A window outside the calendar is dated to the present.
    assert!(!r.grid_window_averages[2].window_start.before(before));
    assert_eq!((r.checks_passed, r.checks_failed, r.checks.len()), (1, 1, 2));
    let stats = r.soc_stats.unwrap();
    assert!((wide(stats.mean_pct) - 50.0).abs() < 1e-6);
    assert_eq!(wide(stats.median_pct), 40.0);
}

#[test]
fn a_report_without_a_peak_has_no_power_factor() {
    let mut w = MicrogridSite::new();
    let r = w.scenario_report(now());
    assert_eq!(r.site_pf_at_peak_var, None);
    assert_eq!(wide(r.peak_grid_var), 0.0);
    assert!(r.soc_stats.is_none());
    w.scenario.peak_grid_pq = Some((d(0.0), d(0.0)));
    assert_eq!(w.scenario_report(now()).site_pf_at_peak_var, None);
}

#[test]
fn one_refresh_serves_all_knobs_of_a_component() {
    let keys = vec![
        (3, KnobKind::MeterPower),
        (3, KnobKind::MeterReactive),
        (8, KnobKind::Sunlight),
        (3, KnobKind::Ev),
    ];
    assert_eq!(refresh_order(&keys), vec![3, 8]);
}

#[test]
fn a_recording_has_files_for_what_a_component_has() {
    let mut w = MicrogridSite::new();
    w.register(SimulatedComponent::Grid(Grid::new(1, 0, None, f(0.0))));
    w.register(SimulatedComponent::Battery(Battery::new(2, sec(1), BatteryConfig::default())));
    let plan = w.scenario_csv_plan(now());
    assert_eq!(plan.len(), 2);
    assert_eq!((plan[0].id, plan[0].envelope, plan[0].reactive), (1, false, false));
    assert_eq!((plan[1].id, plan[1].envelope), (2, true));
}

#[test]
fn recorded_files_are_listed_in_order() {
    let names = |v: &[&str]| v.iter().map(|s| s.to_string()).collect::<Vec<_>>();
    let listed = csv_names(&names(&["b.csv", "notes.txt", "a.csv", "a.csvx", "ab.csv", ".csv", "csv"]));
    assert_eq!(listed, names(&[".csv", "a.csv", "ab.csv", "b.csv"]));
    let mut by_std = names(&["ü.csv", "z.csv", "10.csv", "9.csv", "Z.csv"]);
    let ours = csv_names(&by_std);
    by_std.sort();
    assert_eq!(ours, by_std);
}
