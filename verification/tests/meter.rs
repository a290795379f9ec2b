//! Meters: overrides and what they measure of their children.

use macrocosim::component::{KnobKind, ReactiveReading};
use macrocosim::double::Double;
use macrocosim::dynamic_scalar::{DynamicScalar, LispValue, Outcome};
use macrocosim::kwargs::{KwValue, Kwarg};
use macrocosim::meter::{pf_argument, Meter, ReactiveSource};
use macrocosim::microgrid_site::MicrogridSite;
use macrocosim::simulated::SimulatedComponent;
use macrocosim::single::Single;
use macrocosim::time::Span;

fn f(x: f32) -> Single {
    Single::from_bits(x.to_bits())
}

fn n(x: Single) -> f32 {
    f32::from_bits(x.to_bits())
}

fn sec(s: u64) -> Span {
    Span { secs: s, nanos: 0 }
}

fn constant(v: f32) -> DynamicScalar {
    DynamicScalar::constant(f(v))
}

fn tan_phi(pf: f32) -> Single {
    f(n(pf_argument(f(pf))).acos().tan())
}

fn pf_source(pf: f32, leading: bool) -> ReactiveSource {
    ReactiveSource::PowerFactor { pf: f(pf), leading, tan_phi: tan_phi(pf) }
}

fn meter(id: u64, p: Option<DynamicScalar>, q: Option<ReactiveSource>, hidden: bool) -> Meter {
    Meter::new(id, sec(1), p, q, f(0.0), hidden)
}

fn plain(id: u64) -> SimulatedComponent {
    SimulatedComponent::Meter(meter(id, None, None, false))
}

/// A component with fixed flows, to be measured.
fn fixed_flow(id: u64, p: f32, q: f32) -> SimulatedComponent {
    SimulatedComponent::Meter(meter(
        id,
        Some(constant(p)),
        Some(ReactiveSource::Var(constant(q))),
        false,
    ))
}

fn p(w: &MicrogridSite, id: u64) -> f32 {
    n(w.get(id).unwrap().aggregate_power_w(w))
}

fn q(w: &MicrogridSite, id: u64) -> f32 {
    n(w.get(id).unwrap().aggregate_reactive_var(w))
}

fn at(w: &mut MicrogridSite, id: u64) -> &mut SimulatedComponent {
    w.components.iter_mut().find(|c| c.id() == id).unwrap()
}

#[test]
fn duplicate_edge_does_not_double_count() {
    let mut w = MicrogridSite::new();
    w.register(fixed_flow(100, 10_000.0, 0.0));
    w.register(plain(2));
    assert!(w.connect(2, 100));
    assert!(w.connect(2, 100));
    assert!((p(&w, 2) - 10_000.0).abs() < 1e-3);
}

#[test]
fn parallel_paths_share_one_inverter() {
    let mut w = MicrogridSite::new();
    w.register(fixed_flow(100, 10_000.0, 0.0));
    w.register(plain(10));
    w.register(plain(11));
    w.connect(10, 100);
    w.connect(11, 100);
    w.register(plain(2));
    w.connect(2, 10);
    w.connect(2, 11);

    assert!((p(&w, 10) - 5_000.0).abs() < 1e-3);
    assert!((p(&w, 11) - 5_000.0).abs() < 1e-3);
    assert!((p(&w, 2) - 10_000.0).abs() < 1e-3);
}

#[test]
fn disconnect_after_make_drops_child() {
    let mut w = MicrogridSite::new();
    w.register(fixed_flow(100, 2_000.0, 0.0));
    w.register(plain(2));
    w.connect(2, 100);
    assert!((p(&w, 2) - 2_000.0).abs() < 1e-3);
    assert!(w.disconnect(2, 100));
    assert_eq!(p(&w, 2), 0.0);
}

#[test]
fn connect_after_make_aggregates() {
    let mut w = MicrogridSite::new();
    w.register(fixed_flow(100, 2_000.0, 0.0));
    w.register(plain(2));
    assert_eq!(p(&w, 2), 0.0);
    w.connect(2, 100);
    assert!((p(&w, 2) - 2_000.0).abs() < 1e-3);
}

#[test]
fn constant_power_source_reads_through() {
    let mut w = MicrogridSite::new();
    w.register(SimulatedComponent::Meter(meter(2, Some(constant(2750.0)), None, false)));
    assert!((p(&w, 2) - 2750.0).abs() < 1e-3);
    at(&mut w, 2).set_active_power_override(f(4100.0));
    assert!((p(&w, 2) - 4100.0).abs() < 1e-3);
}

#[test]
fn lambda_power_source_refreshes_each_tick() {
    let lambda = LispValue::Other { handle: 0, text: "(lambda () 1234.5)".to_string() };
    let scalar = DynamicScalar::from_lisp(lambda, f(0.0)).expect("a lambda is dynamic");
    assert!(scalar.is_dynamic());

    let mut w = MicrogridSite::new();
    w.register(SimulatedComponent::Meter(meter(2, Some(scalar), None, false)));
    assert_eq!(p(&w, 2), 0.0);
    at(&mut w, 2).refresh_inputs(
        Outcome::Number(Double::from_bits(1234.5f64.to_bits())),
        Outcome::Failed,
    );
    assert!((p(&w, 2) - 1234.5).abs() < 1e-3);
}

#[test]
fn hidden_child_aggregates_into_visible_parent() {
    let mut w = MicrogridSite::new();
    w.register(SimulatedComponent::Meter(meter(9000, Some(constant(1500.0)), None, true)));
    w.register(plain(2));
    w.connect(2, 9000);
    assert!((p(&w, 2) - 1500.0).abs() < 1e-3);
    assert!(w.connections().is_empty());
    assert_eq!(w.hidden_connections(), vec![(2, 9000)]);
}

fn kw(m: &Meter) -> String {
    let args: Vec<Kwarg> = m.constructor_kwargs();
    args.iter()
        .map(|a| {
            let shown = match a.value {
                KwValue::Float(v) => format!("{}", n(v)),
                _ => String::new(),
            };
            format!("{} {}", a.key, a.value.text(&shown))
        })
        .collect::<Vec<_>>()
        .join(" ")
}

#[test]
fn meter_records_constructed_power_constant_only() {
    let value = LispValue::Number(Double::from_bits(1875.0f64.to_bits()));
    let mut m = meter(1, DynamicScalar::from_lisp(value, f(0.0)), None, false);
    assert!(kw(&m).contains(":power 1875.0"));
    m.set_fixed_power(f(9999.0));
    assert!(kw(&m).contains(":power 1875.0"), "pokes are not construction");
    let h = meter(2, None, None, true);
    assert!(!kw(&h).contains(":power"));
    assert!(kw(&h).contains(":hidden t"));
}

#[test]
fn reactive_var_source_and_children_sum() {
    let mut w = MicrogridSite::new();
    w.register(SimulatedComponent::Meter(meter(
        1,
        Some(constant(5_000.0)),
        Some(ReactiveSource::Var(constant(750.0))),
        false,
    )));
    assert!((q(&w, 1) - 750.0).abs() < 1e-3);

    w.register(fixed_flow(100, 0.0, 1_200.0));
    w.register(SimulatedComponent::Meter(meter(2, Some(constant(5_000.0)), None, false)));
    w.connect(2, 100);
    assert!((q(&w, 2) - 1_200.0).abs() < 1e-3);
}

#[test]
fn power_factor_source_tracks_live_p() {
    let mut w = MicrogridSite::new();
    w.register(SimulatedComponent::Meter(meter(
        1,
        Some(constant(8_000.0)),
        Some(pf_source(0.8, false)),
        false,
    )));
    assert!((q(&w, 1) - 6_000.0).abs() < 1.0);

    assert!(at(&mut w, 1).set_power_factor(f(0.8), true, tan_phi(0.8)));
    assert!((q(&w, 1) - -6_000.0).abs() < 1.0);

    assert!(at(&mut w, 1).set_active_power_override(f(4_000.0)));
    assert!((q(&w, 1) - -3_000.0).abs() < 1.0);

    assert!(at(&mut w, 1).set_power_factor(f(0.8), false, tan_phi(0.8)));
    assert!(at(&mut w, 1).set_active_power_override(f(-8_000.0)));
    assert!((q(&w, 1) - -6_000.0).abs() < 1.0);
    assert!(at(&mut w, 1).set_power_factor(f(0.8), true, tan_phi(0.8)));
    assert!((q(&w, 1) - 6_000.0).abs() < 1.0);
}

#[test]
fn constructed_reactive_freezes_for_rendering() {
    let mut m = meter(1, None, Some(ReactiveSource::Var(constant(500.0))), false);
    assert!(kw(&m).contains(":reactive-power 500.0"));
    m.set_fixed_reactive_power(f(999.0));
    assert!(kw(&m).contains(":reactive-power 500.0"), "pokes are not construction");

    let mut h = meter(2, None, None, false);
    assert!(!h.has_unrenderable_source());
    h.set_power_factor_source(f(0.8), false, tan_phi(0.8));
    assert!(h.has_unrenderable_source());
}

#[test]
fn clear_active_power_source_restores_children_sum() {
    let mut w = MicrogridSite::new();
    w.register(fixed_flow(100, 3_000.0, 0.0));
    w.register(SimulatedComponent::Meter(meter(2, Some(constant(9_000.0)), None, false)));
    w.connect(2, 100);
    assert!((p(&w, 2) - 9_000.0).abs() < 1e-3);
    assert!(at(&mut w, 2).clear_active_power_source());
    assert!((p(&w, 2) - 3_000.0).abs() < 1e-3);
    assert!(w.get(2).unwrap().meter_power_reading().is_none());
}

#[test]
fn clear_reactive_power_source_restores_children_sum_for_var() {
    let mut w = MicrogridSite::new();
    w.register(fixed_flow(100, 0.0, 1_100.0));
    w.register(SimulatedComponent::Meter(meter(
        2,
        None,
        Some(ReactiveSource::Var(constant(750.0))),
        false,
    )));
    w.connect(2, 100);
    assert!((q(&w, 2) - 750.0).abs() < 1e-3);
    assert!(at(&mut w, 2).clear_reactive_power_source());
    assert!((q(&w, 2) - 1_100.0).abs() < 1e-3);
    assert!(w.get(2).unwrap().meter_reactive_reading().is_none());
}

#[test]
fn clear_reactive_power_source_restores_children_sum_for_power_factor() {
    let mut w = MicrogridSite::new();
    w.register(fixed_flow(100, 0.0, 2_200.0));
    w.register(SimulatedComponent::Meter(meter(
        2,
        Some(constant(8_000.0)),
        Some(pf_source(0.8, false)),
        false,
    )));
    w.connect(2, 100);
    assert!((q(&w, 2) - 6_000.0).abs() < 1.0);
    assert!(at(&mut w, 2).clear_reactive_power_source());
    assert!((q(&w, 2) - 2_200.0).abs() < 1e-3);
    assert!(w.get(2).unwrap().meter_reactive_reading().is_none());
}

#[test]
fn clear_active_power_source_drops_constructed_kwarg() {
    let mut m = meter(1, Some(constant(1875.0)), None, false);
    assert!(kw(&m).contains(":power 1875.0"));
    assert!(m.clear_active_power_source());
    assert!(!kw(&m).contains(":power"), "{}", kw(&m));
    assert!(!m.has_unrenderable_source());
}

#[test]
fn clear_reactive_power_source_drops_constructed_kwarg() {
    let mut m = meter(1, None, Some(ReactiveSource::Var(constant(500.0))), false);
    assert!(kw(&m).contains(":reactive-power 500.0"));
    assert!(m.clear_reactive_power_source());
    assert!(!kw(&m).contains(":reactive-power"), "{}", kw(&m));
    assert!(!m.has_unrenderable_source());
}

#[test]
fn clear_on_never_overridden_meter_is_a_noop_true() {
    let mut w = MicrogridSite::new();
    w.register(fixed_flow(100, 500.0, 50.0));
    w.register(plain(2));
    w.connect(2, 100);
    assert!(at(&mut w, 2).clear_active_power_source());
    assert!(at(&mut w, 2).clear_reactive_power_source());
    assert!((p(&w, 2) - 500.0).abs() < 1e-3);
    assert!((q(&w, 2) - 50.0).abs() < 1e-3);
}

#[test]
fn snapshot_restore_round_trip_meter_active_constructed_then_driven() {
    let mut m = meter(1, Some(constant(1875.0)), None, false);
    let snap = m.snapshot_knob(KnobKind::MeterPower).unwrap();

    m.set_active_power_source(DynamicScalar::from_funcall(
        0,
        "(lambda () 42.0)".to_string(),
        f(0.0),
    ));
    assert!(m.meter_power_reading().unwrap().expr.is_some());

    assert!(m.restore_knob(snap));
    assert_eq!(n(m.meter_power_reading().unwrap().value), 1875.0);
    assert!(m.meter_power_reading().unwrap().expr.is_none());
    assert!(!m.has_unrenderable_source());
    assert!(kw(&m).contains(":power 1875.0"), "{}", kw(&m));
}

#[test]
fn snapshot_restore_round_trip_meter_reactive_empty_baseline() {
    let mut m = meter(1, Some(constant(1875.0)), None, false);
    let snap = m.snapshot_knob(KnobKind::MeterReactive).unwrap();
    assert!(m.meter_reactive_reading().is_none());

    m.set_fixed_reactive_power(f(500.0));
    assert!(m.meter_reactive_reading().is_some());

    assert!(m.restore_knob(snap));
    assert!(m.meter_reactive_reading().is_none(), "back to measuring");
    assert!(kw(&m).contains(":power 1875.0"), "the active axis is not disturbed");
}

#[test]
fn snapshot_restore_round_trip_meter_reactive_pf_to_var() {
    let mut m = SimulatedComponent::Meter(meter(
        1,
        None,
        Some(ReactiveSource::Var(constant(500.0))),
        false,
    ));
    let snap = m.snapshot_knob(KnobKind::MeterReactive).unwrap();

    assert!(m.set_power_factor(f(0.8), true, tan_phi(0.8)));
    match m.meter_reactive_reading().unwrap() {
        ReactiveReading::PowerFactor { .. } => {}
        ReactiveReading::Var(_) => panic!("expected PowerFactor after the scenario override"),
    }

    assert!(m.restore_knob(snap));
    match m.meter_reactive_reading().unwrap() {
        ReactiveReading::Var(r) => assert_eq!(n(r.value), 500.0),
        ReactiveReading::PowerFactor { .. } => panic!("expected Var after restore"),
    }
}
