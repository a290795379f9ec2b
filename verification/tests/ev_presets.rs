//! The cars and what they draw.

use chrono::Utc;
use macrocosim::ev_presets::{
    offered_current_a, preset, ConnectedEv, EvError, EvField, EvOverrides,
};
use macrocosim::message::Piece;
use macrocosim::single::Single;
use macrocosim::time::{Span, Timestamp};

fn f(x: f32) -> Single {
    Single::from_bits(x.to_bits())
}

fn n(x: Single) -> f32 {
    f32::from_bits(x.to_bits())
}

fn now() -> Timestamp {
    let t = Utc::now();
    Timestamp { secs: t.timestamp(), nanos: t.timestamp_subsec_nanos() }
}

fn none() -> EvOverrides {
    EvOverrides {
        soc_pct: None,
        target_soc_pct: None,
        phases: None,
        max_current_a: None,
        capacity_wh: None,
        taper_start_pct: None,
        taper_floor: None,
    }
}

fn test_car(name: &str, soc: Option<f32>) -> ConnectedEv {
    let p = preset(name).unwrap_or_else(|| panic!("no preset named {name}"));
    ConnectedEv::new(&p, &EvOverrides { soc_pct: soc.map(f), ..none() }, now()).expect("test car")
}

#[test]
fn catalog_has_the_four_presets() {
    for (name, phases, amps) in
        [("phev", 1, 16.0), ("city", 1, 32.0), ("sedan", 3, 16.0), ("van", 3, 32.0)]
    {
        let p = preset(name).unwrap_or_else(|| panic!("{name} missing"));
        assert_eq!((p.phases, n(p.max_current_a)), (phases, amps), "{name}");
    }
    assert!(preset("unicorn").is_none());
}

#[test]
fn overrides_apply_and_are_validated() {
    let p = preset("sedan").unwrap();
    let ev = ConnectedEv::new(
        &p,
        &EvOverrides { soc_pct: Some(f(30.0)), phases: Some(2), ..none() },
        now(),
    )
    .unwrap();
    assert_eq!((n(ev.soc_pct), ev.phases, ev.preset), (30.0, 2, "sedan"));
    for bad in [
        EvOverrides { phases: Some(0), ..none() },
        EvOverrides { phases: Some(4), ..none() },
        EvOverrides { soc_pct: Some(f(101.0)), ..none() },
        EvOverrides { target_soc_pct: Some(f(-1.0)), ..none() },
        EvOverrides { max_current_a: Some(f(0.0)), ..none() },
        EvOverrides { capacity_wh: Some(f(f32::NAN)), ..none() },
    ] {
        assert!(ConnectedEv::new(&p, &bad, now()).is_err());
    }
}

#[test]
fn each_refusal_names_its_field() {
    let p = preset("sedan").unwrap();
    let refused = |o: EvOverrides| ConnectedEv::new(&p, &o, now()).err();
    assert_eq!(refused(EvOverrides { phases: Some(4), ..none() }), Some(EvError::Phases(4)));
    assert_eq!(
        refused(EvOverrides { taper_floor: Some(f(1.5)), ..none() }),
        Some(EvError::TaperFloor(f(1.5)))
    );
    assert_eq!(
        refused(EvOverrides { capacity_wh: Some(f(0.0)), ..none() }),
        Some(EvError::NotPositive(EvField::Capacity, f(0.0)))
    );
    assert_eq!(
        refused(EvOverrides { taper_start_pct: Some(f(120.0)), ..none() }),
        Some(EvError::NotPercent(EvField::TaperStart, f(120.0)))
    );
    let pieces = EvError::NotPositive(EvField::MaxCurrent, f(0.0)).message();
    assert!(matches!(&pieces[0], Piece::Words(w) if w == "max-current-a"));
    assert!(matches!(&pieces[1], Piece::Words(w) if w == " must be a positive number, got "));
    assert!(matches!(&pieces[2], Piece::Number(v) if n(*v) == 0.0));
    let pieces = EvError::Phases(17).message();
    assert!(matches!(&pieces[1], Piece::Words(w) if w == "17"));
}

#[test]
fn offered_current_floors_at_six_amps() {
    assert!((n(offered_current_a(f(22_080.0), 3).unwrap()) - 32.0).abs() < 0.01);
    assert!((n(offered_current_a(f(7_360.0), 1).unwrap()) - 32.0).abs() < 0.01);
    assert!((n(offered_current_a(f(4_140.0), 3).unwrap()) - 6.0).abs() < 0.01);
    assert_eq!(offered_current_a(f(4_100.0), 3), None);
    assert_eq!(offered_current_a(f(0.0), 3), None);
}

#[test]
fn draw_is_the_minimum_of_offer_cap_and_taper_on_the_cars_phases() {
    let sedan = test_car("sedan", None); // 3 ph, 16 A
    let draw = |ev: &ConnectedEv, a: f32, phases: u8| n(ev.draw_w(f(a), phases));
    assert!((draw(&sedan, 32.0, 3) - 3.0 * 230.0 * 16.0).abs() < 0.5, "capped by the car");
    assert!((draw(&sedan, 10.0, 3) - 3.0 * 230.0 * 10.0).abs() < 0.5, "capped by the offer");
    let city = test_car("city", None);
    assert!((draw(&city, 32.0, 3) - 230.0 * 32.0).abs() < 0.5, "one phase only");
    let two = ConnectedEv::new(
        &preset("sedan").unwrap(),
        &EvOverrides { phases: Some(2), ..none() },
        now(),
    )
    .unwrap();
    assert!((draw(&two, 32.0, 3) - 2.0 * 230.0 * 16.0).abs() < 0.5, "two phases");
    assert!(
        (draw(&sedan, 32.0, 1) - 230.0 * 16.0).abs() < 0.5,
        "a 3-phase car on a 1-phase charger"
    );
}

#[test]
fn taper_falls_linearly_to_the_floor() {
    let mut ev = test_car("sedan", None); // taper 80 %, floor 0.20 at 100 %
    ev.soc_pct = f(50.0);
    assert_eq!(n(ev.accepted_current_a()), 16.0);
    ev.soc_pct = f(80.0);
    assert_eq!(n(ev.accepted_current_a()), 16.0);
    ev.soc_pct = f(90.0);
    assert!((n(ev.accepted_current_a()) - 16.0 * 0.6).abs() < 0.01, "halfway down");
    ev.soc_pct = f(100.0);
    assert!((n(ev.accepted_current_a()) - 16.0 * 0.2).abs() < 0.01, "the floor");
}

#[test]
fn done_at_target_and_integration_moves_soc_and_energy() {
    let mut ev = ConnectedEv::new(
        &preset("sedan").unwrap(),
        &EvOverrides { soc_pct: Some(f(50.0)), target_soc_pct: Some(f(50.5)), ..none() },
        now(),
    )
    .unwrap();
    assert!(!ev.done());
    // 11 040 W for 60 s = 184 Wh = 0.24 % of 77 kWh.
    ev.integrate(f(11_040.0), Span { secs: 60, nanos: 0 });
    assert!((n(ev.energy_wh) - 184.0).abs() < 0.1);
    let soc = n(ev.soc_pct);
    assert!(soc > 50.2 && soc < 50.3, "got {soc}");
    ev.integrate(f(11_040.0), Span { secs: 120, nanos: 0 });
    assert!(ev.done(), "past target at {}", n(ev.soc_pct));
    assert_eq!(n(ev.draw_w(f(32.0), 3)), 0.0, "a done car takes nothing");
}

#[test]
fn a_car_accepts_no_more_than_its_maximum_at_any_charge() {
    for name in ["phev", "city", "sedan", "van"] {
        for soc in 0..=100 {
            let car = test_car(name, Some(soc as f32));
            let a = n(car.accepted_current_a());
            assert!(0.0 <= a && a <= n(car.max_current_a), "{name} at {soc}: {a}");
        }
    }
}
