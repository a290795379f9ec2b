//! Imports of site exports.

use macrocosim::double::Double;
use macrocosim::lisp_text::{esc, lisp_float};
use macrocosim::site_import::{
    parse, strip_prefixes, ApiComponent, ApiConnection, ApiId, CategoryInfo, ComponentsFile,
    ConfigBounds, ConnectionsFile, Figure, GridInfo, MetricConfigBounds, TypedInfo,
};

fn text(s: &str) -> ApiId {
    ApiId::Text(s.to_string())
}

fn component(id: ApiId, name: Option<&str>, category: &str) -> ApiComponent {
    ApiComponent {
        id,
        name: name.map(|s| s.to_string()),
        category: category.to_string(),
        category_specific_info: None,
        metric_config_bounds: Vec::new(),
    }
}

fn inverter(kind: &str) -> Option<CategoryInfo> {
    Some(CategoryInfo {
        inverter: Some(TypedInfo { kind: Some(kind.to_string()) }),
        grid_connection_point: None,
    })
}

fn figure(v: f64) -> Figure {
    Figure { value: Double::from_bits(v.to_bits()), shown: format!("{v}") }
}

fn bounds(metric: &str, lower: Option<f64>, upper: Option<f64>) -> MetricConfigBounds {
    MetricConfigBounds {
        metric: Some(metric.to_string()),
        config_bounds: Some(ConfigBounds {
            lower: lower.map(figure),
            upper: upper.map(figure),
        }),
    }
}

fn file(electrical_components: Vec<ApiComponent>) -> ComponentsFile {
    ComponentsFile { electrical_components }
}

fn edges(list: &[(&str, &str)]) -> ConnectionsFile {
    ConnectionsFile {
        electrical_component_connections: list
            .iter()
            .map(|(a, b)| ApiConnection {
                source_electrical_component_id: text(a),
                destination_electrical_component_id: text(b),
            })
            .collect(),
    }
}

/// A small made-up site.
fn generic_components() -> ComponentsFile {
    file(vec![
        ApiComponent {
            category_specific_info: Some(CategoryInfo {
                inverter: None,
                grid_connection_point: Some(GridInfo { rated_fuse_current: Some(100) }),
            }),
            ..component(
                text("1"),
                Some("grid"),
                "ELECTRICAL_COMPONENT_CATEGORY_GRID_CONNECTION_POINT",
            )
        },
        component(text("2"), Some("main meter"), "ELECTRICAL_COMPONENT_CATEGORY_METER"),
        ApiComponent {
            category_specific_info: inverter("INVERTER_TYPE_BATTERY"),
            metric_config_bounds: vec![bounds(
                "METRIC_AC_POWER_ACTIVE",
                Some(-30000.0),
                Some(30000.0),
            )],
            ..component(text("3"), Some("inverter A"), "ELECTRICAL_COMPONENT_CATEGORY_INVERTER")
        },
        ApiComponent {
            metric_config_bounds: vec![
                bounds("METRIC_BATTERY_CAPACITY", None, Some(40000.0)),
                bounds("METRIC_BATTERY_SOC_PCT", Some(5.0), Some(95.0)),
            ],
            ..component(text("4"), Some("battery A"), "ELECTRICAL_COMPONENT_CATEGORY_BATTERY")
        },
        ApiComponent {
            category_specific_info: inverter("INVERTER_TYPE_PV"),
            ..component(text("5"), None, "ELECTRICAL_COMPONENT_CATEGORY_INVERTER")
        },
    ])
}

fn generic_connections() -> ConnectionsFile {
    edges(&[("1", "2"), ("2", "3"), ("3", "4"), ("2", "5")])
}

#[test]
fn import_keeps_capacity_soc_and_rated_bounds() {
    let import = parse(generic_components(), Some(generic_connections())).unwrap();
    assert_eq!(import.components.len(), 5);
    assert_eq!(import.connections.len(), 4);
    assert_eq!(import.max_id(), 5);
    let forms = import.forms();
    assert!(forms.contains("(make-grid-connection-point :id 1 :name \"grid\" :rated-fuse-current 100)"));
    assert!(forms.contains(
        "(make-battery-inverter :id 3 :name \"inverter A\" :rated-lower -30000.0 :rated-upper 30000.0)"
    ));
    assert!(forms.contains(
        "(make-battery :id 4 :name \"battery A\" :capacity 40000.0 :soc-lower 5.0 :soc-upper 95.0)"
    ));
    assert!(forms.contains("(make-solar-inverter :id 5)"));
    assert!(forms.contains("(connect 3 4)"));
}

#[test]
fn import_rejects_unsupported_categories_and_untyped_inverters() {
    let turbine =
        file(vec![component(text("1"), None, "ELECTRICAL_COMPONENT_CATEGORY_WIND_TURBINE")]);
    let err = parse(turbine, None).unwrap_err();
    assert!(err.contains("component 1"));
    assert!(err.contains("cannot simulate"));
    assert_eq!(err, "component 1: cannot simulate category WIND_TURBINE");

    let untyped = file(vec![component(text("7"), None, "ELECTRICAL_COMPONENT_CATEGORY_INVERTER")]);
    let err = parse(untyped, None).unwrap_err();
    assert!(err.contains("component 7"));
    assert!(err.contains("UNSPECIFIED"));
    assert_eq!(
        err,
        "component 7: cannot simulate an inverter of type UNSPECIFIED (only battery and PV inverters exist here)"
    );
}

#[test]
fn import_accepts_old_prefixes_and_numeric_ids() {
    let components = file(vec![
        component(ApiId::Number(1), None, "COMPONENT_CATEGORY_GRID_CONNECTION_POINT"),
        component(ApiId::Number(2), None, "COMPONENT_CATEGORY_METER"),
    ]);
    let row = || ApiConnection {
        source_electrical_component_id: ApiId::Number(1),
        destination_electrical_component_id: ApiId::Number(2),
    };
    let connections = ConnectionsFile { electrical_component_connections: vec![row(), row()] };
    let import = parse(components, Some(connections)).unwrap();
    assert_eq!(import.components[0].make_fn, "make-grid-connection-point");
    // The repeated connection row is kept once.
    assert_eq!(import.connections, vec![(1, 2)]);
}

#[test]
fn import_rejects_duplicate_ids_and_dangling_edges() {
    let dup = file(vec![
        component(text("1"), None, "ELECTRICAL_COMPONENT_CATEGORY_METER"),
        component(text("1"), None, "ELECTRICAL_COMPONENT_CATEGORY_METER"),
    ]);
    assert!(parse(dup, None).unwrap_err().contains("appears twice"));

    let err = parse(generic_components(), Some(edges(&[("1", "99")]))).unwrap_err();
    assert!(err.contains("99"));
    assert_eq!(
        err,
        "connection 1 → 99 references a component the export does not carry"
    );
}

#[test]
fn import_escapes_names() {
    let components = file(vec![component(
        text("1"),
        Some("we \" like ) quotes"),
        "ELECTRICAL_COMPONENT_CATEGORY_METER",
    )]);
    let forms = parse(components, None).unwrap().forms();
    assert!(forms.contains(r#":name "we \" like ) quotes""#));
}

#[test]
fn an_empty_export_and_a_bad_id_are_refused() {
    assert_eq!(parse(file(vec![]), None).unwrap_err(), "the export has no components");
    for bad in ["", "x", "-1", "+", "18446744073709551616", "1 "] {
        assert_eq!(
            text(bad).parse().unwrap_err(),
            format!("bad component id: {bad}"),
            "{bad:?}"
        );
        assert!(bad.parse::<u64>().is_err());
    }
    for good in ["0", "007", "+5", "18446744073709551615"] {
        assert_eq!(text(good).parse().unwrap(), good.parse::<u64>().unwrap());
    }
    assert_eq!(ApiId::Number(9).parse(), Ok(9));
}

#[test]
fn a_lone_rated_edge_is_left_out() {
    let with = |lower: Option<f64>, upper: Option<f64>| {
        let components = file(vec![ApiComponent {
            category_specific_info: inverter("INVERTER_TYPE_BATTERY"),
            metric_config_bounds: vec![bounds("METRIC_AC_POWER_ACTIVE", lower, upper)],
            ..component(text("3"), None, "ELECTRICAL_COMPONENT_CATEGORY_INVERTER")
        }]);
        parse(components, None).unwrap().forms()
    };
    let bare = "(progn\n  (make-battery-inverter :id 3)\n)";
    assert_eq!(with(None, Some(30000.0)), bare);
    assert_eq!(with(Some(-30000.0), None), bare);
    assert_eq!(with(None, None), bare);
    assert_eq!(
        with(Some(-30000.0), Some(30000.0)),
        "(progn\n  (make-battery-inverter :id 3 :rated-lower -30000.0 :rated-upper 30000.0)\n)"
    );
}

#[test]
fn a_form_is_written_line_by_line() {
    let components = file(vec![
        component(ApiId::Number(12), Some(""), "CHP"),
        component(ApiId::Number(3), None, "COMPONENT_CATEGORY_METER"),
    ]);
    let rows = ConnectionsFile {
        electrical_component_connections: vec![ApiConnection {
            source_electrical_component_id: ApiId::Number(3),
            destination_electrical_component_id: ApiId::Number(12),
        }],
    };
    let import = parse(components, Some(rows)).unwrap();
    assert_eq!(import.max_id(), 12);
    assert_eq!(
        import.forms(),
        "(progn\n  (make-chp :id 12)\n  (make-meter :id 3)\n  (connect 3 12)\n)"
    );
}

#[test]
fn the_first_prefix_that_fits_is_stripped() {
    let prefixes = ["ELECTRICAL_COMPONENT_CATEGORY_", "COMPONENT_CATEGORY_"];
    assert_eq!(strip_prefixes("ELECTRICAL_COMPONENT_CATEGORY_METER", &prefixes), "METER");
    assert_eq!(strip_prefixes("COMPONENT_CATEGORY_METER", &prefixes), "METER");
    assert_eq!(strip_prefixes("METER", &prefixes), "METER");
    assert_eq!(strip_prefixes("COMPONENT_CATEGORY_", &prefixes), "");
}

#[test]
fn escapes_keep_a_text_inside_its_literal() {
    assert_eq!(esc("a\"b\\c\nd\u{7f}e\u{85}é"), "a\\\"b\\\\cdeé");
    for code in 0u32..0x300 {
        let c = char::from_u32(code).unwrap();
        let expected = if c.is_control() {
            String::new()
        } else if c == '"' || c == '\\' {
            format!("\\{c}")
        } else {
            c.to_string()
        };
        assert_eq!(esc(&c.to_string()), expected);
    }
}

#[test]
fn whole_numbers_are_written_with_a_point() {
    let shown = |v: f64| lisp_float(Double::from_bits(v.to_bits()), &format!("{v}"));
    for v in [
        0.0,
        -0.0,
        1.0,
        -1.0,
        95.0,
        -30000.0,
        123456789012345.0,
        999999999999999.0,
        -999999999999999.0,
        4503599627370496.0,
        1e15,
        1e300,
        0.5,
        -2.75,
        1e-310,
        f64::INFINITY,
        f64::NAN,
    ] {
        let expected = if v == v.trunc() && v.is_finite() {
            format!("{v}.0")
        } else {
            format!("{v}")
        };
        assert_eq!(shown(v), expected, "{v}");
    }
    assert_eq!(shown(1e15), "1000000000000000.0");
    assert_eq!(shown(-3e16), "-30000000000000000.0");
}
