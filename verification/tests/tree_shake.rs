use queso::tree_shake::{resolve, validate, AppGraph};

fn apps(entries: &[(&str, &[&str])]) -> AppGraph {
    let mut graph = AppGraph::new();
    for (name, deps) in entries {
        graph.insert(name.to_string(), deps.iter().map(|d| d.to_string()).collect());
    }
    graph
}

#[test]
fn test_resolve_minimal_gleam_app() {
    let shipment_apps = apps(&[("my_app", &["gleam_stdlib"]), ("gleam_stdlib", &[])]);
    let erts_apps = apps(&[
        ("kernel", &[]),
        ("stdlib", &["kernel"]),
        ("compiler", &["kernel", "stdlib"]),
        ("crypto", &["kernel", "stdlib"]),
        ("snmp", &["kernel", "stdlib"]),
    ]);

    let required = resolve(&shipment_apps, &erts_apps);
    assert!(required.contains("kernel"));
    assert!(required.contains("stdlib"));
    assert!(required.contains("compiler"));
    assert!(required.contains("my_app"));
    assert!(required.contains("gleam_stdlib"));
    assert!(!required.contains("crypto"));
    assert!(!required.contains("snmp"));
}

#[test]
fn test_resolve_with_transitive_otp_deps() {
    let shipment_apps = apps(&[("my_app", &["my_lib"]), ("my_lib", &["crypto"])]);
    let erts_apps = apps(&[
        ("kernel", &[]),
        ("stdlib", &["kernel"]),
        ("compiler", &["kernel", "stdlib"]),
        ("crypto", &["kernel", "stdlib"]),
        ("snmp", &["kernel", "stdlib"]),
    ]);

    let required = resolve(&shipment_apps, &erts_apps);
    assert!(required.contains("my_app"));
    assert!(required.contains("my_lib"));
    assert!(required.contains("crypto"));
    assert!(!required.contains("snmp"));
}

#[test]
fn test_validate_passes_when_all_apps_available() {
    let shipment_apps = apps(&[("my_app", &["gleam_stdlib"]), ("gleam_stdlib", &[])]);
    let erts_apps = apps(&[
        ("kernel", &[]),
        ("stdlib", &["kernel"]),
        ("compiler", &["kernel", "stdlib"]),
    ]);
    let required = resolve(&shipment_apps, &erts_apps);
    assert!(validate(&required, &shipment_apps, &erts_apps).is_ok());
}

#[test]
fn test_validate_fails_when_erts_app_missing() {
    let shipment_apps = apps(&[("my_app", &["my_lib"]), ("my_lib", &["crypto"])]);
    let erts_apps = apps(&[
        ("kernel", &[]),
        ("stdlib", &["kernel"]),
        ("compiler", &["kernel", "stdlib"]),
    ]);
    let required = resolve(&shipment_apps, &erts_apps);
    let err = validate(&required, &shipment_apps, &erts_apps).unwrap_err();
    assert_eq!(
        err.to_string(),
        "required OTP app(s) not found in ERTS: crypto. Try a different target or use --full-erts"
    );
}

#[test]
fn missing_apps_are_sorted() {
    let shipment_apps = apps(&[("my_app", &["zlib", "crypto", "zlib", "asn1"])]);
    let erts_apps = apps(&[("kernel", &["érlang", "Zed"]), ("stdlib", &[])]);
    let required = resolve(&shipment_apps, &erts_apps);
    let err = validate(&required, &shipment_apps, &erts_apps).unwrap_err();
    assert_eq!(
        err.to_string(),
        "required OTP app(s) not found in ERTS: Zed, asn1, compiler, crypto, zlib, érlang. Try a different target or use --full-erts"
    );
}

#[test]
fn test_resolve_always_includes_implicit_apps() {
    let shipment_apps = apps(&[("my_app", &[])]);
    let erts_apps = apps(&[
        ("kernel", &[]),
        ("stdlib", &["kernel"]),
        ("compiler", &["kernel", "stdlib"]),
    ]);

    let required = resolve(&shipment_apps, &erts_apps);
    assert!(required.contains("kernel"));
    assert!(required.contains("stdlib"));
    assert!(required.contains("compiler"));
    assert!(required.contains("my_app"));
}

#[test]
fn test_resolve_closed_under_erts_deps() {
    let name = |n: u32| format!("app{}", n % 8);
    let mut state: u32 = 12345;
    let mut next = || {
        state = state.wrapping_mul(1_664_525).wrapping_add(1_013_904_223);
        state >> 16
    };
    for _ in 0..200 {
        let mut shipment_apps = AppGraph::new();
        let mut erts_apps = AppGraph::new();
        for graph in [&mut shipment_apps, &mut erts_apps] {
            for _ in 0..next() % 6 {
                let key = name(next());
                let deps = (0..next() % 4).map(|_| name(next())).collect();
                graph.insert(key, deps);
            }
        }
        let required = resolve(&shipment_apps, &erts_apps);
        let names = required.sorted();
        assert!(names.windows(2).all(|w| w[0] < w[1]));
        for app in &names {
            if let Some(deps) = erts_apps.get(app) {
                assert!(deps.iter().all(|d| required.contains(d)));
            }
        }
    }
}

#[test]
fn resolve_follows_cycles() {
    let shipment_apps = apps(&[("my_app", &["a"])]);
    let erts_apps = apps(&[("a", &["b"]), ("b", &["c", "a"]), ("c", &["c"]), ("d", &["a"])]);
    let required = resolve(&shipment_apps, &erts_apps);
    assert_eq!(required.sorted(), ["a", "b", "c", "compiler", "kernel", "my_app", "stdlib"]);
}

#[test]
fn a_later_record_replaces_an_earlier_one() {
    let mut graph = apps(&[("x", &["y"]), ("x", &["z"])]);
    assert_eq!(graph.get("x").unwrap(), &vec!["z".to_string()]);
    assert!(graph.get("y").is_none());
    graph.insert("y".to_string(), vec![]);
    assert!(graph.contains_key("y"));
    let required = resolve(&graph, &AppGraph::new());
    assert!(required.contains("z"));
    assert_eq!(required.sorted(), ["compiler", "kernel", "stdlib", "x", "y", "z"]);
}

#[test]
fn needs_only_grow() {
    let erts_apps = apps(&[("kernel", &["a"]), ("a", &["b"])]);
    let small = resolve(&apps(&[("x", &[])]), &erts_apps);
    let large = resolve(&apps(&[("x", &["y"]), ("z", &[])]), &erts_apps);
    assert!(small.sorted().iter().all(|app| large.contains(app)));
    assert!(large.contains("y") && !small.contains("y"));
}
