use queso::erts::ErtsResolution;
use queso::plan::{
    plan_build, plan_target, resolve_erts, select_otp_apps, total_size, BuildOptions, BuildRefused,
    Line,
};
use queso::project::{Project, QuesoConfig};
use queso::target::Target;
use queso::tree_shake::AppGraph;

fn project(config: Option<QuesoConfig>) -> Project {
    Project {
        name: "my_app".into(),
        version: "1.2.3".into(),
        root: "/p".into(),
        queso_config: config,
    }
}

fn config() -> QuesoConfig {
    QuesoConfig {
        entry: Some("my_app.cli".into()),
        targets: vec![target("aarch64-macos"), target("x86_64-linux-static")],
        strip_beam: Some(false),
        compression_level: Some(3),
        full_erts: Some(true),
    }
}

fn target(s: &str) -> Target {
    s.parse().unwrap()
}

fn options() -> BuildOptions {
    BuildOptions {
        targets: vec![],
        erts: None,
        entry: None,
        full_erts: false,
        strip_beam: false,
        no_strip_beam: false,
        compression_level: None,
    }
}

#[test]
fn a_build_without_options() {
    let plan = plan_build(&project(None), &options(), "x86_64", "linux").unwrap();
    assert_eq!(plan.targets, [target("x86_64-linux-static")]);
    assert_eq!(plan.entry.entry_module, "my_app");
    assert_eq!(plan.entry.beam_file, "my_app.beam");
    assert!(plan.strip_beam);
    assert_eq!(plan.compression_level, 9);
    assert!(!plan.full_erts);
    assert_eq!(plan.output_dir, "/p/build/queso");
    assert_eq!(plan.shipment_dir, "/p/build/erlang-shipment");
    assert_eq!(plan.title, "my_app v1.2.3");
}

#[test]
fn a_build_by_its_configuration() {
    let plan = plan_build(&project(Some(config())), &options(), "x86_64", "linux").unwrap();
    assert_eq!(plan.targets, [target("aarch64-macos"), target("x86_64-linux-static")]);
    assert_eq!(plan.entry.entry_module, "my_app@cli");
    assert!(!plan.strip_beam);
    assert_eq!(plan.compression_level, 3);
    assert!(plan.full_erts);
}

#[test]
fn the_command_line_goes_before_the_configuration() {
    let options = BuildOptions {
        targets: vec![target("x86_64-windows"), target("x86_64-windows")],
        erts: Some("/opt/otp".into()),
        entry: Some("other.main".into()),
        full_erts: false,
        strip_beam: true,
        no_strip_beam: false,
        compression_level: Some(19),
    };
    let plan = plan_build(&project(Some(config())), &options, "x86_64", "linux").unwrap();
    assert_eq!(plan.targets, [target("x86_64-windows")]);
    assert_eq!(plan.entry.entry_module, "other@main");
    assert!(plan.strip_beam);
    assert_eq!(plan.compression_level, 19);
    assert!(plan.full_erts);
}

#[test]
fn builds_that_are_refused() {
    let err = plan_build(&project(None), &options(), "mips", "linux").unwrap_err();
    assert!(matches!(err, BuildRefused::Target(_)));

    let mut several = options();
    several.targets = vec![target("x86_64-linux-static"), target("aarch64-macos")];
    several.erts = Some("/tmp/erts".into());
    several.compression_level = Some(0);
    let err = plan_build(&project(None), &several, "x86_64", "linux").unwrap_err();
    assert_eq!(
        err.to_string(),
        "--erts cannot be used with multiple targets (each target needs a platform-specific ERTS)"
    );

    several.erts = None;
    let err = plan_build(&project(None), &several, "x86_64", "linux").unwrap_err();
    assert_eq!(err.to_string(), "compression_level must be between 1 and 22, got 0");
}

fn graph(entries: &[(&str, &[&str])]) -> AppGraph {
    let mut graph = AppGraph::new();
    for (name, deps) in entries {
        graph.insert(name.to_string(), deps.iter().map(|d| d.to_string()).collect());
    }
    graph
}

#[test]
fn applications_of_a_runtime() {
    let shipment = graph(&[("my_app", &["crypto"])]);
    let mut erts = graph(&[
        ("kernel", &[]),
        ("stdlib", &["kernel"]),
        ("compiler", &["kernel", "stdlib"]),
        ("snmp", &[]),
    ]);
    assert!(select_otp_apps(true, &shipment, &erts).unwrap().is_none());
    let err = select_otp_apps(false, &shipment, &erts).unwrap_err();
    assert_eq!(err.missing, ["crypto"]);
    let none = graph(&[]);
    let err = select_otp_apps(false, &shipment, &none).unwrap_err();
    assert_eq!(err.missing, ["compiler", "crypto", "kernel", "stdlib"]);

    erts.insert("crypto".into(), vec!["asn1".into()]);
    erts.insert("asn1".into(), vec![]);
    let required = select_otp_apps(false, &shipment, &erts).unwrap().unwrap();
    assert_eq!(
        required.sorted(),
        ["asn1", "compiler", "crypto", "kernel", "my_app", "stdlib"]
    );
}

#[test]
fn what_an_executable_says_of_itself() {
    let project = project(None);
    let build = plan_build(&project, &options(), "x86_64", "linux").unwrap();
    let plan = plan_target(
        &project,
        &build,
        &target("x86_64-windows"),
        "16.3",
        "aa",
        "bb",
        "releases/28/no_dot_erlang",
    );
    assert_eq!(plan.path, "/p/build/queso/my_app-1.2.3-x86_64-windows.exe");
    assert_eq!(plan.metadata.name, "my_app");
    assert_eq!(plan.metadata.version, "1.2.3");
    assert_eq!(plan.metadata.entry_module, "my_app");
    assert_eq!(plan.metadata.erts_version, "16.3");
    assert_eq!(plan.metadata.erts_hash, "aa");
    assert_eq!(plan.metadata.app_hash, "bb");
    assert_eq!(plan.metadata.boot_path, "releases/28/no_dot_erlang");
    assert!(plan.metadata.validate().is_ok());
}

#[test]
fn executables_have_different_names() {
    let all = [
        "aarch64-linux-glibc",
        "aarch64-linux-musl",
        "aarch64-linux-static",
        "aarch64-macos",
        "aarch64-windows",
        "x86_64-linux-glibc",
        "x86_64-linux-musl",
        "x86_64-linux-static",
        "x86_64-macos",
        "x86_64-windows",
    ];
    let mut names: Vec<String> =
        all.iter().map(|t| queso::output_filename("a", "1", &target(t))).collect();
    names.sort();
    names.dedup();
    assert_eq!(names.len(), all.len());
}

fn shown(lines: &[Line]) -> Vec<(bool, &str, &str)> {
    lines
        .iter()
        .map(|line| match line {
            Line::Status { verb, message } => (true, verb.as_str(), message.as_str()),
            Line::Detail { label, value } => (false, label.as_str(), value.as_str()),
        })
        .collect()
}

#[test]
fn how_a_runtime_was_come_by() {
    let (lines, path) =
        resolve_erts(&ErtsResolution::Cached { path: "/c".into(), otp_version: "28".into() });
    assert_eq!(shown(&lines), [(false, "OTP", "28"), (false, "Cached", "/c")]);
    assert_eq!(path, "/c");

    let (lines, path) = resolve_erts(&ErtsResolution::Downloaded {
        path: "/c".into(),
        otp_version: "28".into(),
        url: "u".into(),
        hash: "h".into(),
    });
    assert_eq!(
        shown(&lines),
        [
            (true, "Downloaded", "ERTS"),
            (false, "OTP", "28"),
            (false, "Download", "u"),
            (false, "Hash", "h")
        ]
    );
    assert_eq!(path, "/c");
}

#[test]
fn sizes_are_added_up() {
    assert_eq!(total_size(&vec![]), 0);
    assert_eq!(total_size(&vec![1, 20, 300]), 321);
}
