use std::collections::HashSet;

use queso::project::{Entrypoint, Manifest, Project, QuesoConfig};
use queso::target::Target;

fn manifest(version: &str, queso_config: Option<QuesoConfig>) -> Manifest {
    Manifest { name: "my_app".into(), version: version.into(), queso_config }
}

fn minimal() -> Project {
    Project::load("tests/fixtures/minimal", Some(manifest("1.0.0", None))).unwrap()
}

fn with_config() -> Project {
    let config = QuesoConfig {
        entry: Some("my_app.cli".into()),
        targets: vec![
            "aarch64-macos".parse().unwrap(),
            "x86_64-linux-static".parse().unwrap(),
        ],
        strip_beam: Some(false),
        compression_level: Some(3),
        full_erts: Some(true),
    };
    Project::load("tests/fixtures/with_config", Some(manifest("2.1.0", Some(config)))).unwrap()
}

#[test]
fn test_load_minimal_project() {
    let project = minimal();
    assert_eq!(project.name, "my_app");
    assert_eq!(project.version, "1.0.0");
    assert!(project.queso_config.is_none());
    assert_eq!(project.root, "tests/fixtures/minimal");
}

#[test]
fn test_load_project_with_queso_config() {
    let project = with_config();
    assert_eq!(project.name, "my_app");
    assert_eq!(project.version, "2.1.0");
    let entry = project
        .queso_config
        .as_ref()
        .and_then(|c| c.entry.as_deref());
    assert_eq!(entry, Some("my_app.cli"));
    let targets = &project.queso_config.as_ref().unwrap().targets;
    assert_eq!(targets.len(), 2);
    assert_eq!(targets[0].to_string(), "aarch64-macos");
    assert_eq!(targets[1].to_string(), "x86_64-linux-static");
}

#[test]
fn test_missing_gleam_toml() {
    let err = Project::load("/tmp/nonexistent_queso_dir", None).unwrap_err();
    assert_eq!(
        err.to_string(),
        "not a Gleam project: gleam.toml not found in /tmp/nonexistent_queso_dir"
    );
}

#[test]
fn test_resolve_entry() {
    let minimal = minimal();
    let with_config = with_config();

    let cases = [
        (&minimal, None, "my_app"),
        (&with_config, None, "my_app@cli"),
        (&with_config, Some("custom.mod"), "custom@mod"),
    ];

    for (project, cli_entry, expected) in cases {
        assert_eq!(project.resolve_entry(cli_entry).entry_module, expected);
    }
}

#[test]
fn test_resolve_targets() {
    let minimal = minimal();
    let with_config = with_config();
    let windows: Target = "x86_64-windows".parse().unwrap();

    let current_only: HashSet<Target> =
        HashSet::from([Target::current("aarch64", "linux").unwrap()]);
    let config_targets: HashSet<Target> = HashSet::from([
        "aarch64-macos".parse().unwrap(),
        "x86_64-linux-static".parse().unwrap(),
    ]);
    let windows_only: HashSet<Target> = HashSet::from([windows]);

    let cases: &[(&Project, Vec<Target>, &HashSet<Target>)] = &[
        (&minimal, vec![], &current_only),
        (&with_config, vec![], &config_targets),
        (&with_config, vec![windows], &windows_only),
    ];

    for (project, cli_targets, expected) in cases {
        let targets = project.resolve_targets(cli_targets, "aarch64", "linux").unwrap();
        assert_eq!(targets.len(), expected.len());
        assert_eq!(&targets.into_iter().collect::<HashSet<_>>(), *expected);
    }
}

#[test]
fn targets_are_not_repeated() {
    let a: Target = "x86_64-windows".parse().unwrap();
    let b: Target = "aarch64-macos".parse().unwrap();
    let targets = minimal().resolve_targets(&[a, b, a, b, b], "x86_64", "linux").unwrap();
    assert_eq!(targets, [a, b]);
}

#[test]
fn no_target_on_an_unknown_machine() {
    let err = minimal().resolve_targets(&[], "x86_64", "plan9").unwrap_err();
    assert_eq!(err.to_string(), "unsupported current OS 'plan9'");
    assert!(with_config().resolve_targets(&[], "x86_64", "plan9").is_ok());
}

#[test]
fn test_resolve_strip_beam() {
    let minimal = minimal();
    let with_config = with_config();

    let cases = [
        (&minimal, None, true),
        (&with_config, None, false),
        (&with_config, Some(true), true),
    ];

    for (project, cli_strip_beam, expected) in cases {
        assert_eq!(project.resolve_strip_beam(cli_strip_beam), expected);
    }
}

#[test]
fn test_resolve_compression_level() {
    let minimal = minimal();
    let with_config = with_config();

    let ok_cases = [
        (&minimal, None, 9),
        (&with_config, None, 3),
        (&with_config, Some(15), 15),
    ];
    for (project, cli_level, expected) in ok_cases {
        assert_eq!(project.resolve_compression_level(cli_level).unwrap(), expected);
    }

    for out_of_range in [0, 23] {
        assert!(minimal.resolve_compression_level(Some(out_of_range)).is_err());
    }
}

#[test]
fn compression_level_messages() {
    let message = |level| minimal().resolve_compression_level(Some(level)).unwrap_err().to_string();
    assert_eq!(message(23), "compression_level must be between 1 and 22, got 23");
    assert_eq!(message(-105), "compression_level must be between 1 and 22, got -105");
    assert_eq!(
        message(i32::MIN),
        "compression_level must be between 1 and 22, got -2147483648"
    );
    assert_eq!(message(i32::MAX), "compression_level must be between 1 and 22, got 2147483647");
}

#[test]
fn test_resolve_full_erts() {
    let minimal = minimal();
    let with_config = with_config();

    let cases = [
        (&minimal, false, false),
        (&with_config, false, true),
        (&minimal, true, true),
    ];

    for (project, cli_full_erts, expected) in cases {
        assert_eq!(project.resolve_full_erts(cli_full_erts), expected);
    }
}

#[test]
fn test_entrypoint_beam_file_suffix() {
    let entry = Entrypoint::new("my_app.cli");
    assert_eq!(entry.beam_file, "my_app@cli.beam");
}

#[test]
fn entrypoint_replaces_every_dot() {
    let entry = Entrypoint::new(".a..b.");
    assert_eq!(entry.entry_module, "@a@@b@");
}
