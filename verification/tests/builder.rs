use queso::builder::{
    beam_path, boot_file_path, cargo_missing_message, check_cargo_zigbuild, check_erts_override,
    check_gleam, check_launcher_build, check_zig, find_boot_file, first_hit, gleam_build,
    gleam_erlang_build_dir, gleam_validate_entrypoint, launcher_missing_message, launcher_plan,
    needs_python, output_dir, releases_dir, strip_flags, DirProbe, LauncherStep, ToolOutput,
};
use queso::target::Target;

fn output(success: bool, stdout: &str, stderr: &str) -> ToolOutput {
    ToolOutput { success, stdout: stdout.into(), stderr: stderr.into() }
}

fn dir(name: &str, is_dir: bool, has_file: bool) -> DirProbe {
    DirProbe { name: name.into(), is_dir, has_file }
}

#[test]
fn test_validate_entrypoint_found() {
    let probes = vec![dir("other", true, false), dir("my_app", true, true)];
    assert!(gleam_validate_entrypoint("/p", "my_app.beam", &probes).is_ok());
    assert_eq!(
        beam_path("/p/build/erlang-shipment", "my_app", "my_app.beam"),
        "/p/build/erlang-shipment/my_app/ebin/my_app.beam"
    );
}

#[test]
fn test_validate_entrypoint_not_found() {
    let probes = vec![dir("my_app", true, false), dir("file", false, true)];
    let err = gleam_validate_entrypoint("[TEMPDIR]", "other.beam", &probes).unwrap_err();
    assert_eq!(
        err.to_string(),
        "entrypoint 'other.beam' not found in build output at [TEMPDIR]/build/erlang-shipment"
    );
}

#[test]
fn test_find_boot_file() {
    let probes = vec![dir("28", true, true)];
    let path = find_boot_file("/erts", Some(&probes)).unwrap();
    assert_eq!(path, "releases/28/no_dot_erlang");
}

#[test]
fn test_find_boot_file_missing() {
    let probes = vec![dir("28", true, false)];
    let err = find_boot_file("[TEMPDIR]", Some(&probes)).unwrap_err();
    assert_eq!(err.to_string(), "no_dot_erlang.boot not found in [TEMPDIR]/releases");
}

#[test]
fn a_runtime_without_releases() {
    let err = find_boot_file("/erts", None).unwrap_err();
    assert_eq!(err.to_string(), "releases directory not found in ERTS at /erts");
}

#[test]
fn the_first_release_with_a_boot_file_counts() {
    let probes = vec![
        dir("26", true, false),
        dir("27", false, true),
        dir("28", true, true),
        dir("29", true, true),
    ];
    assert_eq!(first_hit(&probes), Some(2));
    assert_eq!(find_boot_file("/erts", Some(&probes)).unwrap(), "releases/28/no_dot_erlang");
    assert_eq!(first_hit(&Vec::new()), None);
}

#[test]
fn directories_of_a_build() {
    assert_eq!(gleam_erlang_build_dir("/p"), "/p/build/erlang-shipment");
    assert_eq!(gleam_erlang_build_dir("/p/"), "/p/build/erlang-shipment");
    assert_eq!(gleam_erlang_build_dir(""), "build/erlang-shipment");
    assert_eq!(output_dir("/p"), "/p/build/queso");
    assert_eq!(releases_dir("/e"), "/e/releases");
    assert_eq!(boot_file_path("/e/releases", "28"), "/e/releases/28/no_dot_erlang.boot");
}

#[test]
fn versions_of_tools() {
    assert_eq!(check_gleam(&output(true, "gleam 1.11.0\n", "")).unwrap(), "1.11.0");
    assert_eq!(check_gleam(&output(true, " gleam gleam x", "")).unwrap(), "x");
    let err = check_gleam(&output(false, "gleam 1", "")).unwrap_err();
    assert_eq!(err.to_string(), "gleam --version failed");

    assert_eq!(
        check_cargo_zigbuild(&output(true, "cargo-zigbuild 0.20.1\n", "")).unwrap(),
        "0.20.1"
    );
    let err = check_cargo_zigbuild(&output(false, "", "boom")).unwrap_err();
    assert_eq!(err.to_string(), "cargo-zigbuild --version failed: boom");
}

#[test]
fn versions_of_zig() {
    let good = output(true, "0.14.0\n", "");
    let other = output(true, " 0.13.0 ", "");
    let bad = output(false, "0.1", "");
    assert_eq!(check_zig(Some(&good), Some(&other)).unwrap(), "0.14.0");
    assert_eq!(check_zig(Some(&bad), Some(&other)).unwrap(), "0.13.0");
    assert_eq!(check_zig(None, Some(&other)).unwrap(), "0.13.0");
    assert!(!needs_python(Some(&good)));
    assert!(needs_python(Some(&bad)));
    assert!(needs_python(None));
    let err = check_zig(Some(&bad), None).unwrap_err();
    assert_eq!(
        err.to_string(),
        "zig not found (install from https://ziglang.org/download/ or with: pip install ziglang)"
    );
}

#[test]
fn tools_that_fail() {
    assert!(gleam_build(&output(true, "", "warning")).is_ok());
    let err = gleam_build(&output(false, "", "error: x")).unwrap_err();
    assert_eq!(err.to_string(), "gleam export erlang-shipment failed:\nerror: x");
    assert!(check_launcher_build(&output(true, "", "")).is_ok());
    let err = check_launcher_build(&output(false, "", "E0308")).unwrap_err();
    assert_eq!(err.to_string(), "launcher compilation failed:\nE0308");
    assert_eq!(
        cargo_missing_message(true),
        "failed to run cargo zigbuild (install with: cargo install cargo-zigbuild)"
    );
    assert_eq!(cargo_missing_message(false), "failed to run cargo build");
}

#[test]
fn flags() {
    assert_eq!(strip_flags(true, false), Some(true));
    assert_eq!(strip_flags(true, true), Some(true));
    assert_eq!(strip_flags(false, true), Some(false));
    assert_eq!(strip_flags(false, false), None);
}

#[test]
fn test_erts_with_multiple_targets() {
    assert!(check_erts_override(true, 1).is_ok());
    assert!(check_erts_override(false, 2).is_ok());
    let err = check_erts_override(true, 2).unwrap_err();
    assert_eq!(
        err.to_string(),
        "--erts cannot be used with multiple targets (each target needs a platform-specific ERTS)"
    );
}

#[test]
fn plan_of_a_launcher() {
    let target: Target = "x86_64-windows".parse().unwrap();
    let plan = launcher_plan("/c", "0.1.0", "0123456789abcdef", &target, true);
    assert_eq!(plan.launcher_dir, "/c/launcher/0.1.0-0123456789ab/x86_64-pc-windows-gnu");
    assert_eq!(
        plan.launcher_path,
        "/c/launcher/0.1.0-0123456789ab/x86_64-pc-windows-gnu/queso-launcher.exe"
    );
    assert_eq!(plan.build_dir, "/c/launcher-build/0.1.0-0123456789ab");
    assert_eq!(
        plan.built_binary,
        "/c/launcher-build/0.1.0-0123456789ab/launcher/target/x86_64-pc-windows-gnu/release/queso-launcher.exe"
    );
    assert_eq!(
        plan.args,
        [
            "zigbuild",
            "--locked",
            "--release",
            "--target",
            "x86_64-pc-windows-gnu",
            "--manifest-path",
            "/c/launcher-build/0.1.0-0123456789ab/launcher/Cargo.toml",
        ]
    );
    let plan = launcher_plan("/c", "0.1.0", "0123456789abcdef", &target, false);
    assert_eq!(plan.args[0], "build");
}

#[test]
fn having_a_launcher() {
    let run = |results: &[bool]| {
        results.iter().fold(LauncherStep::CheckCached, |step, ok| step.next(*ok))
    };
    assert_eq!(run(&[true]), LauncherStep::Ready);
    assert_eq!(run(&[false]), LauncherStep::CheckSource);
    assert_eq!(run(&[false, true]), LauncherStep::Compile);
    assert_eq!(run(&[false, true, true, true, true]), LauncherStep::Ready);
    assert_eq!(run(&[false, false]), LauncherStep::UnpackSource);
    assert_eq!(run(&[false, false, true, true]), LauncherStep::Compile);
    assert_eq!(run(&[false, false, true, true, true, true, true]), LauncherStep::Ready);
    assert_eq!(run(&[false, false, false]), LauncherStep::Failed);
    assert_eq!(run(&[false, false, true, false]), LauncherStep::Failed);
    assert_eq!(run(&[false, true, false]), LauncherStep::Failed);
    assert_eq!(run(&[false, true, true, false]), LauncherStep::Failed);
    assert_eq!(run(&[false, true, true, true, false]), LauncherStep::Failed);
    assert_eq!(run(&[false, true, true, true, false, true]), LauncherStep::Failed);
    assert_eq!(launcher_missing_message("/b/x"), "compiled launcher not found at /b/x");
}
