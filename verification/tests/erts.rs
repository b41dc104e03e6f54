use queso::erts::{
    archive_format, bin_dir, cache_dir_for, check_download_status, download_url, erl_paths,
    find_erts_dir, resolution, validate, ArchiveFormat, DirItem, ErtsError, ErtsProbe,
    ErtsResolution, FindError, ResolveStep,
};
use queso::target::{Arch, Libc, Os, Target};

fn item(name: &str, is_dir: bool) -> DirItem {
    DirItem { name: name.into(), is_dir }
}

fn probe() -> ErtsProbe {
    ErtsProbe {
        root_is_dir: true,
        items: vec![item("erts-16.3", true), item("lib", true)],
        has_erl: true,
        has_erlexec: false,
        has_lib: true,
    }
}

#[test]
fn test_valid_erts() {
    let erts = validate("/opt/otp", &probe()).unwrap();
    assert_eq!(erts.version, "16.3");
    assert!(erts.erts_dir.ends_with("erts-16.3"));
    assert_eq!(erts.root, "/opt/otp");
}

#[test]
fn test_valid_windows_erts() {
    let windows = Target { os: Os::Windows, arch: Arch::X86_64 };
    let (erl, erlexec) = erl_paths(&bin_dir("/opt/otp", "erts-16.3"), &windows);
    assert_eq!(erl, "/opt/otp/erts-16.3/bin/erl.exe");
    assert_eq!(erlexec, "/opt/otp/erts-16.3/bin/erlexec.exe");
    let erts = validate("/opt/otp", &probe()).unwrap();
    assert_eq!(erts.version, "16.3");
}

#[test]
fn programs_of_a_runtime() {
    let linux = Target { os: Os::Linux(Libc::Static), arch: Arch::X86_64 };
    let (erl, erlexec) = erl_paths("b", &linux);
    assert_eq!(erl, "b/erl");
    assert_eq!(erlexec, "b/erlexec");
}

#[test]
fn test_nonexistent_path() {
    let mut probe = probe();
    probe.root_is_dir = false;
    let err = validate("/nonexistent/erts/path", &probe).unwrap_err();
    assert_eq!(err.to_string(), "ERTS path does not exist: /nonexistent/erts/path");
}

#[test]
fn test_no_erts_directory() {
    let mut probe = probe();
    probe.items = vec![];
    let err = validate("[TEMPDIR]", &probe).unwrap_err();
    assert_eq!(err.to_string(), "invalid ERTS installation at [TEMPDIR]");
    assert!(matches!(err, ErtsError::Invalid { cause: FindError::NotFound, .. }));
}

#[test]
fn test_missing_erl_binary() {
    let mut probe = probe();
    probe.has_erl = false;
    let err = validate("[TEMPDIR]", &probe).unwrap_err();
    assert_eq!(err.to_string(), "missing erl/erlexec binary in [TEMPDIR]/erts-16.3/bin");
}

#[test]
fn either_program_is_enough() {
    let mut probe = probe();
    probe.has_erl = false;
    probe.has_erlexec = true;
    assert_eq!(validate("/opt/otp", &probe).unwrap().version, "16.3");
    probe.has_erl = true;
    assert_eq!(validate("/opt/otp", &probe).unwrap().version, "16.3");
}

#[test]
fn test_corrupt_cache_detected() {
    let mut probe = probe();
    probe.items = vec![item("lib", true)];
    assert!(validate("/cache", &probe).is_err());
}

#[test]
fn a_runtime_without_lib() {
    let mut probe = probe();
    probe.has_lib = false;
    let err = validate("/cache", &probe).unwrap_err();
    assert_eq!(err.to_string(), "missing lib/ directory in ERTS installation");
}

#[test]
fn the_directory_of_the_runtime() {
    assert_eq!(find_erts_dir(&vec![item("lib", true), item("erts-1", true)]), Ok(1));
    assert_eq!(
        find_erts_dir(&vec![item("erts-1", false), item("xerts-1", true)]),
        Err(FindError::NotFound)
    );
    let several = vec![item("erts-1", true), item("erts-2", true)];
    assert_eq!(find_erts_dir(&several), Err(FindError::Several));
    assert_eq!(FindError::NotFound.to_string(), "no erts-* directory found");
    assert_eq!(FindError::Several.to_string(), "multiple erts-* directories found");
}

#[test]
fn test_download_urls() {
    let cases = [
        (Os::Macos, Arch::Aarch64),
        (Os::Macos, Arch::X86_64),
        (Os::Linux(Libc::Static), Arch::X86_64),
        (Os::Linux(Libc::Static), Arch::Aarch64),
        (Os::Linux(Libc::Glibc), Arch::X86_64),
        (Os::Linux(Libc::Glibc), Arch::Aarch64),
        (Os::Linux(Libc::Musl), Arch::X86_64),
        (Os::Linux(Libc::Musl), Arch::Aarch64),
        (Os::Windows, Arch::X86_64),
    ];

    let urls: Vec<String> = cases
        .into_iter()
        .map(|(os, arch)| {
            let target = Target { os, arch };
            format!("{}: {}", target.to_string(), download_url("28.4.1", &target).unwrap())
        })
        .collect();

    assert_eq!(
        urls,
        [
            "aarch64-macos: https://github.com/erlef/otp_builds/releases/download/OTP-28.4.1/OTP-28.4.1-macos-arm64.tar.gz",
            "x86_64-macos: https://github.com/erlef/otp_builds/releases/download/OTP-28.4.1/OTP-28.4.1-macos-amd64.tar.gz",
            "x86_64-linux-static: https://github.com/gleam-community/erlang-linux-builds/releases/download/OTP-28.4.1/erlang-28.4.1-x64.tar.gz",
            "aarch64-linux-static: https://github.com/gleam-community/erlang-linux-builds/releases/download/OTP-28.4.1/erlang-28.4.1-arm64.tar.gz",
            "x86_64-linux-glibc: https://github.com/gleam-community/erlang-linux-builds/releases/download/OTP-28.4.1/erlang-28.4.1-x64-glibc.tar.gz",
            "aarch64-linux-glibc: https://github.com/gleam-community/erlang-linux-builds/releases/download/OTP-28.4.1/erlang-28.4.1-arm64-glibc.tar.gz",
            "x86_64-linux-musl: https://github.com/gleam-community/erlang-linux-builds/releases/download/OTP-28.4.1/erlang-28.4.1-x64-musl.tar.gz",
            "aarch64-linux-musl: https://github.com/gleam-community/erlang-linux-builds/releases/download/OTP-28.4.1/erlang-28.4.1-arm64-musl.tar.gz",
            "x86_64-windows: https://github.com/erlang/otp/releases/download/OTP-28.4.1/otp_win64_28.4.1.zip",
        ]
    );
}

#[test]
fn test_download_url_unsupported_target() {
    let target = Target { os: Os::Windows, arch: Arch::Aarch64 };
    let err = download_url("28.4.1", &target).unwrap_err();
    assert_eq!(
        err.to_string(),
        "no OTP download available for aarch64-windows (use --erts to provide a local Erlang/OTP installation)"
    );
}

#[test]
fn test_aarch64_windows_has_no_download_url() {
    let target = "aarch64-windows".parse::<Target>().unwrap();
    assert!(download_url("28.4.1", &target).is_err());
}

#[test]
fn formats_of_downloads() {
    for (text, format) in [
        ("x86_64-windows", ArchiveFormat::Zip),
        ("aarch64-macos", ArchiveFormat::TarGz),
        ("x86_64-linux-musl", ArchiveFormat::TarGz),
    ] {
        assert_eq!(archive_format(&text.parse().unwrap()), format);
    }
}

#[test]
fn download_statuses() {
    assert!(check_download_status(200, "200 OK", "https://x").is_ok());
    let err = check_download_status(404, "404 Not Found", "https://x").unwrap_err();
    assert_eq!(err.to_string(), "download failed with HTTP 404 Not Found: https://x");
}

#[test]
fn test_cache_dir_contains_version_and_target() {
    let target = Target { os: Os::Linux(Libc::Static), arch: Arch::X86_64 };
    let dir = cache_dir_for("/home/me/.cache/queso", "28.4.1", target);
    assert!(dir.ends_with("queso/erts/OTP-28.4.1/x86_64-linux-static"));
}

fn resolved(results: &[bool]) -> ResolveStep {
    results.iter().fold(ResolveStep::CheckCache, |step, ok| step.next(*ok))
}

#[test]
fn coming_by_a_runtime() {
    assert_eq!(resolved(&[]), ResolveStep::CheckCache);
    assert_eq!(resolved(&[true]), ResolveStep::Cached);
    assert_eq!(resolved(&[false]), ResolveStep::Prepare);
    assert_eq!(resolved(&[false, false]), ResolveStep::Failed);
    assert_eq!(resolved(&[false, true, false]), ResolveStep::Failed);
    assert_eq!(resolved(&[false, true, true, false]), ResolveStep::Failed);
    assert_eq!(resolved(&[false, true, true, true]), ResolveStep::Move);
    assert_eq!(resolved(&[false, true, true, true, true]), ResolveStep::Installed);
    assert_eq!(resolved(&[false, true, true, true, false]), ResolveStep::Inspect);
    assert_eq!(resolved(&[false, true, true, true, false, true]), ResolveStep::Reused);
    assert_eq!(resolved(&[false, true, true, true, false, false]), ResolveStep::Replace);
    assert_eq!(
        resolved(&[false, true, true, true, false, false, true]),
        ResolveStep::Installed
    );
    assert_eq!(
        resolved(&[false, true, true, true, false, false, false]),
        ResolveStep::Abandoned
    );
    assert_eq!(resolved(&[true, false, false]), ResolveStep::Cached);
}

#[test]
fn what_a_runtime_was_come_by() {
    let target = Target { os: Os::Windows, arch: Arch::X86_64 };
    let end = |step| resolution(step, "/c", "28", target, "h");
    match end(ResolveStep::Installed).unwrap() {
        ErtsResolution::Downloaded { path, otp_version, url, hash } => {
            assert_eq!(path, "/c/erts/OTP-28/x86_64-windows");
            assert_eq!(otp_version, "28");
            assert_eq!(url, download_url("28", &target).unwrap());
            assert_eq!(hash, "h");
        }
        ErtsResolution::Cached { .. } => panic!("it was downloaded"),
    }
    for step in [ResolveStep::Reused, ResolveStep::Cached] {
        assert!(matches!(
            end(step),
            Some(ErtsResolution::Cached { path, otp_version })
                if path == "/c/erts/OTP-28/x86_64-windows" && otp_version == "28"
        ));
    }
    for step in [ResolveStep::Failed, ResolveStep::Abandoned, ResolveStep::Inspect] {
        assert!(end(step).is_none());
    }

    let arm = Target { os: Os::Windows, arch: Arch::Aarch64 };
    assert!(resolution(ResolveStep::Installed, "/c", "28", arm, "h").is_none());
    assert!(resolution(ResolveStep::Cached, "/c", "28", arm, "h").is_some());
}
