use queso::target::{Arch, Libc, Os, Target, TargetError};
use queso::{is_cross_target, output_filename};

const ALL_TARGETS: [(Os, Arch); 10] = [
    (Os::Linux(Libc::Glibc), Arch::X86_64),
    (Os::Linux(Libc::Glibc), Arch::Aarch64),
    (Os::Linux(Libc::Musl), Arch::X86_64),
    (Os::Linux(Libc::Musl), Arch::Aarch64),
    (Os::Linux(Libc::Static), Arch::X86_64),
    (Os::Linux(Libc::Static), Arch::Aarch64),
    (Os::Macos, Arch::X86_64),
    (Os::Macos, Arch::Aarch64),
    (Os::Windows, Arch::X86_64),
    (Os::Windows, Arch::Aarch64),
];

#[test]
fn test_display_parse_roundtrip() {
    for (os, arch) in ALL_TARGETS {
        let target = Target { os, arch };
        let s = target.to_string();
        let parsed: Target = s.parse().unwrap();
        assert_eq!(target, parsed);
        assert_eq!(Target::try_from(s.clone()).unwrap(), target);
        assert_eq!(String::from(target), s);
    }
}

#[test]
fn test_parse_errors() {
    let cases = [
        "linux",
        "mips64-linux-glibc",
        "x86_64-bsd",
        "x86_64-linux",
        "x86_64-linux-foobar",
    ];
    let report: String = cases
        .iter()
        .map(|input| {
            let err = input.parse::<Target>().unwrap_err();
            format!("{input} -> {}", err.to_string())
        })
        .collect::<Vec<_>>()
        .join("\n");
    assert_eq!(
        report,
        "linux -> invalid target format 'linux': expected <arch>-<os>\n\
         mips64-linux-glibc -> unsupported architecture 'mips64': expected x86_64 or aarch64\n\
         x86_64-bsd -> unsupported OS 'bsd': expected linux, macos, or windows\n\
         x86_64-linux -> invalid target format 'x86_64-linux': linux requires a libc variant (linux-glibc, linux-musl, or linux-static)\n\
         x86_64-linux-foobar -> unsupported libc variant 'foobar': expected glibc, musl, or static"
    );
}

#[test]
fn parse_error_corners() {
    let message = |s: &str| s.parse::<Target>().unwrap_err().to_string();
    assert_eq!(message(""), "invalid target format '': expected <arch>-<os>");
    assert_eq!(message("-macos"), "unsupported architecture '': expected x86_64 or aarch64");
    assert_eq!(message("x86_64-"), "unsupported OS '': expected linux, macos, or windows");
    assert_eq!(
        message("x86_64-bsd-gnu"),
        "unsupported OS 'bsd': expected linux, macos, or windows"
    );
    assert_eq!(
        message("x86_64-linux-"),
        "unsupported libc variant '': expected glibc, musl, or static"
    );
    assert_eq!(
        message("x86_64-linux-musl-x"),
        "unsupported libc variant 'musl-x': expected glibc, musl, or static"
    );
    assert_eq!(
        message("x86_64-macos-x"),
        "unsupported OS 'macos': expected linux, macos, or windows"
    );
}

#[test]
fn test_rust_target_and_exe_suffix() {
    let expectations: &[(&str, &str, &str)] = &[
        ("x86_64-linux-glibc", "x86_64-unknown-linux-gnu", ""),
        ("aarch64-linux-glibc", "aarch64-unknown-linux-gnu", ""),
        ("x86_64-linux-musl", "x86_64-unknown-linux-musl", ""),
        ("aarch64-linux-musl", "aarch64-unknown-linux-musl", ""),
        ("x86_64-linux-static", "x86_64-unknown-linux-musl", ""),
        ("aarch64-linux-static", "aarch64-unknown-linux-musl", ""),
        ("x86_64-macos", "x86_64-apple-darwin", ""),
        ("aarch64-macos", "aarch64-apple-darwin", ""),
        ("x86_64-windows", "x86_64-pc-windows-gnu", ".exe"),
        ("aarch64-windows", "aarch64-pc-windows-gnu", ".exe"),
    ];

    for (input, expected_rust, expected_suffix) in expectations {
        let target: Target = input.parse().unwrap();
        assert_eq!(target.rust_target(), *expected_rust);
        assert_eq!(target.exe_suffix(), *expected_suffix);
    }
}

#[test]
fn parts_of_a_target_as_text() {
    assert_eq!(Libc::Musl.to_string(), "musl");
    assert_eq!(Os::Linux(Libc::Glibc).to_string(), "linux");
    assert_eq!(Os::Windows.to_string(), "windows");
    assert_eq!(Arch::Aarch64.to_string(), "aarch64");
}

#[test]
fn current_target() {
    assert_eq!(
        Target::current("aarch64", "macos").unwrap(),
        Target { os: Os::Macos, arch: Arch::Aarch64 }
    );
    assert_eq!(
        Target::current("x86_64", "linux").unwrap(),
        Target { os: Os::Linux(Libc::Static), arch: Arch::X86_64 }
    );
    assert_eq!(
        Target::current("x86_64", "windows").unwrap(),
        Target { os: Os::Windows, arch: Arch::X86_64 }
    );
    let err = Target::current("riscv64", "linux").unwrap_err();
    assert!(matches!(err, TargetError::CurrentArchitecture(_)));
    assert_eq!(err.to_string(), "unsupported current architecture 'riscv64'");
    let err = Target::current("x86_64", "freebsd").unwrap_err();
    assert_eq!(err.to_string(), "unsupported current OS 'freebsd'");
}

#[test]
fn cross_targets() {
    let target: Target = "x86_64-linux-static".parse().unwrap();
    assert!(!is_cross_target(&target, "x86_64", "linux"));
    assert!(is_cross_target(&target, "aarch64", "linux"));
    assert!(is_cross_target(&target, "x86_64", "macos"));
    assert!(!is_cross_target(&target, "riscv64", "linux"));
    let musl: Target = "x86_64-linux-musl".parse().unwrap();
    assert!(is_cross_target(&musl, "x86_64", "linux"));
}

#[test]
fn test_output_filename() {
    let cases = [
        ("my_app", "1.2.3", "x86_64-linux-static"),
        ("my_app", "1.0.0", "x86_64-windows"),
        ("my_app", "0.1.0", "aarch64-macos"),
    ];
    let report: String = cases
        .iter()
        .map(|(name, version, target_str)| {
            let target = target_str.parse::<Target>().unwrap();
            format!("{} -> {}", target_str, output_filename(name, version, &target))
        })
        .collect::<Vec<_>>()
        .join("\n");
    assert_eq!(
        report,
        "x86_64-linux-static -> my_app-1.2.3-x86_64-linux-static\n\
         x86_64-windows -> my_app-1.0.0-x86_64-windows.exe\n\
         aarch64-macos -> my_app-0.1.0-aarch64-macos"
    );
}
