use queso::archive::{unpack_zstd, PackFile};
use queso::digest::hash_bytes;
use queso::payload::{
    app_pack_files, app_packed, assemble_app, assemble_erts, erts_cache_path, erts_config_hash,
    erts_pack_files, erts_packed, is_erts_binary, kept_erts_binary_names, plan_erts,
    should_include_erts_file, stripped_data, AppFile, FoundFile, PlannedFile, StrippedFile,
};
use queso::target::{Arch, Libc, Os, Target};
use queso::tree_shake::NameSet;
use queso::HashingWriter;
use sha2::Digest;

const LINUX_TARGET: Target = Target { os: Os::Linux(Libc::Musl), arch: Arch::X86_64 };

fn names(items: &[&str]) -> NameSet {
    let mut set = NameSet::new();
    for item in items {
        set.insert(item);
    }
    set
}

fn planned_entries(files: &[&str], allowed: Option<&NameSet>) -> Vec<String> {
    let found: Vec<FoundFile> =
        files.iter().map(|f| FoundFile { relative: f.to_string(), mode: 0o644 }).collect();
    let plan = plan_erts(&found, allowed, LINUX_TARGET);
    let data = vec![b"DATA".to_vec(); plan.len()];
    let (bytes, _) =
        assemble_erts(&found, &plan, &data, "16.3", allowed, true, LINUX_TARGET, 3).unwrap();
    let (entries, _) = unpack_zstd(&bytes, "").unwrap();
    let mut paths: Vec<String> = entries.into_iter().map(|e| e.path.unwrap()).collect();
    paths.sort();
    paths
}

#[test]
fn test_erts_payload_filters_lib() {
    let allowed = names(&["kernel", "stdlib"]);
    let entries = planned_entries(
        &[
            "erts-16.3/bin/erl",
            "lib/kernel-10.6.1/ebin/kernel.beam",
            "lib/snmp-5.20.1/ebin/snmp.beam",
        ],
        Some(&allowed),
    );
    assert_eq!(entries, ["erts-16.3/bin/erl", "lib/kernel-10.6.1/ebin/kernel.beam"]);
}

#[test]
fn test_erts_payload_strips_non_essential_dirs() {
    let allowed = names(&["kernel", "stdlib"]);
    let entries = planned_entries(
        &[
            "erts-16.3/bin/erl",
            "lib/kernel-10.6.1/doc/index.html",
            "lib/kernel-10.6.1/ebin/kernel.beam",
            "lib/kernel-10.6.1/include/file.hrl",
            "lib/kernel-10.6.1/src/kernel.erl",
        ],
        Some(&allowed),
    );
    assert_eq!(entries, ["erts-16.3/bin/erl", "lib/kernel-10.6.1/ebin/kernel.beam"]);
}

#[test]
fn test_erts_payload_strips_core_to_bin_only() {
    let allowed = names(&["kernel", "stdlib"]);
    let entries = planned_entries(
        &[
            "erts-16.3/bin/erl",
            "erts-16.3/ebin/init.beam",
            "erts-16.3/erl_driver.h",
            "erts-16.3/include/erl_nif.h",
            "erts-16.3/lib/internal.a",
            "erts-16.3/man/erl.1",
            "erts-16.3/src/foo.c",
        ],
        Some(&allowed),
    );
    assert_eq!(entries, ["erts-16.3/bin/erl", "erts-16.3/ebin/init.beam"]);
}

#[test]
fn test_erts_payload_strips_unnecessary_binaries() {
    let allowed = names(&["kernel", "stdlib"]);
    let entries = planned_entries(
        &[
            "erts-16.3/bin/beam.smp",
            "erts-16.3/bin/ct_run",
            "erts-16.3/bin/dialyzer",
            "erts-16.3/bin/epmd",
            "erts-16.3/bin/erl",
            "erts-16.3/bin/erl_child_setup",
            "erts-16.3/bin/erlc",
            "erts-16.3/bin/erlexec",
            "erts-16.3/bin/heart",
            "erts-16.3/bin/inet_gethost",
            "erts-16.3/bin/typer",
        ],
        Some(&allowed),
    );
    assert_eq!(
        entries,
        [
            "erts-16.3/bin/beam.smp",
            "erts-16.3/bin/erl",
            "erts-16.3/bin/erl_child_setup",
            "erts-16.3/bin/erlexec",
            "erts-16.3/bin/inet_gethost",
        ]
    );
}

#[test]
fn test_erts_payload_strips_non_runtime_top_level_dirs() {
    let allowed = names(&["kernel", "stdlib"]);
    let entries = planned_entries(
        &[
            "bin/erl",
            "bin/erlc",
            "bin/escript",
            "erts-16.3/bin/erl",
            "lib/kernel-10.6.1/ebin/kernel.beam",
            "misc/format_man_pages",
            "releases/28/no_dot_erlang.boot",
            "releases/28/start.script",
            "releases/28/start_clean.boot",
            "releases/RELEASES",
            "usr/include/erl_nif.h",
            "usr/lib/libei.a",
        ],
        Some(&allowed),
    );
    assert_eq!(
        entries,
        [
            "erts-16.3/bin/erl",
            "lib/kernel-10.6.1/ebin/kernel.beam",
            "releases/28/no_dot_erlang.boot",
        ]
    );
}

#[test]
fn test_erts_payload_contains_expected_structure() {
    assert_eq!(planned_entries(&["erts-16.3/bin/erl"], None), ["erts-16.3/bin/erl"]);
}

#[test]
fn a_full_runtime_keeps_every_file() {
    let files = ["bin/erlc", "lib/snmp-5/src/x.erl", "README"];
    assert_eq!(planned_entries(&files, None).len(), 3);
}

#[test]
fn programs_can_be_run() {
    let found = vec![
        FoundFile { relative: "bin/erl".into(), mode: 0o600 },
        FoundFile { relative: "README".into(), mode: 0o640 },
        FoundFile { relative: "erts-16.3/bin/erlc".into(), mode: 0o644 },
    ];
    assert_eq!(
        plan_erts(&found, None, LINUX_TARGET),
        [
            PlannedFile { index: 0, mode: 0o755 },
            PlannedFile { index: 1, mode: 0o640 },
            PlannedFile { index: 2, mode: 0o755 },
        ]
    );
    let allowed = names(&[]);
    assert!(plan_erts(&found, Some(&allowed), LINUX_TARGET).is_empty());
}

#[test]
fn needed_files_at_the_edges() {
    let allowed = names(&["kernel", ""]);
    let kept = kept_erts_binary_names(LINUX_TARGET);
    let needed = |path: &str| should_include_erts_file(path, &allowed, &kept);
    assert!(needed("lib/kernel"));
    assert!(needed("lib/kernel-1/priv/src/x"));
    assert!(!needed("lib/kernel-1/c_src"));
    assert!(!needed("lib/kernel-1/examples/x"));
    assert!(!needed("lib"));
    assert!(needed("lib/-x"));
    assert!(!needed("lib/kernel_extra-1/ebin/x"));
    assert!(needed("erts-1/ebin"));
    assert!(!needed("erts-1/bin/erl/x"));
    assert!(!needed("erts/bin/erl"));
    assert!(!needed("releases/no_dot_erlang.boot"));
    assert!(!needed("releases/1/2/no_dot_erlang.boot"));
    assert!(!needed(""));
}

#[test]
fn kept_programs_by_target() {
    let kept = kept_erts_binary_names(LINUX_TARGET);
    assert_eq!(
        kept.sorted(),
        ["beam.smp", "erl", "erl_child_setup", "erlexec", "inet_gethost"]
    );
    let windows = Target { os: Os::Windows, arch: Arch::X86_64 };
    let kept = kept_erts_binary_names(windows);
    assert_eq!(kept.sorted().len(), 10);
    assert!(kept.contains("erl.exe"));
    assert!(kept.contains("beam.smp.dll"));
    assert!(!kept.contains("erl"));
}

#[test]
fn test_is_erts_binary() {
    let cases: &[(&str, bool)] = &[
        ("erts-16.3/bin/erlexec", true),
        ("erts-16.3/bin/beam.smp", true),
        ("erts-16.3/bin/erlc", true),
        ("bin/erl", true),
        ("erts-16.3/bin/erl.exe", true),
        ("erts-16.3/bin/beam.smp.dll", true),
        ("erts-16.3/bin/erlexec.dll", true),
        ("erts-16.3/bin/erlc.exe", true),
        ("erts-16.3/ebin/init.beam", false),
        ("lib/kernel-10.6.1/ebin/kernel.beam", false),
    ];

    for (path, expected) in cases {
        assert_eq!(is_erts_binary(path), *expected);
    }
}

#[test]
fn test_app_payload_contains_expected_structure() {
    let files = vec![AppFile {
        relative: "my_app/ebin/my_app.beam".into(),
        mode: 0o644,
        data: b"BEAM_MOCK".to_vec(),
    }];
    let (bytes, hash) = assemble_app(&files, 9).unwrap();
    assert_eq!(hash, hash_bytes(&bytes));
    let (entries, placements) = unpack_zstd(&bytes, "/c").unwrap();
    assert_eq!(entries.len(), 1);
    assert_eq!(entries[0].path.as_deref(), Some("lib/my_app/ebin/my_app.beam"));
    assert_eq!(entries[0].data, b"BEAM_MOCK");
    assert_eq!(placements[0].path, "/c/lib/my_app/ebin/my_app.beam");
}

#[test]
fn test_app_hash_is_deterministic() {
    let files = || {
        vec![AppFile {
            relative: "my_app/ebin/my_app.beam".into(),
            mode: 0o644,
            data: b"BEAM_MOCK".to_vec(),
        }]
    };
    let (_, first) = assemble_app(&files(), 9).unwrap();
    let (_, second) = assemble_app(&files(), 9).unwrap();
    assert_eq!(first, second);
}

#[test]
fn test_erts_hash_sensitivity() {
    let target = "aarch64-macos".parse::<Target>().unwrap();
    let other_target = "x86_64-linux-static".parse::<Target>().unwrap();
    let apps = names(&["kernel", "stdlib"]);
    let other_apps = names(&["kernel", "stdlib", "crypto"]);
    let baseline = erts_config_hash("15.0", target, Some(&apps), true);

    assert_eq!(baseline, erts_config_hash("15.0", target, Some(&apps), true));
    assert_ne!(baseline, erts_config_hash("16.0", target, Some(&apps), true));
    assert_ne!(baseline, erts_config_hash("15.0", other_target, Some(&apps), true));
    assert_ne!(baseline, erts_config_hash("15.0", target, Some(&other_apps), true));
    assert_ne!(baseline, erts_config_hash("15.0", target, Some(&apps), false));
    assert_ne!(baseline, erts_config_hash("15.0", target, None, true));
}

#[test]
fn erts_hash_does_not_depend_on_order() {
    let a = names(&["kernel", "stdlib", "crypto"]);
    let b = names(&["crypto", "kernel", "crypto", "stdlib"]);
    let hash = erts_config_hash("15.0", LINUX_TARGET, Some(&a), true);
    assert_eq!(hash, erts_config_hash("15.0", LINUX_TARGET, Some(&b), true));
    assert_eq!(hash, hash_bytes(b"15.0x86_64-linux-musl\x01cryptokernelstdlib"));
    assert_eq!(
        erts_config_hash("15.0", LINUX_TARGET, None, false),
        hash_bytes(b"15.0x86_64-linux-musl\x00full_erts")
    );
}

#[test]
fn erts_cache_paths() {
    assert_eq!(
        erts_cache_path("/home/me/.cache/queso", "abc", LINUX_TARGET, 9),
        "/home/me/.cache/queso/payload/x86_64-linux-musl/erts_abc_zstd9.tar.zst"
    );
}

#[test]
fn stripped_files() {
    let stripped = vec![
        StrippedFile { path: "a.beam".into(), data: b"1".to_vec() },
        StrippedFile { path: "b.beam".into(), data: b"2".to_vec() },
        StrippedFile { path: "a.beam".into(), data: b"3".to_vec() },
    ];
    assert_eq!(stripped_data(&stripped, "a.beam").unwrap(), b"3");
    assert_eq!(stripped_data(&stripped, "b.beam").unwrap(), b"2");
    assert!(stripped_data(&stripped, "c.beam").is_none());
    assert_eq!(stripped_data(&stripped, "b.beam/").unwrap(), b"2");
}

#[test]
fn stripped_files_are_found_by_components() {
    let stripped = vec![
        StrippedFile { path: "/app//x/./a.beam".into(), data: b"1".to_vec() },
        StrippedFile { path: "/app/y/b.beam".into(), data: b"2".to_vec() },
    ];
    assert_eq!(stripped_data(&stripped, "/app/x/a.beam").unwrap(), b"1");
    assert_eq!(stripped_data(&stripped, "/app/y//b.beam").unwrap(), b"2");
    assert!(stripped_data(&stripped, "app/x/a.beam").is_none());
    assert!(stripped_data(&stripped, "/app/x/../x/a.beam").is_none());
}

#[test]
fn hash_of_nothing_and_of_abc() {
    assert_eq!(
        hash_bytes(b""),
        "e3b0c44298fc1c149afbf4c8996fb92427ae41e4649b934ca495991b7852b855"
    );
    assert_eq!(
        hash_bytes(b"abc"),
        "ba7816bf8f01cfea414140de5dae2223b00361a396177a9cb410ff61f20015ad"
    );
}

#[test]
fn test_hashing_writer_matches_direct_hash() {
    let cases: [&[&[u8]]; 4] = [
        &[],
        &[b""],
        &[b"one", b"", b"two", b"three"],
        &[&[0xFF; 100], &[0; 64], b"end"],
    ];
    for chunks in cases {
        let concatenated: Vec<u8> = chunks.iter().flat_map(|c| c.iter()).copied().collect();
        let mut writer = HashingWriter::new(Vec::new());
        for chunk in chunks {
            writer.write_all(chunk);
        }
        assert_eq!(*writer.inner_mut(), concatenated);
        assert_eq!(writer.finalize(), hex::encode(sha2::Sha256::digest(&concatenated)));
    }
}

#[test]
fn hashing_writer_counts_what_was_written() {
    let mut writer = HashingWriter::new(());
    writer.record(b"abcdef", 3);
    assert_eq!(writer.finalize(), hash_bytes(b"abc"));
}

#[test]
fn a_pack_file_borrows_its_data() {
    let data = b"x".to_vec();
    let file = PackFile { path: "p".into(), mode: 1, data: &data };
    assert_eq!(file.data, data);
}

#[test]
fn one_odd_path_does_not_change_the_plan_for_others() {
    let target = "x86_64-linux-static".parse::<Target>().unwrap();
    let files: Vec<FoundFile> =
        ["lib/kernel-10/ebin/a.beam", "odd\\name", "lib/snmp-5/ebin/b.beam", "erts-16/bin/erlexec"]
            .iter()
            .map(|path| FoundFile { relative: path.to_string(), mode: 0o600 })
            .collect();
    let planned = plan_erts(&files, Some(&names(&["kernel"])), target);
    let kept: Vec<(usize, u32)> =
        planned.iter().map(|f| (f.index, f.mode)).filter(|f| f.0 != 1).collect();
    assert_eq!(kept, [(0, 0o600), (3, 0o755)]);
    assert_eq!(plan_erts(&files, None, target).len(), 4);
}

#[test]
fn what_packing_comes_to() {
    let failed = || std::io::Error::other("no room");
    let (bytes, hash) = app_packed(Ok(b"abc".to_vec())).unwrap();
    assert_eq!(bytes, b"abc");
    assert_eq!(hash, "ba7816bf8f01cfea414140de5dae2223b00361a396177a9cb410ff61f20015ad");
    assert_eq!(app_packed(Err(failed())).unwrap_err().to_string(), "no room");

    let allowed = names(&["kernel"]);
    let (bytes, hash) =
        erts_packed(Ok(b"abc".to_vec()), "16.3", Some(&allowed), true, LINUX_TARGET).unwrap();
    assert_eq!(bytes, b"abc");
    assert_eq!(hash, hash_bytes(b"16.3x86_64-linux-musl\x01kernel"));
    assert_eq!(
        erts_packed(Err(failed()), "16.3", None, true, LINUX_TARGET).unwrap_err().to_string(),
        "no room"
    );
}

#[test]
fn files_as_they_are_packed() {
    let app =
        vec![AppFile { relative: "my_app/ebin/a.beam".into(), mode: 0o600, data: b"A".to_vec() }];
    let packed = app_pack_files(&app);
    assert_eq!(packed.len(), 1);
    assert_eq!((packed[0].path.as_str(), packed[0].mode), ("lib/my_app/ebin/a.beam", 0o600));
    assert_eq!(packed[0].data, b"A");

    let found = vec![
        FoundFile { relative: "README".into(), mode: 0o644 },
        FoundFile { relative: "erts-16/bin/erl".into(), mode: 0o644 },
    ];
    let plan = vec![PlannedFile { index: 1, mode: 0o755 }];
    let data = vec![b"ERL".to_vec()];
    let packed = erts_pack_files(&found, &plan, &data);
    assert_eq!(packed.len(), 1);
    assert_eq!((packed[0].path.as_str(), packed[0].mode), ("erts-16/bin/erl", 0o755));
    assert_eq!(packed[0].data, b"ERL");

    let escaping = vec![AppFile { relative: "../x".into(), mode: 0o600, data: b"A".to_vec() }];
    assert!(assemble_app(&escaping, 3).is_err());
}

#[test]
fn applications_tell_hashes_apart() {
    let target = LINUX_TARGET;
    let hash = |apps: Option<&[&str]>| {
        let set = apps.map(names);
        erts_config_hash("16.3", target, set.as_ref(), true)
    };
    assert_ne!(hash(Some(&["kernel"])), hash(Some(&["kernel", "crypto"])));
    assert_ne!(hash(Some(&["kernel"])), hash(None));
    assert_eq!(hash(Some(&["full_erts"])), hash(None));
    assert!(hash(None).chars().all(|c| c.is_ascii_digit() || ('a'..='f').contains(&c)));
}
