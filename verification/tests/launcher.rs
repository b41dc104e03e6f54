use queso::archive::{unpack_zstd, EntryKind, UnpackError};
use queso::format::{Field, Metadata, MetadataError, Trailer, TrailerError, TRAILER_SIZE};
use queso::launcher::{
    accept_metadata, add_lib_paths, app_region, boot_erts, cache_paths, current_name, ebin_path,
    erts_region, extract_tmp_prefix, fingerprint, finish_extraction, is_stale, metadata_window,
    read_metadata, run, stale_entries, Finish, LaunchError, LaunchStep, LibProbe, MoveOutcome,
    ReadError, Region,
};

fn sample_metadata() -> Metadata {
    Metadata {
        name: "my_app".into(),
        version: "1.2.3".into(),
        entry_module: "my_app@cli".into(),
        erts_version: "15.0".into(),
        erts_hash: "abcdefabcdef0123456789".into(),
        app_hash: "deadbeefdeadbeef0011223344".into(),
        boot_path: "releases/28/no_dot_erlang".into(),
    }
}

fn strings(items: &[&str]) -> Vec<String> {
    items.iter().map(|s| s.to_string()).collect()
}

fn lib(name: &str, is_dir: bool, has_ebin: bool) -> LibProbe {
    LibProbe { name: name.to_string(), is_dir, has_ebin }
}

#[test]
fn test_add_lib_paths_with_ebin() {
    let libs = vec![
        lib("my_app", true, true),
        lib("no_ebin", true, false),
        lib("gleam_stdlib", true, true),
    ];
    let paths = add_lib_paths("/cache/app", &libs);

    assert_eq!(paths.len(), 4);
    assert_eq!(paths[0], "-pa");
    assert!(paths[1].ends_with("gleam_stdlib/ebin"));
    assert_eq!(paths[2], "-pa");
    assert!(paths[3].ends_with("my_app/ebin"));
    assert_eq!(paths[1], "/cache/app/lib/gleam_stdlib/ebin");
    assert_eq!(ebin_path("/cache/app", "no_ebin"), "/cache/app/lib/no_ebin/ebin");
}

#[test]
fn only_directories_are_libraries() {
    let libs = vec![lib("link", false, true), lib("file", false, false), lib("z", true, true)];
    assert_eq!(add_lib_paths("/a", &libs), ["-pa", "/a/lib/z/ebin"]);
}

#[test]
fn test_add_lib_paths_no_lib_dir() {
    let paths = add_lib_paths("/cache/app", &Vec::new());
    assert!(paths.is_empty());
}

fn test_binary(erts: &[u8], app: &[u8], meta: &Metadata) -> (Vec<u8>, Trailer) {
    let data = queso::assemble_binary(b"", erts, app, meta);
    let trailer = Trailer::read(&data).unwrap();
    (data, trailer)
}

#[test]
fn test_read_metadata_happy_path() {
    let meta = sample_metadata();
    let (data, trailer) = test_binary(b"ERTS", b"APP", &meta);

    let decoded = read_metadata(&data, &trailer).unwrap();
    assert_eq!(decoded.name, meta.name);
    assert_eq!(decoded.entry_module, meta.entry_module);
    assert_eq!(decoded.boot_path, meta.boot_path);

    let (start, len) = metadata_window(data.len() as u64, &trailer).unwrap();
    let window = &data[start as usize..(start + len) as usize];
    assert_eq!(accept_metadata(window).unwrap().version, meta.version);
}

#[test]
fn test_read_metadata_rejects_meta_offset_past_end() {
    let (data, trailer) = test_binary(b"ERTS", b"APP", &sample_metadata());
    let bad_trailer = Trailer {
        erts_offset: trailer.erts_offset,
        app_offset: trailer.app_offset,
        meta_offset: trailer.meta_offset + 1_000_000,
    };

    let err = read_metadata(&data, &bad_trailer).unwrap_err();
    assert_eq!(err, ReadError::OffsetPastEnd);
    assert_eq!(err.to_string(), "meta_offset past end of metadata region");
}

#[test]
fn metadata_that_is_refused() {
    let mut meta = sample_metadata();
    meta.name = "../x".into();
    let (data, trailer) = test_binary(b"ERTS", b"APP", &meta);
    let err = read_metadata(&data, &trailer).unwrap_err();
    assert!(matches!(err, ReadError::Invalid(MetadataError::Separator(_))));
    assert_eq!(err.to_string(), "metadata: name contains path separator");

    let short = Trailer { meta_offset: (data.len() - TRAILER_SIZE) as u64, ..trailer };
    let err = read_metadata(&data, &short).unwrap_err();
    assert_eq!(err.to_string(), "metadata cannot be decoded");

    assert_eq!(read_metadata(b"tiny", &trailer).unwrap_err(), ReadError::TooSmall);
    assert_eq!(ReadError::TooSmall.to_string(), "file too small to contain trailer");
}

#[test]
fn regions_of_an_executable() {
    let trailer = Trailer { erts_offset: 10, app_offset: 25, meta_offset: 60 };
    assert_eq!(erts_region(&trailer), Region { offset: 10, length: 15 });
    assert_eq!(app_region(&trailer), Region { offset: 25, length: 35 });
}

#[test]
fn fingerprints() {
    assert_eq!(fingerprint("abcdefabcdef0123456789").unwrap(), "abcdefabcdef");
    assert_eq!(fingerprint("abcdefabcdef").unwrap(), "abcdefabcdef");
    assert_eq!(fingerprint("abc").unwrap(), "abc");
    assert_eq!(fingerprint("").unwrap(), "");
    assert_eq!(fingerprint("éééééé!").unwrap(), "éééééé");
    assert!(fingerprint("aéééééé").is_none());
}

#[test]
fn cache_paths_of_an_application() {
    let (erts, app) = cache_paths("/home/me/.cache/my_app", &sample_metadata());
    assert_eq!(erts, "/home/me/.cache/my_app/erts/abcdefabcdef");
    assert_eq!(app, "/home/me/.cache/my_app/app/1.2.3-deadbeefdead");
}

#[test]
fn test_clean_stale_cache_removes_non_matching_siblings() {
    let names = strings(&["stale1", "current", "stale2"]);
    assert_eq!(stale_entries(&names, "current"), ["stale1", "stale2"]);
}

#[test]
fn test_clean_stale_cache_preserves_in_flight_tmp_dirs() {
    let in_flight = format!("{}abc123", extract_tmp_prefix());
    let names = strings(&["current", &in_flight, "stale"]);
    assert_eq!(stale_entries(&names, "current"), ["stale"]);
    assert!(!is_stale(&in_flight, "current"));
    assert!(!is_stale("current", "current"));
    assert!(is_stale(".tmp-extract", "current"));
}

#[test]
fn test_clean_stale_cache_missing_dir_is_noop() {
    assert!(stale_entries(&Vec::new(), "current").is_empty());
}

#[test]
fn finishing_an_extraction() {
    assert_eq!(finish_extraction(MoveOutcome::Moved, false), Finish::Done);
    assert_eq!(finish_extraction(MoveOutcome::Moved, true), Finish::Done);
    assert_eq!(finish_extraction(MoveOutcome::Occupied, true), Finish::Discard);
    assert_eq!(finish_extraction(MoveOutcome::Occupied, false), Finish::Report);
    assert_eq!(finish_extraction(MoveOutcome::Failed, true), Finish::Report);
}

#[test]
fn boot_command() {
    let meta = sample_metadata();
    let libs = add_lib_paths("/c/app", &vec![lib("b", true, true), lib("a", true, true)]);
    let command = boot_erts("/c/erts", &meta, &libs, &Vec::new(), false);
    assert_eq!(command.program, "/c/erts/erts-15.0/bin/erlexec");
    assert_eq!(
        command.args,
        [
            "-boot",
            "/c/erts/releases/28/no_dot_erlang",
            "-pa",
            "/c/app/lib/a/ebin",
            "-pa",
            "/c/app/lib/b/ebin",
            "-noshell",
            "-eval",
            "'my_app@cli':main()",
            "-s",
            "erlang",
            "halt",
        ]
    );
    let env: Vec<(&str, &str)> =
        command.env.iter().map(|(k, v)| (k.as_str(), v.as_str())).collect();
    assert_eq!(
        env,
        [
            ("ROOTDIR", "/c/erts"),
            ("BINDIR", "/c/erts/erts-15.0/bin"),
            ("EMU", "beam"),
            ("PROGNAME", "erl"),
        ]
    );

    let command = boot_erts("/c/erts", &meta, &Vec::new(), &strings(&["x", "-y"]), true);
    assert_eq!(command.program, "/c/erts/erts-15.0/bin/erl.exe");
    assert_eq!(command.args[command.args.len() - 4..], ["halt", "-extra", "x", "-y"]);
}

fn build_tar_zstd(entries: &[(&str, &[u8])]) -> Vec<u8> {
    let mut builder = tar::Builder::new(Vec::new());
    for (path, data) in entries {
        let mut header = tar::Header::new_gnu();
        header.set_size(u64::try_from(data.len()).unwrap());
        header.set_mode(0o644);
        header.set_entry_type(tar::EntryType::Regular);

        let bytes = header.as_mut_bytes();
        let name = path.as_bytes();
        bytes[..name.len()].copy_from_slice(name);

        header.set_cksum();
        builder.append(&header, *data).unwrap();
    }
    let tar_bytes = builder.into_inner().unwrap();
    zstd::stream::encode_all(&tar_bytes[..], 0).unwrap()
}

#[test]
fn test_extract_happy_path() {
    let archive = build_tar_zstd(&[("hello.txt", b"hi")]);
    let (entries, placements) = unpack_zstd(&archive, "/tmp/install").unwrap();
    assert_eq!(placements.len(), 1);
    assert_eq!(placements[0].path, "/tmp/install/hello.txt");
    assert_eq!(placements[0].kind, EntryKind::File);
    assert_eq!(placements[0].mode, Some(0o644));
    assert_eq!(entries[placements[0].index].data, b"hi");
}

#[test]
fn test_extract_strips_parent_traversal() {
    let archive = build_tar_zstd(&[("../escape.txt", b"pwn")]);
    let (entries, placements) = unpack_zstd(&archive, "/tmp/install").unwrap();
    assert_eq!(placements.len(), 1);
    assert_eq!(placements[0].path, "/tmp/install/escape.txt");
    assert_eq!(entries[placements[0].index].data, b"pwn");
}

#[test]
fn entries_without_a_name_are_left_out() {
    let archive = build_tar_zstd(&[
        ("./", b""),
        ("/abs/./x//y", b"1"),
        ("..", b"2"),
        ("a/../b", b"3"),
        ("/", b"4"),
    ]);
    let (_, placements) = unpack_zstd(&archive, "/d").unwrap();
    let got: Vec<(usize, &str)> = placements.iter().map(|p| (p.index, p.path.as_str())).collect();
    assert_eq!(got, [(1, "/d/abs/x/y"), (3, "/d/a/b")]);
}

#[test]
fn archives_that_cannot_be_unpacked() {
    assert!(matches!(unpack_zstd(b"no archive", "/d"), Err(UnpackError::Unreadable(_))));

    let mut builder = tar::Builder::new(Vec::new());
    let mut header = tar::Header::new_gnu();
    header.set_size(0);
    header.set_mode(0o644);
    header.as_mut_bytes()[..2].copy_from_slice(&[0xC3, 0x28]);
    header.set_cksum();
    builder.append(&header, &b""[..]).unwrap();
    let tar_bytes = builder.into_inner().unwrap();
    let archive = zstd::stream::encode_all(&tar_bytes[..], 0).unwrap();
    assert!(matches!(unpack_zstd(&archive, "/d"), Err(UnpackError::NotUtf8)));
}

#[test]
fn steps_of_a_run() {
    let meta = sample_metadata();
    let trailer = Trailer { erts_offset: 10, app_offset: 30, meta_offset: 60 };
    let erts = LaunchStep::UnpackErts(Region { offset: 10, length: 20 });
    let app = LaunchStep::UnpackApp(Region { offset: 30, length: 30 });
    let rest = [LaunchStep::CleanErts, LaunchStep::CleanApp, LaunchStep::Boot];
    let steps = |e, a| run(&trailer, 100, &meta, e, a).unwrap();
    assert_eq!(steps(true, true), rest);
    assert_eq!(steps(false, true), [&[erts], &rest[..]].concat());
    assert_eq!(steps(true, false), [&[app], &rest[..]].concat());
    assert_eq!(steps(false, false), [&[erts, app], &rest[..]].concat());
}

#[test]
fn a_refused_executable_does_nothing() {
    let meta = sample_metadata();
    let trailer = Trailer { erts_offset: 10, app_offset: 30, meta_offset: 60 };
    let cases = [
        (trailer, 31, TrailerError::BinaryTooSmall),
        (trailer, 91, TrailerError::MetaPastEnd),
        (Trailer { erts_offset: 30, ..trailer }, 100, TrailerError::ErtsNotBeforeApp),
        (Trailer { app_offset: 60, ..trailer }, 100, TrailerError::AppNotBeforeMeta),
        (Trailer { meta_offset: u64::MAX, ..trailer }, 100, TrailerError::MetaOverflow),
    ];
    for (bad, len, error) in cases {
        let got = run(&bad, len, &meta, false, false).unwrap_err();
        assert_eq!(got, LaunchError::Trailer(error));
        assert_eq!(got.to_string(), error.to_string());
    }

    let bad = Metadata { version: "..".into(), ..sample_metadata() };
    let got = run(&trailer, 100, &bad, true, true).unwrap_err();
    assert_eq!(got, LaunchError::Metadata(MetadataError::Dots(Field::Version)));
    assert_eq!(got.to_string(), "metadata: version is '.' or '..'");
    let got = run(&trailer, 31, &bad, true, true).unwrap_err();
    assert_eq!(got, LaunchError::Trailer(TrailerError::BinaryTooSmall));
}

#[test]
fn names_in_the_cache() {
    assert_eq!(current_name("/c/my_app/erts/abcdefabcdef").as_deref(), Some("abcdefabcdef"));
    assert_eq!(current_name("/c/my_app/erts/").as_deref(), Some("erts"));
    assert_eq!(current_name("/c/app/.."), None);
    assert_eq!(current_name("/"), None);
    assert_eq!(current_name(""), None);
}

#[test]
fn a_packed_application_is_unpacked_on_the_first_run() {
    let meta = sample_metadata();
    let erts = build_tar_zstd(&[("erts-15.0/bin/erlexec", b"ERL")]);
    let app = build_tar_zstd(&[("lib/my_app/ebin/my_app.beam", b"BEAM")]);
    let image = queso::assemble_binary(b"LAUNCHER", &erts, &app, &meta);
    let trailer = Trailer::read(&image).unwrap();
    trailer.validate(image.len() as u64).unwrap();
    let (erts_dir, app_dir) = cache_paths("/c", &read_metadata(&image, &trailer).unwrap());
    assert_eq!(erts_dir, "/c/erts/abcdefabcdef");
    assert_eq!(app_dir, "/c/app/1.2.3-deadbeefdead");

    for step in run(&trailer, image.len() as u64, &meta, false, false).unwrap() {
        let (region, dir, path, content): (Region, &str, &str, &[u8]) = match step {
            LaunchStep::UnpackErts(r) => (r, &erts_dir, "/erts-15.0/bin/erlexec", b"ERL"),
            LaunchStep::UnpackApp(r) => (r, &app_dir, "/lib/my_app/ebin/my_app.beam", b"BEAM"),
            _ => continue,
        };
        let start = region.offset as usize;
        let end = start + region.length as usize;
        let (entries, placements) = unpack_zstd(&image[start..end], dir).unwrap();
        assert_eq!(placements.len(), 1);
        assert_eq!(placements[0].path, format!("{dir}{path}"));
        assert_eq!(placements[0].mode, Some(0o644));
        assert_eq!(entries[placements[0].index].data, content);
    }
}
