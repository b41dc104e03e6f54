use queso::archive::{
    append_file, append_files, finish_archive, pack, placements, raw_placements,
    raw_source_placements, source_placements, text_placements, unpack_gzip, unpack_source,
    unpack_zip, unpack_zstd, zip_placements, ArchiveEntry, EntryKind, PackFile, UnpackError, ZipEntry, ZipUnpackError,
};
use queso::pack::{
    pack_launcher_source, source_pack_files, source_trigger_paths, SourceFile,
};
use std::io::Write;

fn entry(path: Option<&str>, kind: EntryKind) -> ArchiveEntry {
    ArchiveEntry {
        path: path.map(str::to_string),
        raw_path: path.map_or(b"d/\xFF/../f".to_vec(), |p| p.as_bytes().to_vec()),
        kind,
        mode: Some(0o755),
        data: b"x".to_vec(),
    }
}

#[test]
fn packed_files_are_unpacked() {
    let long = format!("deep/{}/{}", "d".repeat(90), "f".repeat(90));
    let files = vec![
        PackFile { path: "a.txt".into(), mode: 0o644, data: b"one" },
        PackFile { path: "bin/run".into(), mode: 0o755, data: b"" },
        PackFile { path: long.clone(), mode: 0o100644, data: &[7; 2000] },
        PackFile { path: "naïve/ü".into(), mode: 0o7777777, data: b"two" },
    ];
    for level in [1, 9, 22] {
        let bytes = pack(&files, level).unwrap();
        let (entries, placements) = unpack_zstd(&bytes, "/dest").unwrap();
        assert_eq!(placements.len(), files.len());
        for (i, p) in placements.iter().enumerate() {
            assert_eq!(p.index, i);
            assert_eq!(p.kind, EntryKind::File);
            assert_eq!(p.mode, Some(files[i].mode));
            assert_eq!(p.path, format!("/dest/{}", files[i].path));
            assert_eq!(entries[i].path.as_deref(), Some(files[i].path.as_str()));
            assert_eq!(entries[i].data, files[i].data);
        }
    }
}

#[test]
fn an_archive_without_files() {
    let bytes = pack(&Vec::new(), 3).unwrap();
    let (entries, placements) = unpack_zstd(&bytes, "/dest").unwrap();
    assert!(entries.is_empty());
    assert!(placements.is_empty());
}

#[test]
fn paths_and_levels_that_are_packed() {
    let long = [
        format!("{}/f", "d".repeat(120)),
        format!("./{}//f/", "d".repeat(120)),
        format!("{}/..x", "d".repeat(97)),
        format!("{}/.x", "d".repeat(98)),
        format!("{}é/é", "d".repeat(98)),
        "./".repeat(80),
    ];
    let short = ["a", "./a", "a//b/", ".", "x\\y"];
    for path in short.into_iter().chain(long.iter().map(String::as_str)) {
        let files = vec![PackFile { path: path.into(), mode: u32::MAX, data: b"x" }];
        assert!(!pack(&files, 3).unwrap().is_empty());
    }
    let files = vec![PackFile { path: "a".into(), mode: 0o644, data: b"x" }];
    for level in [i32::MIN, -1, 0, 1, 22, i32::MAX] {
        let (entries, _) = unpack_zstd(&pack(&files, level).unwrap(), "/dest").unwrap();
        assert_eq!(entries[0].data, b"x");
    }
}

#[test]
fn paths_that_are_not_packed() {
    for path in ["", "/abs", "a/../b", "..", "nul\0"] {
        let files = vec![PackFile { path: path.into(), mode: 0o644, data: b"x" }];
        assert!(pack(&files, 3).is_err());
    }
}

#[test]
fn placements_keep_kinds_and_modes() {
    let entries = vec![
        entry(Some("d/"), EntryKind::Directory),
        entry(Some("d/f"), EntryKind::File),
        entry(Some("link"), EntryKind::Other),
        entry(Some("."), EntryKind::Directory),
    ];
    let got = placements(&entries, "out").unwrap();
    assert_eq!(got.len(), 3);
    assert_eq!((got[0].path.as_str(), got[0].kind), ("out/d", EntryKind::Directory));
    assert_eq!((got[1].path.as_str(), got[1].kind), ("out/d/f", EntryKind::File));
    assert_eq!((got[2].path.as_str(), got[2].kind), ("out/link", EntryKind::Other));
    assert_eq!(got[1].mode, Some(0o755));

    let bad = vec![entry(Some("a"), EntryKind::File), entry(None, EntryKind::File)];
    assert!(matches!(placements(&bad, "out"), Err(UnpackError::NotUtf8)));
}

#[test]
fn paths_that_are_not_utf8() {
    let entries = vec![entry(Some("a"), EntryKind::File), entry(None, EntryKind::Directory)];
    let text = text_placements(&entries, "out");
    assert_eq!(text.len(), 1);
    assert_eq!((text[0].path.as_str(), text[0].index), ("out/a", 0));
    let raw = raw_placements(&entries, "out/");
    assert_eq!(raw.len(), 1);
    assert_eq!(raw[0].path, b"out/d/\xFF/f");
    assert_eq!((raw[0].kind, raw[0].mode, raw[0].index), (EntryKind::Directory, Some(0o755), 1));

    let source = source_placements(&entries, "out");
    assert_eq!(source.len(), 1);
    assert_eq!((source[0].path.as_str(), source[0].kind), ("out/a", EntryKind::File));
    let raw = raw_source_placements(&entries, "out");
    assert_eq!(raw.len(), 1);
    assert_eq!(raw[0].path, b"out/d/\xFF/../f");
    assert_eq!((raw[0].kind, raw[0].mode, raw[0].index), (EntryKind::Other, None, 1));

    let odd = |bytes: &[u8]| {
        let entry =
            ArchiveEntry { raw_path: bytes.to_vec(), ..entry(None, EntryKind::File) };
        let entries = vec![entry];
        let placed = raw_placements(&entries, "o").into_iter().map(|p| p.path).next();
        (placed, raw_source_placements(&entries, "o").remove(0).path)
    };
    assert_eq!(odd(b"/\xFF"), (Some(b"o/\xFF".to_vec()), b"/\xFF".to_vec()));
    assert_eq!(odd(b"./..\xFF"), (Some(b"o/..\xFF".to_vec()), b"o/./..\xFF".to_vec()));
    assert_eq!(odd(b"../."), (None, b"o/../.".to_vec()));
}

#[test]
fn an_archive_with_a_path_that_is_not_utf8() {
    let bytes = build_tar_gz_of(&[
        (b"plain", tar::EntryType::Regular, b"1"),
        (b"../d/\xC3\x28", tar::EntryType::Regular, b"2"),
    ]);
    let unpacked = unpack_gzip(&bytes, "/cache", true).unwrap();
    assert_eq!(unpacked.placements.len(), 1);
    assert_eq!(unpacked.placements[0].path, "/cache/plain");
    assert_eq!(unpacked.raw_placements.len(), 1);
    let raw = &unpacked.raw_placements[0];
    assert_eq!(raw.path, b"/cache/d/\xC3\x28");
    assert_eq!((raw.kind, raw.mode, raw.index), (EntryKind::File, Some(0o750), 1));
    assert_eq!(unpacked.entries[1].raw_path, b"../d/\xC3\x28");
    assert_eq!(unpacked.entries[0].raw_path, b"plain");
    assert_eq!(unpacked.entries[1].data, b"2");
    assert!(matches!(unpack_gzip(&bytes, "/cache", false), Err(UnpackError::NotUtf8)));
}

fn build_tar_gz(entries: &[(&str, tar::EntryType, &[u8])]) -> Vec<u8> {
    let entries: Vec<(&[u8], tar::EntryType, &[u8])> =
        entries.iter().map(|(path, kind, data)| (path.as_bytes(), *kind, *data)).collect();
    build_tar_gz_of(&entries)
}

fn build_tar_gz_of(entries: &[(&[u8], tar::EntryType, &[u8])]) -> Vec<u8> {
    let encoder = flate2::write::GzEncoder::new(Vec::new(), flate2::Compression::default());
    let mut builder = tar::Builder::new(encoder);
    for (path, kind, data) in entries {
        let mut header = tar::Header::new_gnu();
        header.set_size(data.len() as u64);
        header.set_mode(0o750);
        header.set_entry_type(*kind);
        header.as_mut_bytes()[..path.len()].copy_from_slice(path);
        header.set_cksum();
        builder.append(&header, *data).unwrap();
    }
    builder.into_inner().unwrap().finish().unwrap()
}

#[test]
fn a_runtime_in_tar_gz() {
    let bytes = build_tar_gz(&[
        ("erts-16.3/", tar::EntryType::Directory, b""),
        ("erts-16.3/bin/erl", tar::EntryType::Regular, b"#!"),
        ("../../etc/x", tar::EntryType::Regular, b"y"),
        ("link", tar::EntryType::Symlink, b""),
    ]);
    let unpacked = unpack_gzip(&bytes, "/cache", false).unwrap();
    let (entries, placements) = (unpacked.entries, unpacked.placements);
    assert!(unpacked.raw_placements.is_empty());
    let got: Vec<(&str, EntryKind)> = placements.iter().map(|p| (p.path.as_str(), p.kind)).collect();
    assert_eq!(
        got,
        [
            ("/cache/erts-16.3", EntryKind::Directory),
            ("/cache/erts-16.3/bin/erl", EntryKind::File),
            ("/cache/etc/x", EntryKind::File),
            ("/cache/link", EntryKind::Other),
        ]
    );
    assert_eq!(placements[1].mode, Some(0o750));
    assert_eq!(entries[1].data, b"#!");
    assert!(matches!(unpack_gzip(b"junk", "/cache", true), Err(UnpackError::Unreadable(_))));
}

fn build_zip(entries: &[(&str, Option<&[u8]>)]) -> Vec<u8> {
    let mut writer = zip::ZipWriter::new(std::io::Cursor::new(Vec::new()));
    let options = zip::write::SimpleFileOptions::default();
    for (path, data) in entries {
        match data {
            Some(data) => {
                writer.start_file(*path, options).unwrap();
                writer.write_all(data).unwrap();
            }
            None => writer.add_directory(*path, options).unwrap(),
        }
    }
    writer.finish().unwrap().into_inner()
}

#[test]
fn a_runtime_in_zip() {
    let bytes = build_zip(&[
        ("erts-16.3/", None),
        ("erts-16.3/bin/erl.exe", Some(b"MZ")),
        ("../outside", Some(b"no")),
        ("lib/a/../b.txt", Some(b"yes")),
    ]);
    let (entries, placements) = unpack_zip(&bytes, "/cache").unwrap();
    assert_eq!(entries.len(), 4);
    assert!(entries[2].path.is_none());
    assert_eq!(entries[2].name.as_deref(), Some("../outside"));
    assert_eq!(entries[3].name.as_deref(), Some("lib/a/../b.txt"));
    let got: Vec<(usize, &str, EntryKind)> =
        placements.iter().map(|p| (p.index, p.path.as_str(), p.kind)).collect();
    assert_eq!(
        got,
        [
            (0, "/cache/erts-16.3", EntryKind::Directory),
            (1, "/cache/erts-16.3/bin/erl.exe", EntryKind::File),
            (3, "/cache/lib/b.txt", EntryKind::File),
        ]
    );
    assert_eq!(entries[1].data.as_deref(), Some(&b"MZ"[..]));
    assert!(placements.iter().all(|p| p.mode.is_none()));
    assert!(matches!(unpack_zip(b"junk", "/cache"), Err(ZipUnpackError::Unreadable(_))));
}

#[test]
fn a_zip_with_damage() {
    let path = |s: &str| Some(s.to_string());
    let fine = vec![
        ZipEntry { name: None, path: None, is_dir: false, data: None },
        ZipEntry { name: None, path: path("d"), is_dir: true, data: None },
        ZipEntry { name: None, path: path("f"), is_dir: false, data: Some(vec![1]) },
    ];
    let got = zip_placements(&fine, "o").unwrap();
    assert_eq!(got.len(), 2);
    assert_eq!((got[0].index, got[0].path.as_str()), (1, "o/d"));
    assert_eq!((got[1].index, got[1].path.as_str()), (2, "o/f"));
    let bad = vec![ZipEntry { name: None, path: path("f"), is_dir: false, data: None }];
    assert!(matches!(zip_placements(&bad, "o"), Err(ZipUnpackError::Damaged)));
}

#[test]
fn launcher_source_comes_back() {
    let files = vec![
        SourceFile { relative: "launcher/Cargo.toml".into(), data: b"[package]".to_vec() },
        SourceFile { relative: "launcher/src/main.rs".into(), data: b"fn main() {}".to_vec() },
        SourceFile { relative: "shared/format.rs".into(), data: b"".to_vec() },
    ];
    let bytes = pack_launcher_source(&files).unwrap();
    let unpacked = unpack_source(&bytes, "/build", true).unwrap();
    let (entries, places) = (unpacked.entries, unpacked.placements);
    assert!(unpacked.raw_placements.is_empty());
    assert_eq!(places.len(), files.len());
    for (i, p) in places.iter().enumerate() {
        assert_eq!(p.path, format!("/build/{}", files[i].relative));
        assert_eq!((p.index, p.kind, p.mode), (i, EntryKind::File, None));
        assert_eq!(entries[i].data, files[i].data);
        assert_eq!(entries[i].mode, Some(0o644));
    }
}

#[test]
fn launcher_source_paths() {
    assert_eq!(
        source_trigger_paths("/repo"),
        [
            "/repo/launcher/Cargo.toml",
            "/repo/launcher/Cargo.lock",
            "/repo/launcher/src",
            "/repo/shared",
        ]
    );
}

#[test]
fn nothing_is_placed_outside() {
    let entries = vec![
        entry(Some("../../etc/passwd"), EntryKind::File),
        entry(Some("/abs/./x"), EntryKind::File),
        entry(Some("lib/a-b:c.txt"), EntryKind::File),
        entry(Some(".."), EntryKind::Directory),
    ];
    let placed = placements(&entries, "/dest").unwrap();
    let paths: Vec<(usize, &str)> =
        placed.iter().map(|p| (p.index, p.path.as_str())).collect();
    assert_eq!(
        paths,
        [(0, "/dest/etc/passwd"), (1, "/dest/abs/x"), (2, "/dest/lib/a-b:c.txt")]
    );
}

#[test]
fn errors_of_packing_are_handed_on() {
    let failed = || std::io::Error::other("no room");
    let files = vec![PackFile { path: "a".into(), mode: 0o644, data: b"x" }];
    let message = |e: Option<std::io::Error>| e.unwrap().to_string();
    assert_eq!(message(append_file(Err(failed()), &files[0]).err()), "no room");
    assert_eq!(message(append_files(Err(failed()), &files).err()), "no room");
    assert_eq!(message(append_files(Err(failed()), &Vec::new()).err()), "no room");
    assert_eq!(message(finish_archive(Err(failed())).err()), "no room");
}

#[test]
fn launcher_source_as_it_is_packed() {
    let files = vec![SourceFile { relative: "shared/format.rs".into(), data: b"x".to_vec() }];
    let packed = source_pack_files(&files);
    assert_eq!(packed.len(), 1);
    assert_eq!((packed[0].path.as_str(), packed[0].mode), ("shared/format.rs", 0o644));
    assert_eq!(packed[0].data, b"x");

    let refused = vec![SourceFile { relative: "/abs".into(), data: b"x".to_vec() }];
    assert!(pack_launcher_source(&refused).is_err());
}

#[test]
fn names_in_a_zip_lead_to_places() {
    let names = ["a\\b.txt", "/abs/x", "./c//d", "e/../../f", "g/../h", "naïve/con.txt"];
    let entries: Vec<(&str, Option<&[u8]>)> = names.iter().map(|n| (*n, Some(&b"x"[..]))).collect();
    let (entries, placements) = unpack_zip(&build_zip(&entries), "/dest").unwrap();
    let read: Vec<&str> = entries.iter().map(|e| e.name.as_deref().unwrap()).collect();
    assert_eq!(read, names);
    let got: Vec<(usize, &str)> = placements.iter().map(|p| (p.index, p.path.as_str())).collect();
    assert_eq!(
        got,
        [
            (0, "/dest/a/b.txt"),
            (1, "/dest/abs/x"),
            (2, "/dest/c/d"),
            (4, "/dest/h"),
            (5, "/dest/naïve/con.txt"),
        ]
    );
}

#[test]
fn a_backslash_in_a_path_is_kept_or_turned() {
    let files = vec![PackFile { path: "a\\b/c".into(), mode: 0o644, data: b"x" }];
    let (entries, _) = unpack_zstd(&pack(&files, 3).unwrap(), "/dest").unwrap();
    let path = entries[0].path.as_deref().unwrap();
    assert!(path == "a\\b/c" || path == "a/b/c");
    assert_eq!(entries[0].data, b"x");
}
