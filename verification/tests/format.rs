use queso::codec;
use queso::format::{Metadata, MetadataError, Trailer, TrailerError, TRAILER_MAGIC, TRAILER_SIZE};

const TRAILER_SIZE_U64: u64 = TRAILER_SIZE as u64;

fn sample_metadata() -> Metadata {
    Metadata {
        name: "my_app".into(),
        version: "1.0.0".into(),
        entry_module: "my_app@cli".into(),
        erts_version: "15.0".into(),
        erts_hash: "abc123".into(),
        app_hash: "def456".into(),
        boot_path: "releases/28/no_dot_erlang".into(),
    }
}

fn trailer(erts_offset: u64, app_offset: u64, meta_offset: u64) -> Trailer {
    Trailer { erts_offset, app_offset, meta_offset }
}

#[test]
fn test_trailer_size() {
    assert_eq!(TRAILER_SIZE, 3 * size_of::<u64>() + TRAILER_MAGIC.len());
}

#[test]
fn format_test_trailer_size() {
    let mut buf = Vec::new();
    trailer(1, 2, 3).write(&mut buf);
    assert_eq!(buf.len(), TRAILER_SIZE);
    assert_eq!(TRAILER_SIZE, 3 * size_of::<u64>() + TRAILER_MAGIC.len());
    assert_eq!(&TRAILER_MAGIC, b"QUESO\x00\x01\x02");
}

#[test]
fn test_trailer_roundtrip() {
    let mut buf = Vec::with_capacity(TRAILER_SIZE);
    trailer(1024, 2048, 4096).write(&mut buf);

    let read_back = Trailer::read(&buf).unwrap();
    assert_eq!(read_back.erts_offset, 1024);
    assert_eq!(read_back.app_offset, 2048);
    assert_eq!(read_back.meta_offset, 4096);
}

#[test]
fn trailer_round_trip_at_the_limits() {
    let offsets = [0, 1, 255, 256, 65_535, 1 << 32, u64::MAX - 1, u64::MAX];
    for a in offsets {
        for b in offsets {
            for c in offsets {
                let mut buf = b"what stands before".to_vec();
                trailer(a, b, c).write(&mut buf);
                assert_eq!(Trailer::read(&buf), Ok(trailer(a, b, c)));
            }
        }
    }
}

#[test]
fn trailer_bytes_are_little_endian() {
    let mut buf = Vec::new();
    trailer(0x0102, 0x0304_0506, 0x0708_090A_0B0C_0D0E).write(&mut buf);
    assert_eq!(
        buf,
        [
            0x02, 0x01, 0, 0, 0, 0, 0, 0, 0x06, 0x05, 0x04, 0x03, 0, 0, 0, 0, 0x0E, 0x0D, 0x0C,
            0x0B, 0x0A, 0x09, 0x08, 0x07, b'Q', b'U', b'E', b'S', b'O', 0, 1, 2,
        ]
    );
}

#[test]
fn trailer_reads_only_the_end() {
    let mut tail = Vec::new();
    trailer(7, 8, 9).write(&mut tail);
    let mut whole = vec![0xAB; 100];
    whole.extend_from_slice(&tail);
    assert_eq!(Trailer::read(&whole), Trailer::read(&tail));
}

#[test]
fn test_trailer_invalid_magic() {
    let mut buf = Vec::new();
    buf.extend_from_slice(&100u64.to_le_bytes());
    buf.extend_from_slice(&200u64.to_le_bytes());
    buf.extend_from_slice(&300u64.to_le_bytes());
    buf.extend_from_slice(b"NOTQUESO");

    assert!(Trailer::read(&buf).is_err());
}

#[test]
fn format_test_trailer_invalid_magic() {
    let mut buf = Vec::new();
    buf.extend_from_slice(&100u64.to_le_bytes());
    buf.extend_from_slice(&200u64.to_le_bytes());
    buf.extend_from_slice(&300u64.to_le_bytes());
    buf.extend_from_slice(b"NOTQUESO");

    let err = Trailer::read(&buf).unwrap_err();
    assert_eq!(err, TrailerError::MissingMagic);
    assert_eq!(err.to_string(), "invalid binary: missing queso magic trailer");
}

#[test]
fn trailer_too_small() {
    for len in [0, 1, TRAILER_SIZE - 1] {
        let err = Trailer::read(&vec![0; len]).unwrap_err();
        assert_eq!(err.to_string(), "file too small to contain trailer");
    }
}

#[test]
fn test_validate_accepts_well_formed() {
    trailer(0, 100, 200).validate(200 + TRAILER_SIZE_U64).unwrap();
}

#[test]
fn test_validate_rejects_app_before_erts() {
    assert!(trailer(100, 50, 200).validate(200 + TRAILER_SIZE_U64).is_err());
}

#[test]
fn test_validate_rejects_meta_before_app() {
    assert!(trailer(0, 200, 100).validate(200 + TRAILER_SIZE_U64).is_err());
}

#[test]
fn test_validate_rejects_zero_length_erts() {
    assert!(trailer(100, 100, 200).validate(200 + TRAILER_SIZE_U64).is_err());
}

#[test]
fn test_validate_rejects_zero_length_app() {
    assert!(trailer(0, 100, 100).validate(200 + TRAILER_SIZE_U64).is_err());
}

#[test]
fn test_validate_rejects_meta_past_end() {
    assert!(trailer(0, 100, 200).validate(200).is_err());
}

#[test]
fn test_validate_rejects_file_shorter_than_trailer() {
    assert!(trailer(0, 100, 200).validate(TRAILER_SIZE_U64 - 1).is_err());
}

#[test]
fn test_validate_rejects_offset_overflow() {
    assert!(trailer(0, 100, u64::MAX).validate(u64::MAX).is_err());
}

#[test]
fn test_validate_cases() {
    let cases: &[(&str, Trailer, u64, Option<&str>)] = &[
        ("well-formed", trailer(0, 100, 200), 200 + TRAILER_SIZE_U64, None),
        (
            "app before erts",
            trailer(100, 50, 200),
            200 + TRAILER_SIZE_U64,
            Some("trailer: erts_offset must be less than app_offset"),
        ),
        (
            "meta before app",
            trailer(0, 200, 100),
            200 + TRAILER_SIZE_U64,
            Some("trailer: app_offset must be less than meta_offset"),
        ),
        (
            "zero-length erts",
            trailer(100, 100, 200),
            200 + TRAILER_SIZE_U64,
            Some("trailer: erts_offset must be less than app_offset"),
        ),
        (
            "zero-length app",
            trailer(0, 100, 100),
            200 + TRAILER_SIZE_U64,
            Some("trailer: app_offset must be less than meta_offset"),
        ),
        (
            "meta past end",
            trailer(0, 100, 200),
            200,
            Some("trailer: metadata extends past end of file"),
        ),
        (
            "file shorter than trailer",
            trailer(0, 100, 200),
            TRAILER_SIZE_U64 - 1,
            Some("binary too small to contain trailer"),
        ),
        (
            "offset overflow",
            trailer(0, 100, u64::MAX),
            u64::MAX,
            Some("trailer: meta_offset + trailer size overflows"),
        ),
    ];

    for (_label, trailer, file_len, expected_err) in cases {
        let result = trailer.validate(*file_len);
        match expected_err {
            None => assert!(result.is_ok()),
            Some(msg) => assert_eq!(result.unwrap_err().to_string(), *msg),
        }
    }
}

#[test]
fn test_metadata_validate_rejects_bad_entry_module() {
    let mut m = sample_metadata();
    m.entry_module = "foo','bar".into();
    assert!(m.validate().is_err());
}

#[test]
fn test_metadata_validate_rejects_path_traversal() {
    let mut m = sample_metadata();
    m.boot_path = "releases/../../etc/passwd".into();
    assert!(m.validate().is_err());
}

#[test]
fn test_metadata_validate_cases() {
    type Mutate = fn(&mut Metadata);
    let cases: &[(&str, Mutate, Option<&str>)] = &[
        ("baseline", |_| {}, None),
        ("empty name", |m| m.name = String::new(), Some("metadata: name is empty")),
        ("name is dotdot", |m| m.name = "..".into(), Some("metadata: name is '.' or '..'")),
        (
            "name has slash",
            |m| m.name = "foo/bar".into(),
            Some("metadata: name contains path separator"),
        ),
        (
            "name has backslash",
            |m| m.name = "foo\\bar".into(),
            Some("metadata: name contains path separator"),
        ),
        ("empty version", |m| m.version = String::new(), Some("metadata: version is empty")),
        (
            "empty erts_version",
            |m| m.erts_version = String::new(),
            Some("metadata: erts_version is empty"),
        ),
        (
            "empty entry_module",
            |m| m.entry_module = String::new(),
            Some("metadata: entry_module is empty"),
        ),
        (
            "bad entry_module chars",
            |m| m.entry_module = "foo','bar".into(),
            Some("metadata: entry_module contains disallowed characters"),
        ),
        ("empty boot_path", |m| m.boot_path = String::new(), Some("metadata: boot_path is empty")),
        (
            "absolute boot_path",
            |m| m.boot_path = "/etc/passwd".into(),
            Some("metadata: boot_path must be relative"),
        ),
        (
            "boot_path traversal",
            |m| m.boot_path = "releases/../../etc/passwd".into(),
            Some("metadata: boot_path contains '.' or '..' component"),
        ),
    ];

    for (_label, mutate, expected_err) in cases {
        let mut m = sample_metadata();
        mutate(&mut m);
        let result = m.validate();
        match expected_err {
            None => assert!(result.is_ok()),
            Some(msg) => assert_eq!(result.unwrap_err().to_string(), *msg),
        }
    }
}

#[test]
fn metadata_faults_come_in_order() {
    let mut m = sample_metadata();
    m.boot_path = String::new();
    m.entry_module = "é".into();
    assert_eq!(m.validate(), Err(MetadataError::EntryModuleCharacters));
    m.erts_version = "..".into();
    assert_eq!(m.validate().unwrap_err().to_string(), "metadata: erts_version is '.' or '..'");
    m.version = "a\\b".into();
    assert_eq!(
        m.validate().unwrap_err().to_string(),
        "metadata: version contains path separator"
    );
    m.name = ".".into();
    assert_eq!(m.validate().unwrap_err().to_string(), "metadata: name is '.' or '..'");
}

#[test]
fn boot_path_with_backslashes() {
    let mut m = sample_metadata();
    m.boot_path = "releases\\..\\x".into();
    assert_eq!(m.validate(), Err(MetadataError::BootPathDots));
    m.boot_path = "releases/./x".into();
    assert_eq!(m.validate(), Err(MetadataError::BootPathDots));
    m.boot_path = "releases/.../x..".into();
    assert!(m.validate().is_ok());
}

#[test]
fn test_metadata_bincode_roundtrip() {
    let m = sample_metadata();
    let bytes = codec::encode(&m);
    let decoded = codec::decode(&bytes).unwrap();
    assert_eq!(decoded.name, m.name);
    assert_eq!(decoded.version, m.version);
    assert_eq!(decoded.entry_module, m.entry_module);
    assert_eq!(decoded.erts_version, m.erts_version);
    assert_eq!(decoded.erts_hash, m.erts_hash);
    assert_eq!(decoded.app_hash, m.app_hash);
    assert_eq!(decoded.boot_path, m.boot_path);
}

#[test]
fn metadata_bytes() {
    let m = Metadata {
        name: "ab".into(),
        version: "".into(),
        entry_module: "é".into(),
        erts_version: "1".into(),
        erts_hash: "x".repeat(251),
        app_hash: "y".repeat(250),
        boot_path: "z".repeat(65_536),
    };
    let mut expected = vec![2, b'a', b'b', 0, 2, 0xC3, 0xA9, 1, b'1', 251, 251, 0];
    expected.extend(std::iter::repeat(b'x').take(251));
    expected.push(250);
    expected.extend(std::iter::repeat(b'y').take(250));
    expected.extend([252, 0, 0, 1, 0]);
    expected.extend(std::iter::repeat(b'z').take(65_536));
    let bytes = codec::encode(&m);
    assert_eq!(bytes, expected);

    let mut longer = bytes.clone();
    longer.extend_from_slice(b"more");
    assert_eq!(codec::decode(&longer).unwrap().boot_path, m.boot_path);
    assert_eq!(codec::decode(&longer).unwrap().erts_hash, m.erts_hash);
}

#[test]
fn metadata_that_does_not_decode() {
    let good = codec::encode(&sample_metadata());
    for cut in 0..good.len() {
        assert!(codec::decode(&good[..cut]).is_none());
    }
    let mut bad = good.clone();
    bad[1] = 0xFF;
    assert!(codec::decode(&bad).is_none());
    for mark in [254, 255] {
        let mut bad = good.clone();
        bad[0] = mark;
        assert!(codec::decode(&bad).is_none());
    }
    let mut bad = vec![253, 0xFF, 0xFF, 0xFF, 0xFF, 0xFF, 0xFF, 0xFF, 0x7F];
    bad.extend_from_slice(&good);
    assert!(codec::decode(&bad).is_none());
}

#[test]
fn metadata_lengths_may_be_longer_than_needed() {
    let mut bytes = Vec::new();
    for (i, text) in ["a", "b", "c", "d", "e", "f", "g"].iter().enumerate() {
        match i % 4 {
            0 => bytes.push(1),
            1 => bytes.extend([251, 1, 0]),
            2 => bytes.extend([252, 1, 0, 0, 0]),
            _ => bytes.extend([253, 1, 0, 0, 0, 0, 0, 0, 0]),
        }
        bytes.extend_from_slice(text.as_bytes());
    }
    let m = codec::decode(&bytes).unwrap();
    assert_eq!(m.name, "a");
    assert_eq!(m.erts_version, "d");
    assert_eq!(m.boot_path, "g");
}

#[test]
fn test_trailer_metadata_combined_read() {
    let m = sample_metadata();
    let meta_bytes = codec::encode(&m);

    let erts = b"ERTS_DATA";
    let app = b"APP_DATA";
    let erts_offset = 0u64;
    let app_offset = erts_offset + u64::try_from(erts.len()).unwrap();
    let meta_offset = app_offset + u64::try_from(app.len()).unwrap();

    let mut buf = Vec::new();
    buf.extend_from_slice(erts);
    buf.extend_from_slice(app);
    buf.extend_from_slice(&meta_bytes);
    trailer(erts_offset, app_offset, meta_offset).write(&mut buf);

    let file_len = u64::try_from(buf.len()).unwrap();
    let read_trailer = Trailer::read(&buf).unwrap();
    read_trailer.validate(file_len).unwrap();

    let meta_end = file_len - TRAILER_SIZE_U64;
    let meta_start = usize::try_from(read_trailer.meta_offset).unwrap();
    let meta_len = usize::try_from(meta_end - read_trailer.meta_offset).unwrap();
    let meta_slice = &buf[meta_start..meta_start + meta_len];
    let decoded = codec::decode(meta_slice).unwrap();
    decoded.validate().unwrap();
    assert_eq!(decoded.name, m.name);
    assert_eq!(decoded.boot_path, m.boot_path);
    assert_eq!(decoded.entry_module, m.entry_module);
    assert_eq!(decoded.erts_hash, m.erts_hash);
}

#[test]
fn format_test_trailer_metadata_combined_read() {
    let m = sample_metadata();
    let buf = queso::assemble_binary(b"", b"ERTS_DATA", b"APP_DATA", &m);
    let read_trailer = Trailer::read(&buf).unwrap();
    assert_eq!(read_trailer, trailer(0, 9, 17));
    read_trailer.validate(buf.len() as u64).unwrap();
    let decoded = codec::decode(&buf[17..buf.len() - TRAILER_SIZE]).unwrap();
    decoded.validate().unwrap();
    assert_eq!(decoded.name, m.name);
    assert_eq!(decoded.boot_path, m.boot_path);
    assert_eq!(decoded.entry_module, m.entry_module);
    assert_eq!(decoded.erts_hash, m.erts_hash);
}

#[test]
fn test_assemble_binary_creates_valid_output() {
    let metadata = Metadata {
        name: "my_app".into(),
        version: "1.2.3".into(),
        entry_module: "my_app@cli".into(),
        erts_version: "15.2.1".into(),
        erts_hash: "abc123".into(),
        app_hash: "def456".into(),
        boot_path: "releases/28/no_dot_erlang".into(),
    };

    let data = queso::assemble_binary(b"FAKE_EXE", b"ERTS_DATA", b"APP_DATA", &metadata);

    assert!(data.starts_with(b"FAKE_EXE"));

    let trailer = &data[data.len() - TRAILER_SIZE..];
    assert_eq!(&trailer[24..32], &TRAILER_MAGIC);

    let erts_offset =
        usize::try_from(u64::from_le_bytes(trailer[0..8].try_into().unwrap())).unwrap();
    let app_offset =
        usize::try_from(u64::from_le_bytes(trailer[8..16].try_into().unwrap())).unwrap();
    let meta_offset =
        usize::try_from(u64::from_le_bytes(trailer[16..24].try_into().unwrap())).unwrap();

    assert_eq!(erts_offset, b"FAKE_EXE".len());
    assert_eq!(&data[erts_offset..app_offset], b"ERTS_DATA");
    assert_eq!(&data[app_offset..meta_offset], b"APP_DATA");

    let meta_bytes = &data[meta_offset..data.len() - TRAILER_SIZE];
    let parsed = codec::decode(meta_bytes).unwrap();
    assert_eq!(parsed.name, "my_app");
    assert_eq!(parsed.erts_hash, "abc123");
}

#[test]
fn accepted_entry_modules() {
    let metadata = |module: &str| queso::Metadata {
        name: "a".into(),
        version: "1".into(),
        entry_module: queso::project::Entrypoint::new(module).entry_module,
        erts_version: "16".into(),
        erts_hash: "h".into(),
        app_hash: "h".into(),
        boot_path: "releases/28/start".into(),
    };
    for module in ["a", "my_app.cli", "A9@b", "..."] {
        assert!(metadata(module).validate().is_ok(), "{module}");
    }
    for module in ["", "a b", "a-b", "a'", "\u{e9}"] {
        assert!(metadata(module).validate().is_err(), "{module}");
    }
}

#[test]
fn entry_modules_that_are_accepted() {
    for (module, fine) in
        [("app", true), ("my.app@x_1", true), (".", true), ("", false), ("a-b", false), ("é", false)]
    {
        let entry = queso::project::Entrypoint::new(module);
        assert_eq!(queso::format::validate_entry_module(&entry.entry_module).is_ok(), fine);
    }
}
