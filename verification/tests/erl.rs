use queso::erl::{
    check_strip_reply, get_otp_version_request, otp_version_of, parse_app_entries, read_reply,
    strip_beam_files, strip_beam_request, stripped_path, walk_app_request, ReplyError,
};
use queso::strip::{collect_beam_files, is_beam_file};

fn strings(items: &[&str]) -> Vec<String> {
    items.iter().map(|s| s.to_string()).collect()
}

#[test]
fn requests() {
    assert_eq!(get_otp_version_request(), "get_otp_version.\n");
    assert_eq!(walk_app_request("/a/b"), "{parse_app_files, \"/a/b\"}.\n");
    assert_eq!(
        walk_app_request("C:\\x \"y\""),
        "{parse_app_files, \"C:\\\\x \\\"y\\\"\"}.\n"
    );
    assert_eq!(
        strip_beam_request("/tmp/1", &strings(&["a.beam", "b\\c.beam"])),
        "{strip_beam, \"/tmp/1\", [\"a.beam\", \"b\\\\c.beam\"]}.\n"
    );
    assert_eq!(strip_beam_request("/t", &Vec::new()), "{strip_beam, \"/t\", []}.\n");
    assert_eq!(stripped_path("/tmp/1", 0), "/tmp/1/0");
    assert_eq!(stripped_path("/tmp/1", 1207), "/tmp/1/1207");
}

#[test]
fn replies() {
    assert_eq!(read_reply("28.4.1\r\n", 8).unwrap(), "28.4.1");
    assert_eq!(read_reply("  ok \n", 6).unwrap(), "  ok");
    assert_eq!(read_reply("\n", 1).unwrap(), "");
    let err = read_reply("", 0).unwrap_err();
    assert_eq!(err.to_string(), "escript process exited unexpectedly");
    let err = read_reply("ERROR: no such file\n", 20).unwrap_err();
    assert!(matches!(err, ReplyError::Reported(_)));
    assert_eq!(err.to_string(), "escript error: no such file");
    assert_eq!(read_reply("ERROR: \n", 8).unwrap(), "ERROR:");
}

#[test]
fn versions_of_otp() {
    assert_eq!(otp_version_of("28.4.1".into()).unwrap(), "28.4.1");
    let err = otp_version_of(String::new()).unwrap_err();
    assert_eq!(err.to_string(), "could not determine OTP version from escript");
}

#[test]
fn replies_to_stripping() {
    assert!(check_strip_reply("ok".into()).is_ok());
    let err = check_strip_reply("nope".into()).unwrap_err();
    assert_eq!(err.to_string(), "unexpected strip_beam response: nope");
}

#[test]
fn test_walk_app_dependencies_empty_dir() {
    let result = parse_app_entries("").unwrap();
    assert!(result.get("").is_none());
    assert!(!result.contains_key("kernel"));
}

#[test]
fn test_walk_app_dependencies_with_deps() {
    let result = parse_app_entries("my_app:kernel,stdlib").unwrap();
    assert_eq!(
        result.get("my_app").unwrap(),
        &vec!["kernel".to_string(), "stdlib".to_string()]
    );
}

#[test]
fn app_entries() {
    let graph = parse_app_entries(" a:b,c ; ;b:;\u{3000}c:a:x,,y\t;a:z").unwrap();
    assert_eq!(graph.get("a").unwrap(), &strings(&["z"]));
    assert!(graph.get("b").unwrap().is_empty());
    assert_eq!(graph.get("c").unwrap(), &strings(&["a:x", "", "y"]));
    assert!(!graph.contains_key(""));
    let err = parse_app_entries("a:b; broken ;c").unwrap_err();
    assert_eq!(err.to_string(), "malformed app entry: broken");
}

#[test]
fn compiled_modules() {
    assert!(is_beam_file("lib/a/ebin/a.beam"));
    assert!(is_beam_file("a.b.beam"));
    assert!(is_beam_file("a.beam/"));
    assert!(is_beam_file("x/..beam"));
    assert!(!is_beam_file("ebin/.beam"));
    assert!(!is_beam_file("a.beam.txt"));
    assert!(!is_beam_file("beam"));
    assert!(!is_beam_file("a.beam/.."));
    assert!(!is_beam_file(""));
    assert_eq!(
        collect_beam_files(&strings(&["a/x.beam", "a/y.app", "b.beam"])),
        ["a/x.beam", "b.beam"]
    );
}

#[test]
fn test_empty_input() {
    assert!(strip_beam_files("/tmp/1", &Vec::new()).is_none());
}

#[test]
fn plan_of_stripping() {
    let plan = strip_beam_files("/tmp/1", &strings(&["a.beam", "b\\c.beam"])).unwrap();
    assert_eq!(
        plan.request,
        "{strip_beam, \"/tmp/1\", [\"a.beam\", \"b\\\\c.beam\"]}.\n"
    );
    let results: Vec<(&str, &str)> = plan
        .results
        .iter()
        .map(|r| (r.path.as_str(), r.stripped_path.as_str()))
        .collect();
    assert_eq!(results, [("a.beam", "/tmp/1/0"), ("b\\c.beam", "/tmp/1/1")]);
}
