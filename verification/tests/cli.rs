use console::strip_ansi_codes;
use queso::cli::{align, format_detail, format_header, format_status, header_line};

#[test]
fn test_status_output() {
    let output = strip_ansi_codes(&format_status("Building", "my_app v1.0.0")).to_string();
    assert_eq!(output, "       Building my_app v1.0.0");
}

#[test]
fn test_detail_output() {
    let output = strip_ansi_codes(&format_detail("OTP", "OTP-28.4.1")).to_string();
    assert_eq!(output, "            OTP OTP-28.4.1");
}

#[test]
fn test_header_output() {
    let output = strip_ansi_codes(&format_header("x86_64-windows")).to_string();
    assert_eq!(output, "\n  ── x86_64-windows ────────────────────────");
}

#[test]
fn styles() {
    console::set_colors_enabled(true);
    assert_eq!(format_status("A", "b"), "\x1b[38;5;13m\x1b[1m              A\x1b[0m b");
    assert_eq!(format_detail("A", "b"), "\x1b[2m              A\x1b[0m b");
    assert!(format_header("t").starts_with("\n\x1b[2m  ── t "));
    console::set_colors_enabled(false);
    assert_eq!(format_status("A", "b"), "              A b");
    assert_eq!(format_detail("A", "b"), "              A b");
}

#[test]
fn alignment() {
    assert_eq!(align(""), " ".repeat(15));
    assert_eq!(align("é"), format!("{}é", " ".repeat(14)));
    assert_eq!(align("exactly_fifteen"), "exactly_fifteen");
    assert_eq!(align("more_than_fifteen"), "more_than_fifteen");
}

#[test]
fn header_lines() {
    assert_eq!(header_line("t", 41), "  ── t ───");
    assert_eq!(header_line("t", 44), "  ── t ");
    assert_eq!(header_line("t", 100), "  ── t ");
}
