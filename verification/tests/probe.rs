//! What `probe` reports.

use itsalive::probe::{
    json_string, knob_missing, probe_findings, render_json, render_lines, report,
    Finding,
};
use itsalive::Error;

fn sample_findings() -> Vec<Finding> {
    vec![
        Finding::ok(
            "bitstream",
            "fabric in user mode (GPI 0x00000000)".to_string(),
        ),
        Finding::failed("adv7513", &Error::NoAdv7513),
        Finding::ok(
            "fb_mode",
            "/sys/module/MiSTer_fb/parameters/mode present".to_string(),
        ),
    ]
}

#[test]
fn probe_prints_one_line_per_finding() {
    let lines = render_lines(&sample_findings());
    let lines: Vec<&str> = lines.lines().collect();
    assert_eq!(lines.len(), 3);
    assert!(lines[0].starts_with("ok   bitstream: "));
    assert!(lines[1].starts_with("FAIL adv7513: "));
    assert!(lines[1].contains("no ADV7513 found"));
}

#[test]
fn probe_json_is_one_object_with_the_first_failing_code() {
    let json = render_json(&sample_findings(), 12);
    assert_eq!(
        json,
        "{\"findings\":[\
{\"name\":\"bitstream\",\"ok\":true,\"detail\":\"fabric in user mode (GPI 0x00000000)\",\"exit_code\":0},\
{\"name\":\"adv7513\",\"ok\":false,\"detail\":\"no ADV7513 found at 0x39 on any i2c bus\",\"exit_code\":12},\
{\"name\":\"fb_mode\",\"ok\":true,\"detail\":\"/sys/module/MiSTer_fb/parameters/mode present\",\"exit_code\":0}\
],\"exit_code\":12}"
    );
}

#[test]
fn json_strings_are_escaped() {
    assert_eq!(json_string("plain"), "\"plain\"");
    assert_eq!(json_string("a\"b"), "\"a\\\"b\"");
    assert_eq!(json_string("a\\b"), "\"a\\\\b\"");
    assert_eq!(json_string("a\nb\tc\rd"), "\"a\\nb\\tc\\rd\"");
    assert_eq!(json_string("\u{8}\u{c}"), "\"\\b\\f\"");
    assert_eq!(json_string("\u{1}\u{1f}"), "\"\\u0001\\u001f\"");
    assert_eq!(json_string("Eingabe/Ausgabe"), "\"Eingabe/Ausgabe\"");
    assert_eq!(json_string("ä"), "\"ä\"");
}

#[test]
fn a_hostile_detail_cannot_break_the_json() {
    let err = Error::Usage("say \"hi\"\\".to_string());
    let json = render_json(&[Finding::failed("bitstream", &err)], 2);
    assert!(json.contains("\\\"hi\\\"\\\\"), "{json}");
    assert_eq!(json.matches('{').count(), 2);
}

#[test]
fn a_clean_probe_has_no_failures_and_no_code() {
    let findings = vec![Finding::ok("bitstream", "fabric in user mode".to_string())];
    assert_eq!(
        render_json(&findings, 0),
        "{\"findings\":[{\"name\":\"bitstream\",\"ok\":true,\"detail\":\"fabric in user mode\",\"exit_code\":0}],\"exit_code\":0}"
    );
}

#[test]
fn a_report_has_three_findings_and_the_first_error() {
    let (findings, first) = probe_findings(Ok(0x0001_ABCD), Ok((0x39, 2)), Ok(()));
    assert!(first.is_none());
    assert_eq!(
        render_lines(&findings),
        "ok   bitstream: fabric in user mode (GPI 0x0001ABCD)\n\
ok   adv7513: ADV7513 at 0x39 on /dev/i2c-2\n\
ok   fb_mode: /sys/module/MiSTer_fb/parameters/mode present"
    );

    let (findings, first) = probe_findings(
        Ok(0x8000_0000),
        Err(Error::AmbiguousBus(vec![0, 1])),
        Ok(()),
    );
    assert_eq!(first.map(|e| e.exit_code()), Some(10));
    let codes: Vec<i32> = findings.iter().map(|f| f.code).collect();
    assert_eq!(codes, vec![10, 13, 0]);
    let passed: Vec<bool> = findings.iter().map(|f| f.ok).collect();
    assert_eq!(passed, vec![false, false, true]);

    let missing = knob_missing(std::io::Error::from_raw_os_error(libc::ENOENT));
    match &missing {
        Error::Io { what, .. } => {
            assert_eq!(what, "stat /sys/module/MiSTer_fb/parameters/mode")
        }
        other => panic!("expected Io, got {other:?}"),
    }
    let (findings, first) = probe_findings(Ok(0), Ok((0x39, 0)), Err(missing));
    assert_eq!(first.map(|e| e.exit_code()), Some(14));
    assert_eq!(findings[2].name, "fb_mode");
    assert!(!findings[2].ok);
}

#[test]
fn no_findings_render_to_nothing() {
    assert_eq!(render_lines(&[]), "");
    assert_eq!(
        render_json(&[], -1),
        "{\"findings\":[],\"exit_code\":-1}"
    );
}

/// What a reader makes of a literal, or nothing if it is not one.
fn read_back(literal: &str) -> Option<String> {
    let mut chars = literal.chars();
    if chars.next() != Some('"') {
        return None;
    }
    let mut out = String::new();
    loop {
        match chars.next()? {
            '"' => {
                return if chars.next().is_none() {
                    Some(out)
                } else {
                    None
                }
            }
            '\\' => match chars.next()? {
                'n' => out.push('\n'),
                'r' => out.push('\r'),
                't' => out.push('\t'),
                'b' => out.push('\u{8}'),
                'f' => out.push('\u{c}'),
                'u' => {
                    let hex: String = [chars.next()?, chars.next()?, chars.next()?, chars.next()?]
                        .iter()
                        .collect();
                    out.push(char::from_u32(u32::from_str_radix(&hex, 16).ok()?)?);
                }
                c => out.push(c),
            },
            c if (c as u32) < 0x20 => return None,
            c => out.push(c),
        }
    }
}

#[test]
fn every_character_comes_back_from_its_literal() {
    let mut all = String::new();
    for code in 0..0x300u32 {
        all.push(char::from_u32(code).expect("a character"));
    }
    all.push_str("\u{2028}\u{10FFFF}");
    assert_eq!(read_back(&json_string(&all)), Some(all));
}

#[test]
fn a_report_ends_with_its_first_error() {
    let findings = sample_findings();

    let (text, outcome) = report(&findings, Some(Error::NoAdv7513), false);
    assert_eq!(text, render_lines(&findings));
    assert!(matches!(outcome, Err(Error::NoAdv7513)));

    let (text, outcome) = report(&findings, Some(Error::NoAdv7513), true);
    assert_eq!(text, render_json(&findings, 12));
    assert!(text.ends_with("\"exit_code\":12}"));
    assert!(matches!(outcome, Err(Error::NoAdv7513)));

    let (text, outcome) = report(&findings[..1], None, true);
    assert!(text.ends_with("],\"exit_code\":0}"));
    assert!(outcome.is_ok());
}
