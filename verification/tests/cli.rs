//! The command line and its errors.

use itsalive::cli::{parse, Command, USAGE};
use itsalive::{video, Error};

fn argv(args: &[&str]) -> Vec<String> {
    args.iter().map(|s| (*s).to_string()).collect()
}

fn parse_ok(args: &[&str]) -> Command {
    match parse(&argv(args)) {
        Ok(cmd) => cmd,
        Err(e) => panic!("{args:?} should parse, got {}", e.message()),
    }
}

fn parse_usage(args: &[&str]) {
    match parse(&argv(args)) {
        Ok(cmd) => panic!("{args:?} should be a usage error, parsed as {cmd:?}"),
        Err(e) => {
            assert_eq!(e.exit_code(), 2, "{args:?}");
            assert!(matches!(e, Error::Usage(_)), "{args:?}");
        }
    }
}

#[test]
fn no_arguments_is_a_usage_error() {
    parse_usage(&[]);
    assert!(USAGE.contains("itsalive probe"));
    assert!(USAGE.contains("itsalive up"));
}

#[test]
fn the_usage_text_matches_the_implemented_commands() {
    for name in ["probe", "hdmi", "fb enable", "fb disable", "say", "up"] {
        assert!(USAGE.contains(name), "usage does not mention {name}");
    }
    assert!(!USAGE.contains("leds"));
    for name in ["720p", "480p"] {
        assert!(USAGE.contains(name), "usage does not mention mode {name}");
    }
}

#[test]
fn probe_parses_with_and_without_json() {
    assert_eq!(parse_ok(&["probe"]), Command::Probe { json: false });
    assert_eq!(
        parse_ok(&["probe", "--json"]),
        Command::Probe { json: true }
    );
    parse_usage(&["probe", "--jsonn"]);
    parse_usage(&["probe", "extra"]);
    parse_usage(&["probe", "--mode", "720p"]);
}

#[test]
fn hdmi_parses_its_two_flags() {
    assert_eq!(
        parse_ok(&["hdmi"]),
        Command::Hdmi {
            mode: video::mode_720p(),
            off: false
        }
    );
    assert_eq!(
        parse_ok(&["hdmi", "--mode", "480p"]),
        Command::Hdmi {
            mode: video::mode_480p(),
            off: false
        }
    );
    assert_eq!(
        parse_ok(&["hdmi", "--off"]),
        Command::Hdmi {
            mode: video::mode_720p(),
            off: true
        }
    );
    assert_eq!(
        parse_ok(&["hdmi", "--off", "--mode", "480p"]),
        Command::Hdmi {
            mode: video::mode_480p(),
            off: true
        }
    );
    parse_usage(&["hdmi", "--mode"]);
    parse_usage(&["hdmi", "--mode", "1080p"]);
    parse_usage(&["hdmi", "--mode", "720P"]);
    parse_usage(&["hdmi", "--on"]);
    parse_usage(&["hdmi", "off"]);
}

#[test]
fn fb_needs_enable_or_disable() {
    assert_eq!(
        parse_ok(&["fb", "enable"]),
        Command::FbEnable {
            mode: video::mode_720p()
        }
    );
    assert_eq!(
        parse_ok(&["fb", "enable", "--mode", "480p"]),
        Command::FbEnable {
            mode: video::mode_480p()
        }
    );
    assert_eq!(parse_ok(&["fb", "disable"]), Command::FbDisable);
    parse_usage(&["fb"]);
    parse_usage(&["fb", "on"]);
    parse_usage(&["fb", "enable", "--off"]);
    parse_usage(&["fb", "enable", "--mode"]);
    parse_usage(&["fb", "disable", "--mode", "720p"]);
}

#[test]
fn say_takes_its_flag_then_everything_else() {
    assert_eq!(
        parse_ok(&["say", "hello", "world"]),
        Command::Say {
            clear: false,
            text: argv(&["hello", "world"])
        }
    );
    assert_eq!(
        parse_ok(&["say", "--clear", "hello"]),
        Command::Say {
            clear: true,
            text: argv(&["hello"])
        }
    );
    assert_eq!(
        parse_ok(&["say", "--clear"]),
        Command::Say {
            clear: true,
            text: vec![]
        }
    );
    assert_eq!(
        parse_ok(&["say", "step", "--clear"]),
        Command::Say {
            clear: false,
            text: argv(&["step", "--clear"])
        }
    );
    assert_eq!(
        parse_ok(&["say", "--", "--clear"]),
        Command::Say {
            clear: false,
            text: argv(&["--clear"])
        }
    );
    assert_eq!(
        parse_ok(&["say", "-50%"]),
        Command::Say {
            clear: false,
            text: argv(&["-50%"])
        }
    );
    parse_usage(&["say"]);
    parse_usage(&["say", "--quiet", "hello"]);
}

#[test]
fn up_takes_only_a_mode() {
    assert_eq!(
        parse_ok(&["up"]),
        Command::Up {
            mode: video::mode_720p()
        }
    );
    assert_eq!(
        parse_ok(&["up", "--mode", "480p"]),
        Command::Up {
            mode: video::mode_480p()
        }
    );
    parse_usage(&["up", "--off"]);
    parse_usage(&["up", "720p"]);
    parse_usage(&["up", "--mode", ""]);
}

#[test]
fn help_parses_and_unknown_subcommands_do_not() {
    assert_eq!(parse_ok(&["--help"]), Command::Help);
    assert_eq!(parse_ok(&["-h"]), Command::Help);
    assert_eq!(parse_ok(&["help"]), Command::Help);
    parse_usage(&["--help", "hdmi"]);
    parse_usage(&["leds", "0xFF"]);
    parse_usage(&["HDMI"]);
    parse_usage(&["--version"]);
    parse_usage(&[""]);
}

#[test]
fn every_error_maps_to_its_documented_exit_code() {
    let cases: Vec<(Error, i32)> = vec![
        (Error::Usage("no subcommand".into()), 2),
        (Error::NoBitstream, 10),
        (Error::Timeout, 11),
        (Error::NoAdv7513, 12),
        (Error::AmbiguousBus(vec![0, 2]), 13),
        (
            Error::io(
                "open /dev/mem",
                std::io::Error::from_raw_os_error(libc::EACCES),
            ),
            14,
        ),
    ];
    for (err, code) in cases {
        assert_eq!(err.exit_code(), code, "{}", err.message());
        assert!(u8::try_from(err.exit_code()).is_ok());
    }
}

fn usage_text(args: &[&str]) -> String {
    match parse(&argv(args)) {
        Err(Error::Usage(msg)) => msg,
        other => panic!("expected a usage error, got {other:?}"),
    }
}

#[test]
fn usage_errors_name_what_is_wrong() {
    assert_eq!(usage_text(&[]), "no subcommand");
    assert_eq!(usage_text(&["bo\"gus"]), "unknown subcommand \"bo\\\"gus\"");
    assert_eq!(
        usage_text(&["probe", "--jsonn"]),
        "probe: unexpected argument \"--jsonn\""
    );
    assert_eq!(
        usage_text(&["hdmi", "--mode"]),
        "--mode needs a value: 720p or 480p"
    );
    assert_eq!(
        usage_text(&["up", "--mode", "1080p"]),
        "unknown mode \"1080p\": expected 720p or 480p"
    );
    assert_eq!(
        usage_text(&["fb", "enable", "x"]),
        "fb enable: unexpected argument \"x\""
    );
    assert_eq!(
        usage_text(&["fb", "on"]),
        "fb: expected `enable` or `disable`, got \"on\""
    );
    assert_eq!(usage_text(&["say"]), "say: nothing to say");
    assert_eq!(
        usage_text(&["say", "--quiet"]),
        "say: unknown option \"--quiet\""
    );
    assert_eq!(
        usage_text(&["--help", "x"]),
        "--help takes no arguments, got \"x\""
    );
}

#[test]
fn a_later_mode_replaces_an_earlier_one() {
    assert_eq!(
        parse_ok(&["up", "--mode", "480p", "--mode", "720p"]),
        Command::Up {
            mode: video::mode_720p()
        }
    );
}

#[test]
fn off_may_stand_before_or_behind() {
    assert_eq!(
        parse_ok(&["hdmi", "--mode", "480p", "--off"]),
        parse_ok(&["hdmi", "--off", "--mode", "480p"])
    );
}

#[test]
fn image_takes_a_size_a_flag_and_one_path() {
    assert_eq!(
        parse_ok(&["image", "splash.raw"]),
        Command::Image {
            size: None,
            clear: false,
            path: "splash.raw".to_string()
        }
    );
    assert_eq!(
        parse_ok(&["image", "--size", "320x200", "--clear", "-"]),
        Command::Image {
            size: Some((320, 200)),
            clear: true,
            path: "-".to_string()
        }
    );
    assert_eq!(
        parse_ok(&["image", "a.raw", "--clear"]),
        Command::Image {
            size: None,
            clear: true,
            path: "a.raw".to_string()
        }
    );
    for args in [
        &["image"][..],
        &["image", "--clear"],
        &["image", "a", "b"],
        &["image", "--size"],
        &["image", "--size", "320", "a"],
        &["image", "--size", "320x", "a"],
        &["image", "--size", "x200", "a"],
        &["image", "--size", "0x200", "a"],
        &["image", "--size", "320x0", "a"],
        &["image", "--size", "320X200", "a"],
        &["image", "--size", "+320x200", "a"],
        &["image", "--size", "320x200x8", "a"],
        &["image", "--size", "4294967296x1", "a"],
        &["image", "--mode", "720p", "a"],
    ] {
        parse_usage(args);
    }
    assert_eq!(
        parse_ok(&["image", "--size", "4294967295x1", "a"]),
        Command::Image {
            size: Some((u32::MAX, 1)),
            clear: false,
            path: "a".to_string()
        }
    );
    assert!(USAGE.contains("itsalive image [--size WxH] [--clear] PATH"));
}

#[test]
fn error_lines_say_what_happened() {
    assert_eq!(Error::Usage("x y".to_string()).message(), "usage: x y");
    assert_eq!(
        Error::NoBitstream.message(),
        "no bitstream in the fabric (GPI bit 31): load a core first"
    );
    assert_eq!(
        Error::Timeout.message(),
        "mailbox timeout: the fabric never acked"
    );
    assert_eq!(
        Error::NoAdv7513.message(),
        "no ADV7513 found at 0x39 on any i2c bus"
    );
    assert_eq!(
        Error::AmbiguousBus(vec![0, 2]).message(),
        "ADV7513 answered on more than one i2c bus: [0, 2]"
    );
    assert_eq!(
        Error::AmbiguousBus(vec![]).message(),
        "ADV7513 answered on more than one i2c bus: []"
    );
    assert_eq!(
        Error::AmbiguousBus(vec![255]).message(),
        "ADV7513 answered on more than one i2c bus: [255]"
    );
    let source = std::io::Error::from_raw_os_error(libc::EACCES);
    let words = source.to_string();
    assert_eq!(
        Error::io("open /dev/mem", source).message(),
        format!("open /dev/mem: {words}")
    );
}
