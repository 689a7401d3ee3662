//! What `say` writes.

use itsalive::hw::TextSink;
use itsalive::say::{message, say, CLEAR_SCREEN};
use itsalive::{Error, Result};

struct FakeTty {
    written: Vec<u8>,
    fail: bool,
}

impl FakeTty {
    fn new() -> Self {
        Self {
            written: Vec::new(),
            fail: false,
        }
    }
}

impl TextSink for FakeTty {
    fn write_text(&mut self, bytes: &[u8]) -> Result<()> {
        if self.fail {
            return Err(Error::io(
                "write /dev/tty1",
                std::io::Error::from_raw_os_error(libc::ENXIO),
            ));
        }
        self.written.extend_from_slice(bytes);
        Ok(())
    }
}

fn words(parts: &[&str]) -> Vec<String> {
    parts.iter().map(|s| (*s).to_string()).collect()
}

#[test]
fn the_clear_sequence_is_ed2_then_cup() {
    assert_eq!(CLEAR_SCREEN.as_bytes(), b"\x1b[2J\x1b[H");
}

#[test]
fn words_are_joined_with_single_spaces_and_one_newline() {
    assert_eq!(message(false, &words(&["hello", "world"])), "hello world\n");
    assert_eq!(message(false, &words(&["one"])), "one\n");
}

#[test]
fn a_quoted_argument_keeps_its_spaces() {
    assert_eq!(
        message(false, &words(&["a  b", "c"])),
        "a  b c\n",
        "only the join is single-spaced"
    );
}

#[test]
fn clear_comes_before_the_text() {
    assert_eq!(
        message(true, &words(&["Installing..."])),
        "\x1b[2J\x1b[HInstalling...\n"
    );
}

#[test]
fn clear_with_no_text_writes_only_the_escape() {
    assert_eq!(message(true, &[]), "\x1b[2J\x1b[H");
}

#[test]
fn no_text_and_no_clear_writes_nothing() {
    assert_eq!(message(false, &[]), "");
    let mut tty = FakeTty::new();
    say(&mut tty, false, &[]).unwrap();
    assert!(tty.written.is_empty());
}

#[test]
fn say_writes_the_whole_message_in_one_call() {
    let mut tty = FakeTty::new();
    say(&mut tty, true, &words(&["step", "2"])).unwrap();
    assert_eq!(tty.written, b"\x1b[2J\x1b[Hstep 2\n".to_vec());
}

#[test]
fn a_failing_tty_is_exit_14() {
    let mut tty = FakeTty::new();
    tty.fail = true;
    let err = say(&mut tty, false, &words(&["x"])).unwrap_err();
    assert_eq!(err.exit_code(), 14);
}

#[test]
fn say_accepts_a_trait_object() {
    let mut tty = FakeTty::new();
    let erased: &mut dyn TextSink = &mut tty;
    say(erased, false, &words(&["dyn"])).unwrap();
    assert_eq!(tty.written, b"dyn\n".to_vec());
}

#[test]
fn one_argument_of_two_words_says_the_same_as_two_arguments() {
    assert_eq!(
        message(true, &words(&["hello world"])),
        message(true, &words(&["hello", "world"]))
    );
    assert_eq!(message(false, &words(&["", ""])), " \n");
    assert_eq!(message(false, &words(&["ä"])).as_bytes(), b"\xC3\xA4\n");
}
