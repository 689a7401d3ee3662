//! The command line: what the words after the program's name ask for.
//!
//! Every usage error is decided here, before a single device is opened.

use vstd::prelude::*;

use crate::error::{Error, Result};
use crate::fb::size_text;
use crate::text::{chars_of, decimal, lemma_decimal, number_in, parse_number, same};
use crate::video::{hd_mode, mode_720p, mode_by_name, mode_named, Modeline};

verus! {

/// What `--help`, and any usage error, puts in front of the caller.
pub const USAGE: &'static str = "\
itsalive - bring up HDMI and the Linux framebuffer on a MiSTer

usage:
  itsalive probe [--json]              report what is there, exit with the first failure
  itsalive hdmi [--mode MODE] [--off]  configure the ADV7513 and the video PLL
  itsalive fb enable [--mode MODE]     point the fabric's frame reader at /dev/fb0
  itsalive fb disable                  hand the display back to the core
  itsalive say [--clear] TEXT...       write TEXT to /dev/tty1 for fbcon to paint
  itsalive image [--size WxH] [--clear] PATH
                                       blit a raw BGRX8888 image onto /dev/fb0
  itsalive up [--mode MODE]            hdmi, then fb enable: the installer's one call
  itsalive --help                      this text

MODE is 720p (the default) or 480p.

exit codes:
  0   done                      11  mailbox timeout
  2   usage error               12  ADV7513 not found on any i2c bus
  10  no bitstream in the       13  ADV7513 on more than one i2c bus
      fabric (GPI bit 31)       14  /dev/mem, /dev/i2c-*, sysfs, tty or /dev/fb0
                                    unopenable";

/// One parsed command line. The mode is resolved here, so that an unknown one
/// is an error before any device is opened.
#[derive(Debug, PartialEq)]
pub enum Command {
    /// `probe [--json]`
    Probe {
        /// Print one JSON object?
        json: bool,
    },
    /// `hdmi [--mode MODE] [--off]`
    Hdmi {
        /// The mode.
        mode: Modeline,
        /// Power down instead?
        off: bool,
    },
    /// `fb enable [--mode MODE]`
    FbEnable {
        /// The mode.
        mode: Modeline,
    },
    /// `fb disable`
    FbDisable,
    /// `say [--clear] TEXT...`
    Say {
        /// Clear the screen first?
        clear: bool,
        /// The words.
        text: Vec<String>,
    },
    /// `image [--size WxH] [--clear] PATH`
    Image {
        /// The size of the source, where it is not that of the frame buffer.
        size: Option<(u32, u32)>,
        /// Zero the frame buffer first?
        clear: bool,
        /// The source, `-` for standard input.
        path: String,
    },
    /// `up [--mode MODE]`
    Up {
        /// The mode.
        mode: Modeline,
    },
    /// `--help`
    Help,
}

/// What a command line asks for.
pub enum Request {
    /// `probe [--json]`
    Probe {
        /// Print one JSON object?
        json: bool,
    },
    /// `hdmi [--mode MODE] [--off]`
    Hdmi {
        /// The mode.
        mode: Modeline,
        /// Power down instead?
        off: bool,
    },
    /// `fb enable [--mode MODE]`
    FbEnable {
        /// The mode.
        mode: Modeline,
    },
    /// `fb disable`
    FbDisable,
    /// `say [--clear] TEXT...`
    Say {
        /// Clear the screen first?
        clear: bool,
        /// The words.
        text: Seq<String>,
    },
    /// `image [--size WxH] [--clear] PATH`
    Image {
        /// The size of the source, where it is not that of the frame buffer.
        size: Option<(u32, u32)>,
        /// Zero the frame buffer first?
        clear: bool,
        /// The source.
        path: Seq<char>,
    },
    /// `up [--mode MODE]`
    Up {
        /// The mode.
        mode: Modeline,
    },
    /// `--help`
    Help,
    /// No command: what is wrong, in words.
    Refused(Seq<char>),
}

/// `str` as `Debug` writes it: in double quotes, with what cannot be printed
/// escaped.
pub uninterp spec fn quoted(s: Seq<char>) -> Seq<char>;

/// The `Debug` form of a `str`, which is a function of its characters.
#[verifier::external_body]
fn quote(s: &str) -> (q: String)
    ensures
        q@ == quoted(s@),
{
    format!("{s:?}")
}

/// What to say of an argument, given what is wrong with it.
fn complaint(what: &str, arg: &str) -> (msg: String)
    ensures
        msg@ == what@ + quoted(arg@),
{
    let mut msg = what.to_owned();
    let q = quote(arg);
    msg.append(q.as_str());
    msg
}

/// The names that `--mode` takes.
pub const MODE_NAMES: &'static str = "720p or 480p";

/// What the words from `i` on make of a command that takes `--mode` and, where
/// `takes_off`, `--off`. A later `--mode` replaces an earlier one.
pub open spec fn mode_options(
    words: Seq<String>,
    i: int,
    mode: Modeline,
    off: bool,
    takes_off: bool,
    complaint: Seq<char>,
) -> std::result::Result<(Modeline, bool), Seq<char>>
    decreases words.len() - i,
{
    if i < 0 || i >= words.len() {
        Ok((mode, off))
    } else if words[i]@ == "--mode"@ {
        if i + 1 >= words.len() {
            Err("--mode needs a value: "@ + MODE_NAMES@)
        } else {
            match mode_named(words[i + 1]@) {
                Some(named) => mode_options(words, i + 2, named, off, takes_off, complaint),
                None => Err(
                    "unknown mode "@ + quoted(words[i + 1]@) + ": expected "@ + MODE_NAMES@,
                ),
            }
        }
    } else if takes_off && words[i]@ == "--off"@ {
        mode_options(words, i + 1, mode, true, takes_off, complaint)
    } else {
        Err(complaint + quoted(words[i]@))
    }
}

/// The first place from `i` on at which the words of `probe` hold something
/// else than `--json`.
pub open spec fn not_json(words: Seq<String>, i: int) -> Option<int>
    decreases words.len() - i,
{
    if i < 0 || i >= words.len() {
        None
    } else if words[i]@ == "--json"@ {
        not_json(words, i + 1)
    } else {
        Some(i)
    }
}

/// Does a text start with two dashes?
pub open spec fn is_option(s: Seq<char>) -> bool {
    s.len() >= 2 && s[0] == '-' && s[1] == '-'
}

/// Where the text of `say` begins, from `i` on, and whether `--clear` came
/// before it: options first, `--` ends them, and then everything verbatim.
pub open spec fn say_options(words: Seq<String>, i: int, clear: bool) -> std::result::Result<
    (int, bool),
    Seq<char>,
>
    decreases words.len() - i,
{
    if i < 0 || i >= words.len() {
        Ok((i, clear))
    } else if words[i]@ == "--clear"@ {
        say_options(words, i + 1, true)
    } else if words[i]@ == "--"@ {
        Ok((i + 1, clear))
    } else if is_option(words[i]@) {
        Err("say: unknown option "@ + quoted(words[i]@))
    } else {
        Ok((i, clear))
    }
}

/// Where a character first stands in a text, from `i` on.
pub open spec fn first_place(s: Seq<char>, c: char, i: int) -> Option<int>
    decreases s.len() - i,
{
    if i < 0 || i >= s.len() {
        None
    } else if s[i] == c {
        Some(i)
    } else {
        first_place(s, c, i + 1)
    }
}

/// The size that a text of the form `WxH` stands for, neither of them zero.
pub open spec fn size_in(s: Seq<char>) -> Option<(u32, u32)> {
    match first_place(s, 'x', 0) {
        None => None,
        Some(x) => match (number_in(s.take(x)), number_in(s.skip(x + 1))) {
            (Some(w), Some(h)) => if w > 0 && h > 0 {
                Some((w, h))
            } else {
                None
            },
            _ => None,
        },
    }
}

/// What the words from `i` on make of `image`: options and one path, in any
/// order.
pub open spec fn image_options(
    words: Seq<String>,
    i: int,
    size: Option<(u32, u32)>,
    clear: bool,
    path: Option<Seq<char>>,
) -> Request
    decreases words.len() - i,
{
    if i < 0 || i >= words.len() {
        match path {
            Some(path) => Request::Image { size, clear, path },
            None => Request::Refused("image: expected a PATH, or - for standard input"@),
        }
    } else if words[i]@ == "--clear"@ {
        image_options(words, i + 1, size, true, path)
    } else if words[i]@ == "--size"@ {
        if i + 1 >= words.len() {
            Request::Refused("--size needs a value: WxH"@)
        } else {
            match size_in(words[i + 1]@) {
                Some(wh) => image_options(words, i + 2, Some(wh), clear, path),
                None => Request::Refused(
                    "not a size "@ + quoted(words[i + 1]@) + ": expected WxH"@,
                ),
            }
        }
    } else if is_option(words[i]@) {
        Request::Refused("image: unknown option "@ + quoted(words[i]@))
    } else if path is Some {
        Request::Refused("image: unexpected argument "@ + quoted(words[i]@))
    } else {
        image_options(words, i + 1, size, clear, Some(words[i]@))
    }
}

/// What a command line asks for.
pub open spec fn request(args: Seq<String>) -> Request {
    if args.len() == 0 {
        Request::Refused("no subcommand"@)
    } else {
        let first = args[0]@;
        let rest = args.skip(1);
        if first == "--help"@ || first == "-h"@ || first == "help"@ {
            if rest.len() > 0 {
                Request::Refused("--help takes no arguments, got "@ + quoted(rest[0]@))
            } else {
                Request::Help
            }
        } else if first == "probe"@ {
            match not_json(rest, 0) {
                None => Request::Probe { json: rest.len() > 0 },
                Some(i) => Request::Refused("probe: unexpected argument "@ + quoted(rest[i]@)),
            }
        } else if first == "hdmi"@ {
            match mode_options(rest, 0, hd_mode(), false, true, "hdmi: unexpected argument "@) {
                Ok((mode, off)) => Request::Hdmi { mode, off },
                Err(msg) => Request::Refused(msg),
            }
        } else if first == "fb"@ {
            fb_request(rest)
        } else if first == "say"@ {
            match say_options(rest, 0, false) {
                Err(msg) => Request::Refused(msg),
                Ok((start, clear)) => if start == rest.len() && !clear {
                    Request::Refused("say: nothing to say"@)
                } else {
                    Request::Say { clear, text: rest.skip(start) }
                },
            }
        } else if first == "image"@ {
            image_options(rest, 0, None, false, None)
        } else if first == "up"@ {
            match mode_options(rest, 0, hd_mode(), false, false, "up: unexpected argument "@) {
                Ok((mode, _)) => Request::Up { mode },
                Err(msg) => Request::Refused(msg),
            }
        } else {
            Request::Refused("unknown subcommand "@ + quoted(first))
        }
    }
}

/// What the words after `fb` ask for.
pub open spec fn fb_request(words: Seq<String>) -> Request {
    if words.len() == 0 {
        Request::Refused("fb: expected `enable` or `disable`"@)
    } else {
        let rest = words.skip(1);
        if words[0]@ == "enable"@ {
            match mode_options(
                rest,
                0,
                hd_mode(),
                false,
                false,
                "fb enable: unexpected argument "@,
            ) {
                Ok((mode, _)) => Request::FbEnable { mode },
                Err(msg) => Request::Refused(msg),
            }
        } else if words[0]@ == "disable"@ {
            if rest.len() > 0 {
                Request::Refused("fb disable: unexpected argument "@ + quoted(rest[0]@))
            } else {
                Request::FbDisable
            }
        } else {
            Request::Refused("fb: expected `enable` or `disable`, got "@ + quoted(words[0]@))
        }
    }
}

/// Does a result say what was asked for?
pub open spec fn answers(r: Result<Command>, request: Request) -> bool {
    match (r, request) {
        (Ok(Command::Probe { json }), Request::Probe { json: j }) => json == j,
        (Ok(Command::Hdmi { mode, off }), Request::Hdmi { mode: m, off: o }) => mode == m && off
            == o,
        (Ok(Command::FbEnable { mode }), Request::FbEnable { mode: m }) => mode == m,
        (Ok(Command::FbDisable), Request::FbDisable) => true,
        (Ok(Command::Say { clear, text }), Request::Say { clear: c, text: t }) => clear == c
            && text@.len() == t.len() && forall|i: int|
            0 <= i < t.len() ==> (#[trigger] text@[i])@ == t[i]@,
        (
            Ok(Command::Image { size, clear, path }),
            Request::Image { size: s, clear: c, path: p },
        ) => size == s && clear == c && path@ == p,
        (Ok(Command::Up { mode }), Request::Up { mode: m }) => mode == m,
        (Ok(Command::Help), Request::Help) => true,
        (Err(Error::Usage(msg)), Request::Refused(m)) => msg@ == m,
        _ => false,
    }
}

/// The argument after `--mode`, at place `i`, looked up among the modes.
fn mode_value(words: &[String], i: usize) -> (r: Result<Modeline>)
    ensures
        match r {
            Ok(mode) => i < words.len() && mode_named(words@[i as int]@) == Some(mode),
            Err(e) => e matches Error::Usage(msg) && if i < words.len() {
                mode_named(words@[i as int]@) is None && msg@ == "unknown mode "@ + quoted(
                    words@[i as int]@,
                ) + ": expected "@ + MODE_NAMES@
            } else {
                msg@ == "--mode needs a value: "@ + MODE_NAMES@
            },
        },
{
    if i >= words.len() {
        let mut msg = "--mode needs a value: ".to_owned();
        msg.append(MODE_NAMES);
        return Err(Error::Usage(msg));
    }
    match mode_by_name(words[i].as_str()) {
        Some(mode) => Ok(mode),
        None => {
            let mut msg = complaint("unknown mode ", words[i].as_str());
            msg.append(": expected ");
            msg.append(MODE_NAMES);
            Err(Error::Usage(msg))
        },
    }
}

/// Parse the options of a command that takes `--mode` and, where `takes_off`,
/// `--off`.
fn parse_mode_options(words: &[String], takes_off: bool, what: &str) -> (r: Result<
    (Modeline, bool),
>)
    ensures
        match (r, mode_options(words@, 0, hd_mode(), false, takes_off, what@)) {
            (Ok(a), Ok(b)) => a == b,
            (Err(Error::Usage(msg)), Err(m)) => msg@ == m,
            _ => false,
        },
{
    let mut mode = mode_720p();
    let mut off = false;
    let mut i: usize = 0;
    while i < words.len()
        invariant
            i <= words.len(),
            mode_options(words@, 0, hd_mode(), false, takes_off, what@) == mode_options(
                words@,
                i as int,
                mode,
                off,
                takes_off,
                what@,
            ),
        decreases words.len() - i,
    {
        let arg = words[i].as_str();
        if same(arg, "--mode") {
            match mode_value(words, i + 1) {
                Ok(named) => {
                    mode = named;
                },
                Err(e) => {
                    return Err(e);
                },
            }
            i = i + 2;
        } else if takes_off && same(arg, "--off") {
            off = true;
            i = i + 1;
        } else {
            return Err(Error::Usage(complaint(what, arg)));
        }
    }
    Ok((mode, off))
}

/// Does an argument start with two dashes?
fn starts_with_dashes(arg: &str) -> (r: bool)
    ensures
        r == is_option(arg@),
{
    let chars = chars_of(arg);
    chars.len() >= 2 && chars[0] == '-' && chars[1] == '-'
}

/// Parse the words after `say`.
fn parse_say(words: &[String]) -> (r: Result<Command>)
    ensures
        match say_options(words@, 0, false) {
            Err(msg) => answers(r, Request::Refused(msg)),
            Ok((start, clear)) => if start == words@.len() && !clear {
                answers(r, Request::Refused("say: nothing to say"@))
            } else {
                answers(r, (Request::Say { clear, text: words@.skip(start) }))
            },
        },
{
    let mut clear = false;
    let mut start: usize = 0;
    let mut options = true;
    while options && start < words.len()
        invariant
            start <= words.len(),
            options ==> say_options(words@, 0, false) == say_options(
                words@,
                start as int,
                clear,
            ),
            !options ==> say_options(words@, 0, false) == Ok::<(int, bool), Seq<char>>(
                (start as int, clear),
            ),
        decreases
            words.len() - start,
            if options {
                1int
            } else {
                0
            },
    {
        let arg = words[start].as_str();
        if same(arg, "--clear") {
            clear = true;
            start = start + 1;
        } else if same(arg, "--") {
            start = start + 1;
            options = false;
        } else if starts_with_dashes(arg) {
            return Err(Error::Usage(complaint("say: unknown option ", arg)));
        } else {
            options = false;
        }
    }
    let mut text: Vec<String> = Vec::new();
    let mut i: usize = start;
    while i < words.len()
        invariant
            start <= i <= words.len(),
            text@.len() == i - start,
            forall|k: int| 0 <= k < text@.len() ==> (#[trigger] text@[k])@ == words@[start + k]@,
        decreases words.len() - i,
    {
        text.push(words[i].clone());
        i = i + 1;
    }
    if text.len() == 0 && !clear {
        return Err(Error::Usage("say: nothing to say".to_owned()));
    }
    Ok(Command::Say { clear, text })
}

/// Read a size of the form `WxH`.
fn parse_size(s: &str) -> (size: Option<(u32, u32)>)
    ensures
        size == size_in(s@),
{
    let chars = chars_of(s);
    let mut x: usize = 0;
    while x < chars.len() && chars[x] != 'x'
        invariant
            chars@ == s@,
            x <= chars.len(),
            first_place(s@, 'x', 0) == first_place(s@, 'x', x as int),
        decreases chars.len() - x,
    {
        x = x + 1;
    }
    if x == chars.len() {
        return None;
    }
    let w = parse_number(vstd::slice::slice_subrange(chars.as_slice(), 0, x));
    let h = parse_number(vstd::slice::slice_subrange(chars.as_slice(), x + 1, chars.len()));
    assert(s@.take(x as int) =~= s@.subrange(0, x as int));
    assert(s@.skip(x + 1) =~= s@.subrange(x + 1, s@.len() as int));
    match (w, h) {
        (Some(w), Some(h)) => if w > 0 && h > 0 {
            Some((w, h))
        } else {
            None
        },
        _ => None,
    }
}

/// The path of an image, if there is one yet.
pub open spec fn path_of(path: Option<String>) -> Option<Seq<char>> {
    match path {
        Some(path) => Some(path@),
        None => None,
    }
}

/// Parse the words after `image`.
fn parse_image(words: &[String]) -> (r: Result<Command>)
    ensures
        answers(r, image_options(words@, 0, None, false, None)),
{
    let mut size: Option<(u32, u32)> = None;
    let mut clear = false;
    let mut path: Option<String> = None;
    let mut i: usize = 0;
    while i < words.len()
        invariant
            i <= words.len(),
            image_options(words@, 0, None, false, None) == image_options(
                words@,
                i as int,
                size,
                clear,
                path_of(path),
            ),
        decreases words.len() - i,
    {
        let arg = words[i].as_str();
        if same(arg, "--clear") {
            clear = true;
            i = i + 1;
        } else if same(arg, "--size") {
            if i + 1 >= words.len() {
                return Err(Error::Usage("--size needs a value: WxH".to_owned()));
            }
            match parse_size(words[i + 1].as_str()) {
                Some(wh) => {
                    size = Some(wh);
                },
                None => {
                    let mut msg = complaint("not a size ", words[i + 1].as_str());
                    msg.append(": expected WxH");
                    return Err(Error::Usage(msg));
                },
            }
            i = i + 2;
        } else if starts_with_dashes(arg) {
            return Err(Error::Usage(complaint("image: unknown option ", arg)));
        } else if path.is_some() {
            return Err(Error::Usage(complaint("image: unexpected argument ", arg)));
        } else {
            path = Some(words[i].clone());
            i = i + 1;
        }
    }
    match path {
        Some(path) => Ok(Command::Image { size, clear, path }),
        None => Err(
            Error::Usage("image: expected a PATH, or - for standard input".to_owned()),
        ),
    }
}

/// Parse the words after `probe`.
fn parse_probe(words: &[String]) -> (r: Result<Command>)
    ensures
        match not_json(words@, 0) {
            None => answers(r, (Request::Probe { json: words@.len() > 0 })),
            Some(i) => answers(
                r,
                Request::Refused("probe: unexpected argument "@ + quoted(words@[i]@)),
            ),
        },
{
    let mut json = false;
    let mut i: usize = 0;
    while i < words.len()
        invariant
            i <= words.len(),
            json == (i > 0),
            not_json(words@, 0) == not_json(words@, i as int),
        decreases words.len() - i,
    {
        if !same(words[i].as_str(), "--json") {
            return Err(
                Error::Usage(complaint("probe: unexpected argument ", words[i].as_str())),
            );
        }
        json = true;
        i = i + 1;
    }
    Ok(Command::Probe { json })
}

/// Parse the words after `fb`.
fn parse_fb(words: &[String]) -> (r: Result<Command>)
    ensures
        answers(r, fb_request(words@)),
{
    if words.len() == 0 {
        return Err(Error::Usage("fb: expected `enable` or `disable`".to_owned()));
    }
    let what = words[0].as_str();
    let rest = vstd::slice::slice_subrange(words, 1, words.len());
    assert(rest@ =~= words@.skip(1));
    if same(what, "enable") {
        match parse_mode_options(rest, false, "fb enable: unexpected argument ") {
            Ok((mode, _)) => Ok(Command::FbEnable { mode }),
            Err(e) => Err(e),
        }
    } else if same(what, "disable") {
        if rest.len() > 0 {
            return Err(
                Error::Usage(complaint("fb disable: unexpected argument ", rest[0].as_str())),
            );
        }
        Ok(Command::FbDisable)
    } else {
        Err(Error::Usage(complaint("fb: expected `enable` or `disable`, got ", what)))
    }
}

/// The words after the program's name to a [`Command`], or [`Error::Usage`].
///
/// `--mode` is accepted wherever a mode is meaningful. `hdmi --off --mode 720p`
/// parses and ignores the mode; `fb disable --mode 720p` does not parse, because
/// `fb disable` never takes one.
pub fn parse(args: &[String]) -> (r: Result<Command>)
    ensures
        answers(r, request(args@)),
{
    if args.len() == 0 {
        return Err(Error::Usage("no subcommand".to_owned()));
    }
    let first = args[0].as_str();
    let rest = vstd::slice::slice_subrange(args, 1, args.len());
    assert(rest@ =~= args@.skip(1));
    if same(first, "--help") || same(first, "-h") || same(first, "help") {
        if rest.len() > 0 {
            return Err(
                Error::Usage(complaint("--help takes no arguments, got ", rest[0].as_str())),
            );
        }
        Ok(Command::Help)
    } else if same(first, "probe") {
        parse_probe(rest)
    } else if same(first, "hdmi") {
        match parse_mode_options(rest, true, "hdmi: unexpected argument ") {
            Ok((mode, off)) => Ok(Command::Hdmi { mode, off }),
            Err(e) => Err(e),
        }
    } else if same(first, "fb") {
        parse_fb(rest)
    } else if same(first, "say") {
        parse_say(rest)
    } else if same(first, "image") {
        parse_image(rest)
    } else if same(first, "up") {
        match parse_mode_options(rest, false, "up: unexpected argument ") {
            Ok((mode, _)) => Ok(Command::Up { mode }),
            Err(e) => Err(e),
        }
    } else {
        Err(Error::Usage(complaint("unknown subcommand ", first)))
    }
}

/// What follows `say --` is said as it is, whatever it looks like.
pub proof fn a_double_dash_ends_the_options(args: Seq<String>)
    requires
        args.len() >= 3,
        args[0]@ == "say"@,
        args[1]@ == "--"@,
    ensures
        request(args) == (Request::Say { clear: false, text: args.skip(2) }),
{
    reveal_strlit("say");
    reveal_strlit("--");
    reveal_strlit("--clear");
    reveal_strlit("--help");
    reveal_strlit("-h");
    reveal_strlit("help");
    reveal_strlit("probe");
    reveal_strlit("hdmi");
    reveal_strlit("fb");
    let rest = args.skip(1);
    assert("say"@.len() == 3 && "say"@[0] == 's');
    assert("--"@.len() == 2);
    assert(rest.skip(1) =~= args.skip(2));
    assert(say_options(rest, 0, false) == Ok::<(int, bool), Seq<char>>((1, false)));
}

/// Power-down takes no notice of where `--off` stands among the words of
/// `hdmi`: before a `--mode` or behind it, the request is the same.
pub proof fn off_may_stand_before_or_behind_the_mode(a: Seq<String>, b: Seq<String>)
    requires
        a.len() == 4,
        b.len() == 4,
        a[0]@ == "hdmi"@,
        b[0]@ == "hdmi"@,
        a[1]@ == "--off"@,
        a[2]@ == "--mode"@,
        b[1]@ == "--mode"@,
        b[2]@ == a[3]@,
        b[3]@ == "--off"@,
    ensures
        request(a) == request(b),
{
    reveal_strlit("hdmi");
    reveal_strlit("--off");
    reveal_strlit("--mode");
    reveal_strlit("--help");
    reveal_strlit("-h");
    reveal_strlit("help");
    reveal_strlit("probe");
    assert("hdmi"@.len() == 4 && "hdmi"@[1] == 'd');
    assert("help"@[1] == 'e');
    assert("--off"@.len() == 5);
    assert("--mode"@.len() == 6);
    reveal_with_fuel(mode_options, 4);
}

/// A size comes back from its text.
pub proof fn a_size_comes_back_from_its_text(width: u32, height: u32)
    requires
        width > 0,
        height > 0,
    ensures
        size_in(size_text(width, height)) == Some((width, height)),
{
    let w = decimal(width as nat);
    let h = decimal(height as nat);
    let s = size_text(width, height);
    reveal_strlit("x");
    lemma_decimal(width as nat);
    lemma_decimal(height as nat);
    assert(s[w.len() as int] == 'x');
    lemma_first_place(s, 'x', 0, w.len() as int);
    assert(s.take(w.len() as int) =~= w);
    assert(s.skip(w.len() as int + 1) =~= h);
}

/// The first place of a character is the one before which it does not stand.
proof fn lemma_first_place(s: Seq<char>, c: char, i: int, k: int)
    requires
        0 <= i <= k < s.len(),
        s[k] == c,
        forall|j: int| i <= j < k ==> s[j] != c,
    ensures
        first_place(s, c, i) == Some(k),
    decreases k - i,
{
    if i < k {
        lemma_first_place(s, c, i + 1, k);
    }
}

/// The words that the grammar knows are different from each other.
proof fn lemma_words_differ()
    ensures
        "say"@ != "--help"@ && "say"@ != "-h"@ && "say"@ != "help"@ && "say"@ != "probe"@ && "say"@
            != "hdmi"@ && "say"@ != "fb"@,
        "image"@ != "--help"@ && "image"@ != "-h"@ && "image"@ != "help"@ && "image"@ != "probe"@
            && "image"@ != "hdmi"@ && "image"@ != "fb"@ && "image"@ != "say"@,
        "up"@ != "--help"@ && "up"@ != "-h"@ && "up"@ != "help"@ && "up"@ != "probe"@ && "up"@
            != "hdmi"@ && "up"@ != "fb"@ && "up"@ != "say"@ && "up"@ != "image"@,
        "fb"@ != "--help"@ && "fb"@ != "-h"@ && "fb"@ != "help"@ && "fb"@ != "probe"@ && "fb"@
            != "hdmi"@,
        "hdmi"@ != "--help"@ && "hdmi"@ != "-h"@ && "hdmi"@ != "help"@ && "hdmi"@ != "probe"@,
        "probe"@ != "--help"@ && "probe"@ != "-h"@ && "probe"@ != "help"@,
        "--off"@ != "--mode"@ && "--size"@ != "--clear"@ && "--"@ != "--clear"@,
        "720p"@ != "480p"@ && "disable"@ != "enable"@,
        is_option("--clear"@) && is_option("--size"@) && is_option("--"@),
{
    reveal_strlit("say");
    reveal_strlit("image");
    reveal_strlit("up");
    reveal_strlit("fb");
    reveal_strlit("hdmi");
    reveal_strlit("probe");
    reveal_strlit("--help");
    reveal_strlit("-h");
    reveal_strlit("help");
    reveal_strlit("--off");
    reveal_strlit("--mode");
    reveal_strlit("--size");
    reveal_strlit("--clear");
    reveal_strlit("--");
    reveal_strlit("720p");
    reveal_strlit("480p");
    reveal_strlit("enable");
    reveal_strlit("disable");
    assert("say"@.len() == 3);
    assert("image"@.len() == 5 && "image"@[0] == 'i');
    assert("probe"@.len() == 5 && "probe"@[0] == 'p');
    assert("up"@.len() == 2 && "up"@[0] == 'u');
    assert("fb"@.len() == 2 && "fb"@[0] == 'f');
    assert("-h"@.len() == 2 && "-h"@[0] == '-');
    assert("hdmi"@.len() == 4 && "hdmi"@[1] == 'd');
    assert("help"@.len() == 4 && "help"@[1] == 'e');
    assert("--help"@.len() == 6);
    assert("--off"@.len() == 5 && "--mode"@.len() == 6);
    assert("--size"@.len() == 6 && "--clear"@.len() == 7 && "--"@.len() == 2);
    assert("720p"@[0] == '7' && "480p"@[0] == '4');
    assert("enable"@.len() == 6 && "disable"@.len() == 7);
}

/// Options that clear the screen lead on to what stands behind them.
proof fn lemma_past_the_clears(words: Seq<String>, i: int, n: int, clear: bool)
    requires
        0 <= i <= n <= words.len(),
        forall|k: int| i <= k < n ==> (#[trigger] words[k])@ == "--clear"@,
    ensures
        say_options(words, i, clear) == say_options(words, n, clear || i < n),
    decreases n - i,
{
    if i < n {
        assert(words[i]@ == "--clear"@);
        lemma_past_the_clears(words, i + 1, n, true);
    }
}

/// Was a line taken to say these words, and to clear the screen first or not?
pub open spec fn says(r: Result<Command>, clear: bool, words: Seq<String>) -> bool {
    r matches Ok(Command::Say { clear: c, text }) && c == clear && text@.len() == words.len()
        && forall|k: int| 0 <= k < words.len() ==> (#[trigger] text@[k])@ == words[k]@
}

/// Was a line taken to show an image?
pub open spec fn shows(
    r: Result<Command>,
    size: Option<(u32, u32)>,
    clear: bool,
    path: Seq<char>,
) -> bool {
    r matches Ok(Command::Image { size: z, clear: c, path: p }) && z == size && c == clear && p@
        == path
}

/// Was a line refused with a complaint that ends in a word of it?
pub open spec fn refused_for(r: Result<Command>, word: Seq<char>) -> bool {
    r matches Err(Error::Usage(msg)) && exists|what: Seq<char>|
        msg@ == #[trigger] (what + quoted(word))
}

/// Has a mode so many active pixels and lines?
pub open spec fn has_pixels(mode: Option<Modeline>, width: int, height: int) -> bool {
    mode matches Some(m) && m.hact == width && m.vact == height
}

/// What is said is the whole rest of the line, from the first word behind `say`
/// that is no option: every word of it, in order and as it is. A `--clear` before
/// it clears the screen, and a `--` ends the options and is not said itself. Any
/// other word with two leading dashes is refused there, and so is a line with
/// nothing to say and nothing to clear.
pub proof fn what_is_said_is_the_rest_of_the_line(args: Seq<String>, n: int, r: Result<Command>)
    requires
        0 <= n < args.len(),
        args[0]@ == "say"@,
        forall|i: int| 1 <= i <= n ==> (#[trigger] args[i])@ == "--clear"@,
        answers(r, request(args)),
    ensures
        n + 1 == args.len() && n > 0 ==> says(r, true, Seq::empty()),
        n + 1 == args.len() && n == 0 ==> r is Err,
        n + 1 < args.len() ==> {
            let word = args[n + 1]@;
            let dashes = word.len() >= 2 && word[0] == '-' && word[1] == '-';
            &&& !dashes ==> says(r, n > 0, args.skip(n + 1))
            &&& word == "--"@ && (n > 0 || n + 2 < args.len()) ==> says(
                r,
                n > 0,
                args.skip(n + 2),
            )
            &&& word == "--"@ && n == 0 && n + 2 == args.len() ==> r is Err
            &&& dashes && word != "--"@ && word != "--clear"@ ==> r is Err
        },
{
    lemma_words_differ();
    let rest = args.skip(1);
    assert forall|k: int| 0 <= k < n implies (#[trigger] rest[k])@ == "--clear"@ by {
        assert(args[k + 1]@ == "--clear"@);
    }
    lemma_past_the_clears(rest, 0, n, false);
    if n + 1 < args.len() {
        assert(rest[n] == args[n + 1]);
        if n + 2 <= args.len() {
            assert(rest.skip(n) =~= args.skip(n + 1));
            assert(rest.skip(n + 1) =~= args.skip(n + 2));
        }
    }
}

/// The mode of a command that has one.
pub open spec fn mode_asked_for(c: Command) -> Option<Modeline> {
    match c {
        Command::Hdmi { mode, .. } => Some(mode),
        Command::FbEnable { mode } => Some(mode),
        Command::Up { mode } => Some(mode),
        _ => None,
    }
}

/// Are two commands the same but for the mode?
pub open spec fn same_but_for_the_mode(c: Command, d: Command) -> bool {
    match (c, d) {
        (Command::Hdmi { off: x, .. }, Command::Hdmi { off: y, .. }) => x == y,
        (Command::FbEnable { .. }, Command::FbEnable { .. }) => true,
        (Command::Up { .. }, Command::Up { .. }) => true,
        _ => false,
    }
}

/// Options that were accepted are accepted with more behind them, which are then
/// what is left to look at.
proof fn lemma_past_the_options(
    words: Seq<String>,
    more: Seq<String>,
    i: int,
    mode: Modeline,
    off: bool,
    takes_off: bool,
    complaint: Seq<char>,
)
    requires
        0 <= i <= words.len(),
    ensures
        mode_options(words, i, mode, off, takes_off, complaint) matches Ok((m, o)) ==> mode_options(
            words + more,
            i,
            mode,
            off,
            takes_off,
            complaint,
        ) == mode_options(words + more, words.len() as int, m, o, takes_off, complaint),
        mode_options(words, i, mode, off, takes_off, complaint) matches Ok((_, o)) ==> takes_off
            || o == off,
    decreases words.len() - i,
{
    if i < words.len() {
        assert((words + more)[i] == words[i]);
        if words[i]@ == "--mode"@ {
            if i + 1 < words.len() {
                assert((words + more)[i + 1] == words[i + 1]);
                if let Some(named) = mode_named(words[i + 1]@) {
                    lemma_past_the_options(words, more, i + 2, named, off, takes_off, complaint);
                }
            }
        } else if takes_off && words[i]@ == "--off"@ {
            lemma_past_the_options(words, more, i + 1, mode, true, takes_off, complaint);
        }
    }
}

/// One word more than a line that was accepted, for each command that takes a
/// mode.
proof fn lemma_one_option_more(args: Seq<String>, more: Seq<String>)
    ensures
        request(args) matches Request::Hdmi { mode, off } ==> {
            &&& args.len() >= 1 && args[0]@ == "hdmi"@
            &&& request(args + more) == match mode_options(
                args.skip(1) + more,
                args.len() - 1,
                mode,
                off,
                true,
                "hdmi: unexpected argument "@,
            ) {
                Ok((mode, off)) => Request::Hdmi { mode, off },
                Err(msg) => Request::Refused(msg),
            }
        },
        request(args) matches Request::Up { mode } ==> {
            &&& args.len() >= 1 && args[0]@ == "up"@
            &&& request(args + more) == match mode_options(
                args.skip(1) + more,
                args.len() - 1,
                mode,
                false,
                false,
                "up: unexpected argument "@,
            ) {
                Ok((mode, _)) => Request::Up { mode },
                Err(msg) => Request::Refused(msg),
            }
        },
        request(args) matches Request::FbEnable { mode } ==> {
            &&& args.len() >= 2 && args[0]@ == "fb"@ && args[1]@ == "enable"@
            &&& request(args + more) == match mode_options(
                args.skip(2) + more,
                args.len() - 2,
                mode,
                false,
                false,
                "fb enable: unexpected argument "@,
            ) {
                Ok((mode, _)) => Request::FbEnable { mode },
                Err(msg) => Request::Refused(msg),
            }
        },
{
    lemma_words_differ();
    if args.len() > 0 {
        let rest = args.skip(1);
        assert((args + more)[0] == args[0]);
        assert((args + more).skip(1) =~= rest + more);
        let up = "up: unexpected argument "@;
        let fb = "fb enable: unexpected argument "@;
        if args[0]@ == "image"@ {
            lemma_image_is_an_image(rest, 0, None, false, None);
        }
        if args[0]@ == "hdmi"@ {
            lemma_past_the_options(
                rest,
                more,
                0,
                hd_mode(),
                false,
                true,
                "hdmi: unexpected argument "@,
            );
        } else if args[0]@ == "up"@ {
            lemma_past_the_options(rest, more, 0, hd_mode(), false, false, up);
        } else if args[0]@ == "fb"@ && rest.len() > 0 {
            assert((rest + more)[0] == rest[0]);
            assert((rest + more).skip(1) =~= rest.skip(1) + more);
            assert(rest.skip(1) =~= args.skip(2));
            assert(rest[0] == args[1]);
            lemma_past_the_options(rest.skip(1), more, 0, hd_mode(), false, false, fb);
        }
    }
}

/// The words of `image` make an image or are refused.
proof fn lemma_image_is_an_image(
    words: Seq<String>,
    i: int,
    size: Option<(u32, u32)>,
    clear: bool,
    path: Option<Seq<char>>,
)
    ensures
        ({
            let q = image_options(words, i, size, clear, path);
            q is Image || q is Refused
        }),
    decreases words.len() - i,
{
    if 0 <= i < words.len() {
        if words[i]@ == "--clear"@ {
            lemma_image_is_an_image(words, i + 1, size, true, path);
        } else if words[i]@ == "--size"@ {
            if i + 1 < words.len() {
                if let Some(wh) = size_in(words[i + 1]@) {
                    lemma_image_is_an_image(words, i + 2, Some(wh), clear, path);
                }
            }
        } else if !is_option(words[i]@) && path is None {
            lemma_image_is_an_image(words, i + 1, size, clear, Some(words[i]@));
        }
    }
}

/// A command that takes a mode is for 720p where none is given, and an `hdmi`
/// without `--off` powers nothing down.
pub proof fn the_mode_is_720p_unless_it_is_given(args: Seq<String>, r: Result<Command>)
    requires
        answers(r, request(args)),
        args.len() == 1 && (args[0]@ == "hdmi"@ || args[0]@ == "up"@) || args.len() == 2 && args[0]@
            == "fb"@ && args[1]@ == "enable"@,
    ensures
        r is Ok,
        has_pixels(mode_asked_for(r->Ok_0), 1280, 720),
        args[0]@ == "hdmi"@ ==> r->Ok_0 is Hdmi && !r->Ok_0->off,
        args[0]@ == "up"@ ==> r->Ok_0 is Up,
        args[0]@ == "fb"@ ==> r->Ok_0 is FbEnable,
{
    lemma_words_differ();
}

/// One more `--mode` with a name replaces the mode and nothing else: 720p is the
/// mode of 1280 by 720 pixels, 480p that of 640 by 480, and there is no other
/// name. A `--mode` with nothing behind it is refused.
pub proof fn a_later_mode_replaces_an_earlier_one(
    args: Seq<String>,
    option: String,
    name: String,
    r: Result<Command>,
    s: Result<Command>,
    t: Result<Command>,
)
    requires
        answers(r, request(args)),
        r matches Ok(c) && mode_asked_for(c) is Some,
        option@ == "--mode"@,
        answers(s, request(args + seq![option, name])),
        answers(t, request(args + seq![option])),
    ensures
        name@ == "720p"@ || name@ == "480p"@ ==> {
            &&& s is Ok
            &&& same_but_for_the_mode(r->Ok_0, s->Ok_0)
            &&& name@ == "720p"@ ==> has_pixels(mode_asked_for(s->Ok_0), 1280, 720)
            &&& name@ == "480p"@ ==> has_pixels(mode_asked_for(s->Ok_0), 640, 480)
        },
        name@ != "720p"@ && name@ != "480p"@ ==> s is Err,
        t is Err,
{
    lemma_words_differ();
    let both = seq![option, name];
    let one = seq![option];
    lemma_one_option_more(args, both);
    lemma_one_option_more(args, one);
    let n = args.len() as int;
    let words = args.skip(1) + both;
    let deeper = args.skip(2) + both;
    if args[0]@ == "fb"@ {
        assert(deeper[n - 2] == option && deeper[n - 1] == name);
        assert((args.skip(2) + one)[n - 2] == option);
    } else {
        assert(words[n - 1] == option && words[n] == name);
        assert((args.skip(1) + one)[n - 1] == option);
    }
    reveal_with_fuel(mode_options, 2);
}

/// One more `--off` makes `hdmi` power the transmitter down and changes nothing
/// else. Every other command refuses it, and every command that takes a mode
/// refuses any further word that is no option of it, and names it.
pub proof fn nothing_but_options_may_follow(
    args: Seq<String>,
    word: String,
    r: Result<Command>,
    s: Result<Command>,
)
    requires
        answers(r, request(args)),
        r matches Ok(c) && mode_asked_for(c) is Some,
        word@ != "--mode"@,
        answers(s, request(args + seq![word])),
    ensures
        r->Ok_0 is Hdmi && word@ == "--off"@ ==> s is Ok && s->Ok_0 is Hdmi && s->Ok_0->off
            && mode_asked_for(s->Ok_0) == mode_asked_for(r->Ok_0),
        !(r->Ok_0 is Hdmi && word@ == "--off"@) ==> refused_for(s, word@),
{
    lemma_words_differ();
    let one = seq![word];
    lemma_one_option_more(args, one);
    let n = args.len() as int;
    if args[0]@ == "fb"@ {
        assert((args.skip(2) + one)[n - 2] == word);
    } else {
        assert((args.skip(1) + one)[n - 1] == word);
    }
    reveal_with_fuel(mode_options, 2);
}

/// The same words, one place further on.
proof fn lemma_image_shifted(
    front: Seq<String>,
    words: Seq<String>,
    i: int,
    size: Option<(u32, u32)>,
    clear: bool,
    path: Option<Seq<char>>,
)
    requires
        0 <= i <= words.len(),
    ensures
        image_options(front + words, front.len() + i, size, clear, path) == image_options(
            words,
            i,
            size,
            clear,
            path,
        ),
    decreases words.len() - i,
{
    if i < words.len() {
        assert((front + words)[front.len() + i] == words[i]);
        if words[i]@ == "--clear"@ {
            lemma_image_shifted(front, words, i + 1, size, true, path);
        } else if words[i]@ == "--size"@ {
            if i + 1 < words.len() {
                assert((front + words)[front.len() + i + 1] == words[i + 1]);
                if let Some(wh) = size_in(words[i + 1]@) {
                    lemma_image_shifted(front, words, i + 2, Some(wh), clear, path);
                }
            }
        } else if !is_option(words[i]@) && path is None {
            lemma_image_shifted(front, words, i + 1, size, clear, Some(words[i]@));
        }
    }
}

/// Whether the screen is to be cleared decides nothing else.
proof fn lemma_image_cleared(
    words: Seq<String>,
    i: int,
    size: Option<(u32, u32)>,
    clear: bool,
    path: Option<Seq<char>>,
)
    ensures
        image_options(words, i, size, true, path) == match image_options(
            words,
            i,
            size,
            clear,
            path,
        ) {
            Request::Image { size, path, .. } => Request::Image { size, clear: true, path },
            q => q,
        },
    decreases words.len() - i,
{
    if 0 <= i < words.len() {
        if words[i]@ == "--clear"@ {
            lemma_image_cleared(words, i + 1, size, true, path);
        } else if words[i]@ == "--size"@ {
            if i + 1 < words.len() {
                if let Some(wh) = size_in(words[i + 1]@) {
                    lemma_image_cleared(words, i + 2, Some(wh), clear, path);
                }
            }
        } else if !is_option(words[i]@) && path is None {
            lemma_image_cleared(words, i + 1, size, clear, Some(words[i]@));
        }
    }
}

/// An earlier size is the size where no later one is given.
proof fn lemma_image_sized(
    words: Seq<String>,
    i: int,
    wh: (u32, u32),
    clear: bool,
    path: Option<Seq<char>>,
)
    ensures
        image_options(words, i, None, clear, path) matches Request::Image { size: z, clear: c, path: p }
            ==> image_options(words, i, Some(wh), clear, path) == (Request::Image {
            size: if z is Some {
                z
            } else {
                Some(wh)
            },
            clear: c,
            path: p,
        }),
        image_options(words, i, None, clear, path) is Refused ==> image_options(
            words,
            i,
            Some(wh),
            clear,
            path,
        ) is Refused,
    decreases words.len() - i,
{
    if 0 <= i < words.len() {
        if words[i]@ == "--clear"@ {
            lemma_image_sized(words, i + 1, wh, true, path);
        } else if words[i]@ == "--size"@ {
            if i + 1 < words.len() {
                if let Some(later) = size_in(words[i + 1]@) {
                    lemma_image_has_a_size(words, i + 2, later, clear, path);
                }
            }
        } else if !is_option(words[i]@) && path is None {
            lemma_image_sized(words, i + 1, wh, clear, Some(words[i]@));
        }
    }
}

/// A size that was given is not lost.
proof fn lemma_image_has_a_size(
    words: Seq<String>,
    i: int,
    wh: (u32, u32),
    clear: bool,
    path: Option<Seq<char>>,
)
    ensures
        image_options(words, i, Some(wh), clear, path) matches Request::Image { size, .. } ==> size
            is Some,
    decreases words.len() - i,
{
    if 0 <= i < words.len() {
        if words[i]@ == "--clear"@ {
            lemma_image_has_a_size(words, i + 1, wh, true, path);
        } else if words[i]@ == "--size"@ {
            if i + 1 < words.len() {
                if let Some(later) = size_in(words[i + 1]@) {
                    lemma_image_has_a_size(words, i + 2, later, clear, path);
                }
            }
        } else if !is_option(words[i]@) && path is None {
            lemma_image_has_a_size(words, i + 1, wh, clear, Some(words[i]@));
        }
    }
}

/// An image that was accepted is accepted with more behind it, which is then what
/// is left to look at.
proof fn lemma_past_the_image(
    words: Seq<String>,
    more: Seq<String>,
    i: int,
    size: Option<(u32, u32)>,
    clear: bool,
    path: Option<Seq<char>>,
)
    requires
        0 <= i <= words.len(),
    ensures
        image_options(words, i, size, clear, path) matches Request::Image { size: z, clear: c, path: p }
            ==> image_options(words + more, i, size, clear, path) == image_options(
            words + more,
            words.len() as int,
            z,
            c,
            Some(p),
        ),
    decreases words.len() - i,
{
    if i < words.len() {
        assert((words + more)[i] == words[i]);
        if words[i]@ == "--clear"@ {
            lemma_past_the_image(words, more, i + 1, size, true, path);
        } else if words[i]@ == "--size"@ {
            if i + 1 < words.len() {
                assert((words + more)[i + 1] == words[i + 1]);
                if let Some(wh) = size_in(words[i + 1]@) {
                    lemma_past_the_image(words, more, i + 2, Some(wh), clear, path);
                }
            }
        } else if !is_option(words[i]@) && path is None {
            lemma_past_the_image(words, more, i + 1, size, clear, Some(words[i]@));
        }
    }
}

/// `image` with a single word that is no option is the image of that path, of the
/// size of the frame buffer, with nothing cleared; and `image` alone is refused.
pub proof fn an_image_needs_one_path(args: Seq<String>, r: Result<Command>)
    requires
        answers(r, request(args)),
        1 <= args.len() <= 2,
        args[0]@ == "image"@,
    ensures
        args.len() == 1 ==> r is Err,
        args.len() == 2 && !(args[1]@.len() >= 2 && args[1]@[0] == '-' && args[1]@[1] == '-')
            ==> shows(r, None, false, args[1]@),
        args.len() == 2 && args[1]@.len() >= 2 && args[1]@[0] == '-' && args[1]@[1] == '-' ==> r
            is Err,
{
    lemma_words_differ();
    reveal_with_fuel(image_options, 3);
}

/// An option in front of the words of an image has the effect of that option
/// alone: `--clear` clears, and a `--size` is the size where no later one is
/// given. An image that is refused without it is refused with it.
pub proof fn an_option_before_an_image_only_adds_to_it(
    head: String,
    option: String,
    value: String,
    rest: Seq<String>,
    r: Result<Command>,
    s: Result<Command>,
    t: Result<Command>,
)
    requires
        head@ == "image"@,
        answers(r, request(seq![head] + rest)),
        option@ == "--clear"@ ==> answers(s, request(seq![head, option] + rest)),
        option@ == "--size"@ ==> answers(t, request(seq![head, option, value] + rest)),
    ensures
        option@ == "--clear"@ ==> match r {
            Ok(Command::Image { size, path, .. }) => shows(s, size, true, path@),
            _ => s is Err,
        },
        option@ == "--size"@ && size_in(value@) is Some ==> match r {
            Ok(Command::Image { size, clear, path }) => shows(
                t,
                if size is Some {
                    size
                } else {
                    size_in(value@)
                },
                clear,
                path@,
            ),
            _ => t is Err,
        },
        option@ == "--size"@ && size_in(value@) is None ==> t is Err,
{
    lemma_words_differ();
    assert((seq![head] + rest).skip(1) =~= rest);
    lemma_image_is_an_image(rest, 0, None, false, None);
    if option@ == "--clear"@ {
        let front = seq![option];
        assert((seq![head, option] + rest).skip(1) =~= front + rest);
        assert((front + rest)[0] == option);
        lemma_image_shifted(front, rest, 0, None, true, None);
        lemma_image_cleared(rest, 0, None, false, None);
    } else if option@ == "--size"@ {
        let front = seq![option, value];
        assert((seq![head, option, value] + rest).skip(1) =~= front + rest);
        assert((front + rest)[0] == option && (front + rest)[1] == value);
        if let Some(wh) = size_in(value@) {
            lemma_image_shifted(front, rest, 0, Some(wh), false, None);
            lemma_image_sized(rest, 0, wh, false, None);
        }
    }
}

/// An option behind the words of an image has the effect of that option alone,
/// too: `--clear` clears, and a `--size` replaces the size. Nothing else may stand
/// there.
pub proof fn an_option_behind_an_image_only_adds_to_it(
    args: Seq<String>,
    option: String,
    value: String,
    r: Result<Command>,
    s: Result<Command>,
    t: Result<Command>,
)
    requires
        answers(r, request(args)),
        r matches Ok(c) && c is Image,
        answers(s, request(args + seq![option])),
        option@ == "--size"@ ==> answers(t, request(args + seq![option, value])),
    ensures
        ({
            let size = r->Ok_0->size;
            let clear = r->Ok_0->Image_clear;
            let path = r->Ok_0->path;
            &&& option@ == "--clear"@ ==> shows(s, size, true, path@)
            &&& option@ == "--size"@ && size_in(value@) is Some ==> shows(
                t,
                size_in(value@),
                clear,
                path@,
            )
        }),
        option@ != "--clear"@ ==> s is Err,
        option@ == "--size"@ && size_in(value@) is None ==> t is Err,
{
    lemma_words_differ();
    let rest = args.skip(1);
    let one = seq![option];
    let both = seq![option, value];
    let n = rest.len() as int;
    assert(args.len() > 0 && args[0]@ == "image"@);
    assert((args + one).skip(1) =~= rest + one);
    assert((args + both).skip(1) =~= rest + both);
    assert((args + one)[0] == args[0]);
    assert((args + both)[0] == args[0]);
    lemma_past_the_image(rest, one, 0, None, false, None);
    lemma_past_the_image(rest, both, 0, None, false, None);
    assert((rest + one)[n] == option);
    assert((rest + both)[n] == option && (rest + both)[n + 1] == value);
    reveal_with_fuel(image_options, 2);
}

/// A size is two numbers with an `x` between them, the first one being the width,
/// and neither of them zero.
pub proof fn a_size_is_two_numbers(s: Seq<char>, x: int)
    requires
        0 <= x < s.len(),
        s[x] == 'x',
        forall|i: int| 0 <= i < x ==> (#[trigger] s[i]) != 'x',
    ensures
        size_in(s) == match (number_in(s.take(x)), number_in(s.skip(x + 1))) {
            (Some(w), Some(h)) => if w == 0 || h == 0 {
                None
            } else {
                Some((w, h))
            },
            _ => None,
        },
{
    lemma_first_place(s, 'x', 0, x);
}

/// `probe` takes `--json`, any number of times, and nothing else.
pub proof fn a_probe_takes_json_and_nothing_else(args: Seq<String>, r: Result<Command>)
    requires
        answers(r, request(args)),
        args.len() > 0,
        args[0]@ == "probe"@,
    ensures
        (forall|i: int| 1 <= i < args.len() ==> (#[trigger] args[i])@ == "--json"@) ==> r == Ok::<
            Command,
            Error,
        >(Command::Probe { json: args.len() > 1 }),
        (exists|i: int| 1 <= i < args.len() && (#[trigger] args[i])@ != "--json"@) ==> r is Err,
{
    lemma_words_differ();
    let rest = args.skip(1);
    lemma_not_json(rest, 0);
    if forall|i: int| 1 <= i < args.len() ==> (#[trigger] args[i])@ == "--json"@ {
        if let Some(k) = not_json(rest, 0) {
            assert(args[k + 1]@ == "--json"@);
        }
    }
    if exists|i: int| 1 <= i < args.len() && (#[trigger] args[i])@ != "--json"@ {
        let i = choose|i: int| 1 <= i < args.len() && (#[trigger] args[i])@ != "--json"@;
        assert(rest[i - 1] == args[i]);
    }
}

/// The first word that is not `--json` is found if there is one.
proof fn lemma_not_json(words: Seq<String>, i: int)
    requires
        0 <= i <= words.len(),
    ensures
        match not_json(words, i) {
            Some(k) => i <= k < words.len() && words[k]@ != "--json"@,
            None => forall|k: int| i <= k < words.len() ==> (#[trigger] words[k])@ == "--json"@,
        },
    decreases words.len() - i,
{
    if i < words.len() && words[i]@ == "--json"@ {
        lemma_not_json(words, i + 1);
    }
}

/// `fb disable` and the three ways to ask for help take nothing behind them; `fb`
/// takes `enable` or `disable`; and a line that begins with no command at all is
/// refused, by its first word where it has one.
pub proof fn a_line_that_is_no_command_is_refused(args: Seq<String>, r: Result<Command>)
    requires
        answers(r, request(args)),
    ensures
        args.len() == 0 ==> r is Err,
        args.len() > 0 && (args[0]@ == "--help"@ || args[0]@ == "-h"@ || args[0]@ == "help"@)
            ==> if args.len() == 1 {
            r == Ok::<Command, Error>(Command::Help)
        } else {
            r is Err
        },
        args.len() > 0 && args[0]@ == "fb"@ ==> {
            &&& args.len() == 1 ==> r is Err
            &&& args.len() > 1 && args[1]@ == "disable"@ ==> if args.len() == 2 {
                r == Ok::<Command, Error>(Command::FbDisable)
            } else {
                r is Err
            }
            &&& args.len() > 1 && args[1]@ != "disable"@ && args[1]@ != "enable"@ ==> r is Err
        },
        args.len() > 0 && args[0]@ != "--help"@ && args[0]@ != "-h"@ && args[0]@ != "help"@
            && args[0]@ != "probe"@ && args[0]@ != "hdmi"@ && args[0]@ != "fb"@ && args[0]@ != "say"@
            && args[0]@ != "image"@ && args[0]@ != "up"@ ==> refused_for(r, args[0]@),
        r matches Err(e) ==> e is Usage,
{
    lemma_words_differ();
    if args.len() > 0 {
        lemma_image_is_an_image(args.skip(1), 0, None, false, None);
    }
}

} // verus!
