//! Every way the tool is allowed to fail.

use vstd::prelude::*;

use crate::text::{decimal, push_decimal};

verus! {

/// The operating system's own error, carried through unread.
#[verifier::external_type_specification]
#[verifier::external_body]
pub struct ExIoError(std::io::Error);

/// Every way this tool is allowed to fail.
///
/// An installer treats any non-zero exit as "no splash this time", so the
/// exit codes matter more than the messages.
#[derive(Debug)]
pub enum Error {
    /// The command line did not parse. Exit 2.
    Usage(String),
    /// GPI bit 31 was set: there is no bitstream in the fabric. Exit 10.
    NoBitstream,
    /// The fabric never acked a mailbox strobe within the deadline. Exit 11.
    Timeout,
    /// No `/dev/i2c-N` answered at chip address 0x39. Exit 12.
    NoAdv7513,
    /// More than one `/dev/i2c-N` answered at 0x39, so the bus is ambiguous
    /// and picking the first would silently pick the wrong one. Exit 13.
    AmbiguousBus(Vec<u8>),
    /// `/dev/mem`, `/dev/i2c-*`, sysfs or a tty could not be opened or used.
    /// Exit 14.
    Io {
        /// What was being touched, for the stderr line.
        what: String,
        /// The operating system's error.
        source: std::io::Error,
    },
}

/// Shorthand for the crate's fallible operations.
pub type Result<T> = std::result::Result<T, Error>;

/// `std::io::Error` as `Display` writes it. The words come from the operating
/// system, so nothing is claimed of them.
#[verifier::external_body]
fn io_error_text(source: &std::io::Error) -> String {
    source.to_string()
}

/// The numbers of `s` from `i` on, each after the first behind a comma and a
/// space.
pub open spec fn listed_from(s: Seq<u8>, i: int) -> Seq<char>
    decreases s.len() - i,
{
    if i < 0 || i >= s.len() {
        Seq::<char>::empty()
    } else {
        (if i == 0 { Seq::<char>::empty() } else { ", "@ }) + decimal(s[i] as nat) + listed_from(
            s,
            i + 1,
        )
    }
}

/// A list of bus numbers: `[0, 2]`.
pub open spec fn bracketed(s: Seq<u8>) -> Seq<char> {
    "["@ + listed_from(s, 0) + "]"@
}

impl Error {
    /// The process exit code that belongs to an error.
    pub open spec fn code(&self) -> i32 {
        match self {
            Error::Usage(_) => 2,
            Error::NoBitstream => 10,
            Error::Timeout => 11,
            Error::NoAdv7513 => 12,
            Error::AmbiguousBus(_) => 13,
            Error::Io { .. } => 14,
        }
    }

    /// Is `t` a line that describes the error? Only the words of the operating
    /// system's own error are left open.
    pub open spec fn described_by(&self, t: Seq<char>) -> bool {
        match self {
            Error::Usage(msg) => t == "usage: "@ + msg@,
            Error::NoBitstream => t
                == "no bitstream in the fabric (GPI bit 31): load a core first"@,
            Error::Timeout => t == "mailbox timeout: the fabric never acked"@,
            Error::NoAdv7513 => t == "no ADV7513 found at 0x39 on any i2c bus"@,
            Error::AmbiguousBus(buses) => t == "ADV7513 answered on more than one i2c bus: "@
                + bracketed(buses@),
            Error::Io { what, .. } => exists|os: Seq<char>| t == #[trigger] (what@ + ": "@ + os),
        }
    }

    /// The process exit code for this error.
    pub fn exit_code(&self) -> (code: i32)
        ensures
            code == self.code(),
    {
        match self {
            Error::Usage(_) => 2,
            Error::NoBitstream => 10,
            Error::Timeout => 11,
            Error::NoAdv7513 => 12,
            Error::AmbiguousBus(_) => 13,
            Error::Io { .. } => 14,
        }
    }

    /// Build an [`Error::Io`] naming what was being touched.
    pub fn io(what: &str, source: std::io::Error) -> (e: Self)
        ensures
            e matches Error::Io { what: w, source: s } && w@ == what@ && s == source,
    {
        Error::Io { what: what.to_owned(), source }
    }

    /// The line that describes this error. What it makes of the operating system's
    /// words is [`io_line`]; the words themselves are left open.
    pub fn message(&self) -> (t: String)
        ensures
            self.described_by(t@),
    {
        match self {
            Error::Usage(msg) => {
                let mut t = "usage: ".to_owned();
                t.append(msg.as_str());
                t
            },
            Error::NoBitstream => "no bitstream in the fabric (GPI bit 31): load a core first".to_owned(),
            Error::Timeout => "mailbox timeout: the fabric never acked".to_owned(),
            Error::NoAdv7513 => "no ADV7513 found at 0x39 on any i2c bus".to_owned(),
            Error::AmbiguousBus(buses) => {
                let mut t = "ADV7513 answered on more than one i2c bus: ".to_owned();
                push_bracketed(&mut t, buses);
                t
            },
            Error::Io { what, source } => {
                let os = io_error_text(source);
                io_line(what.as_str(), os.as_str())
            },
        }
    }
}

/// The line that describes an [`Error::Io`], given the words of the operating
/// system.
pub fn io_line(what: &str, os: &str) -> (t: String)
    ensures
        t@ == what@ + ": "@ + os@,
{
    let mut t = what.to_owned();
    t.append(": ");
    t.append(os);
    t
}

/// Append a list of bus numbers.
fn push_bracketed(out: &mut String, s: &Vec<u8>)
    ensures
        final(out)@ == old(out)@ + bracketed(s@),
{
    out.append("[");
    let mut i: usize = 0;
    while i < s.len()
        invariant
            i <= s.len(),
            out@ + listed_from(s@, i as int) == old(out)@ + "["@ + listed_from(s@, 0),
        decreases s.len() - i,
    {
        let ghost before = out@;
        if i > 0 {
            out.append(", ");
        }
        push_decimal(out, s[i] as u64);
        i = i + 1;
        assert(out@ + listed_from(s@, i as int) =~= before + listed_from(s@, i - 1));
    }
    assert(out@ =~= old(out)@ + "["@ + listed_from(s@, 0));
    out.append("]");
    assert(out@ =~= old(out)@ + bracketed(s@));
}

/// Exit codes tell the failures apart: two errors with one code are of one
/// variant, and every code is one that a process can exit with and none is the
/// code of success.
pub proof fn exit_codes_tell_failures_apart(a: Error, b: Error)
    ensures
        1 <= a.code() <= 255,
        a.code() == b.code() ==> {
            ||| a is Usage && b is Usage
            ||| a is NoBitstream && b is NoBitstream
            ||| a is Timeout && b is Timeout
            ||| a is NoAdv7513 && b is NoAdv7513
            ||| a is AmbiguousBus && b is AmbiguousBus
            ||| a is Io && b is Io
        },
{
}

/// The buses of an ambiguity are listed all, in order and with a comma and a space
/// between two of them, wherever the list is cut.
pub proof fn every_bus_is_listed(a: Seq<u8>, b: Seq<u8>)
    requires
        a.len() > 0,
        b.len() > 0,
    ensures
        listed_from(a + b, 0) == listed_from(a, 0) + seq![',', ' '] + listed_from(b, 0),
        a.len() == 1 ==> listed_from(a, 0) == decimal(a[0] as nat),
{
    reveal_strlit(", ");
    assert(", "@ =~= seq![',', ' ']);
    lemma_listed(a, b, 0);
    lemma_listed_behind(a, b, 0);
    assert(b[0] == (a + b)[a.len() as int]);
    assert(listed_from(a + b, a.len() as int) =~= seq![',', ' '] + listed_from(b, 0));
    if a.len() == 1 {
        reveal_with_fuel(listed_from, 2);
        assert(listed_from(a, 0) =~= decimal(a[0] as nat));
    }
}

/// The first part of a list comes first.
proof fn lemma_listed(a: Seq<u8>, b: Seq<u8>, i: int)
    requires
        0 <= i <= a.len(),
    ensures
        listed_from(a + b, i) == listed_from(a, i) + listed_from(a + b, a.len() as int),
    decreases a.len() - i,
{
    if i < a.len() {
        lemma_listed(a, b, i + 1);
        assert((a + b)[i] == a[i]);
    }
    assert(listed_from(a + b, i) =~= listed_from(a, i) + listed_from(a + b, a.len() as int));
}

/// The second part of a list is listed as it would be alone, behind its first.
proof fn lemma_listed_behind(a: Seq<u8>, b: Seq<u8>, i: int)
    requires
        a.len() > 0,
        0 <= i <= b.len(),
    ensures
        i > 0 ==> listed_from(a + b, a.len() + i) == listed_from(b, i),
        i == 0 && b.len() > 0 ==> listed_from(a + b, a.len() as int) == ", "@ + listed_from(b, 0),
    decreases b.len() - i,
{
    if i < b.len() {
        lemma_listed_behind(a, b, i + 1);
        assert((a + b)[a.len() + i] == b[i]);
        if i == 0 {
            assert(listed_from(a + b, a.len() as int) =~= ", "@ + listed_from(b, 0));
        }
    }
}

/// The line for an error says what is wrong: a usage error in its own words, an
/// ambiguity with every bus, and an error of the operating system with what was
/// being touched in front of the system's words.
pub proof fn an_error_says_what_is_wrong(e: Error, t: Seq<char>)
    requires
        e.described_by(t),
    ensures
        e matches Error::Usage(msg) ==> t.skip(7) == msg@,
        e matches Error::AmbiguousBus(buses) ==> t.skip(43) == seq!['['] + listed_from(buses@, 0)
            + seq![']'],
        e matches Error::Io { what, .. } ==> t.len() >= what@.len() + 2 && t.take(
            what@.len() as int,
        ) == what@ && t[what@.len() as int] == ':' && t[what@.len() as int + 1] == ' ',
{
    reveal_strlit("usage: ");
    reveal_strlit("ADV7513 answered on more than one i2c bus: ");
    reveal_strlit("[");
    reveal_strlit("]");
    reveal_strlit(": ");
    match e {
        Error::Usage(msg) => {
            assert("usage: "@.len() == 7);
            assert(t.skip(7) =~= msg@);
        },
        Error::AmbiguousBus(buses) => {
            assert("ADV7513 answered on more than one i2c bus: "@.len() == 43);
            assert(t.skip(43) =~= seq!['['] + listed_from(buses@, 0) + seq![']']);
        },
        Error::Io { what, .. } => {
            let os = choose|os: Seq<char>| t == #[trigger] (what@ + ": "@ + os);
            assert(": "@.len() == 2);
            assert(t.take(what@.len() as int) =~= what@);
            assert(t[what@.len() as int] == ": "@[0]);
            assert(t[what@.len() as int + 1] == ": "@[1]);
        },
        _ => {},
    }
}

} // verus!
