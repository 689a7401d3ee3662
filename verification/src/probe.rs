//! `probe`: what is there, in lines or as one JSON object.
//!
//! Three questions are asked, and all of them always: is there a bitstream in
//! the fabric, which bus is the transmitter on, and is the kernel's geometry
//! knob there. The exit code is that of the first that went wrong.

use vstd::prelude::*;

use crate::error::{Error, Result};
use crate::hw::{bus_node, bus_path, FB_MODE_PATH};
use crate::mailbox::no_bitstream;
use crate::sequence::fabric_ready;
use crate::text::{
    a_byte_comes_back_from_its_digits, a_word_comes_back_from_its_digits, chars_of, decimal, hex_byte,
    hex_value_of, hex_word, integer, lemma_decimal, push_hex_byte, push_hex_word, push_integer,
};

verus! {

/// One line of `probe`'s output: a question and its answer.
#[derive(Debug, PartialEq, Eq)]
pub struct Finding {
    /// The short name of the question.
    pub name: &'static str,
    /// Did the check pass?
    pub ok: bool,
    /// The answer, or the error's message.
    pub detail: String,
    /// The exit code that the finding would produce, 0 where it passed.
    pub code: i32,
}

impl Finding {
    /// Does the finding report that a check passed?
    pub open spec fn passes(&self, name: Seq<char>, detail: Seq<char>) -> bool {
        self.name@ == name && self.ok && self.detail@ == detail && self.code == 0
    }

    /// Does the finding report an error?
    pub open spec fn fails(&self, name: Seq<char>, e: Error) -> bool {
        self.name@ == name && !self.ok && e.described_by(self.detail@) && self.code == e.code()
    }

    /// A check that passed.
    pub fn ok(name: &'static str, detail: String) -> (f: Self)
        ensures
            f.passes(name@, detail@),
    {
        Finding { name, ok: true, detail, code: 0 }
    }

    /// A check that failed.
    pub fn failed(name: &'static str, err: &Error) -> (f: Self)
        ensures
            f.fails(name@, *err),
    {
        Finding { name, ok: false, detail: err.message(), code: err.exit_code() }
    }
}

/// The first question's answer, given the GPI value or the reason there is
/// none.
pub open spec fn bitstream_error(mem: Result<u32>) -> Option<Error> {
    match mem {
        Ok(gpi) => if no_bitstream(gpi) {
            Some(Error::NoBitstream)
        } else {
            None
        },
        Err(e) => Some(e),
    }
}

/// What is said of a fabric with a bitstream.
pub open spec fn bitstream_text(gpi: u32) -> Seq<char> {
    "fabric in user mode (GPI 0x"@ + hex_word(gpi) + ")"@
}

/// What is said of a transmitter that was found.
pub open spec fn chip_text(addr: u8, bus: u8) -> Seq<char> {
    "ADV7513 at 0x"@ + hex_byte(addr) + " on "@ + bus_node(bus)
}

/// What is said of a knob that is there.
pub open spec fn knob_text() -> Seq<char> {
    FB_MODE_PATH@ + " present"@
}

/// The error of a question, if it failed.
pub open spec fn error_of<T>(r: Result<T>) -> Option<Error> {
    match r {
        Ok(_) => None,
        Err(e) => Some(e),
    }
}

/// Does a finding answer a question that has the given error or, where there
/// is none, the given text?
pub open spec fn found(f: Finding, name: Seq<char>, e: Option<Error>, text: Seq<char>) -> bool {
    match e {
        Some(e) => f.fails(name, e),
        None => f.passes(name, text),
    }
}

/// Is this the report of the three answers: one finding for each, in order, and
/// the first error?
pub open spec fn is_report(
    mem: Result<u32>,
    chip: Result<(u8, u8)>,
    knob: Result<()>,
    findings: Seq<Finding>,
    first: Option<Error>,
) -> bool {
    let e0 = bitstream_error(mem);
    let e1 = error_of(chip);
    let e2 = error_of(knob);
    &&& findings.len() == 3
    &&& found(findings[0], "bitstream"@, e0, bitstream_text(mem->Ok_0))
    &&& found(findings[1], "adv7513"@, e1, chip_text(chip->Ok_0.0, chip->Ok_0.1))
    &&& found(findings[2], "fb_mode"@, e2, knob_text())
    &&& first == if e0 is Some {
        e0
    } else if e1 is Some {
        e1
    } else {
        e2
    }
}

/// The error of a knob that could not be looked at.
pub fn knob_missing(source: std::io::Error) -> (e: Error)
    ensures
        e matches Error::Io { what, source: s } && what@ == "stat "@ + FB_MODE_PATH@ && s == source,
{
    let mut what = "stat ".to_owned();
    what.append(FB_MODE_PATH);
    Error::io(what.as_str(), source)
}

/// Report the answers to the three questions: the GPI value, the address and
/// the bus of the transmitter, and whether the geometry knob is there.
pub fn probe_findings(mem: Result<u32>, chip: Result<(u8, u8)>, knob: Result<()>) -> (r: (
    Vec<Finding>,
    Option<Error>,
))
    ensures
        is_report(mem, chip, knob, r.0@, r.1),
{
    let mut findings: Vec<Finding> = Vec::new();
    let mut first: Option<Error> = None;

    match mem {
        Ok(gpi) => {
            if fabric_ready(gpi) {
                let mut detail = "fabric in user mode (GPI 0x".to_owned();
                push_hex_word(&mut detail, gpi);
                detail.append(")");
                findings.push(Finding::ok("bitstream", detail));
            } else {
                findings.push(Finding::failed("bitstream", &Error::NoBitstream));
                first = Some(Error::NoBitstream);
            }
        },
        Err(e) => {
            findings.push(Finding::failed("bitstream", &e));
            first = Some(e);
        },
    }

    match chip {
        Ok((addr, bus)) => {
            let path = bus_path(bus);
            let mut detail = "ADV7513 at 0x".to_owned();
            push_hex_byte(&mut detail, addr);
            detail.append(" on ");
            detail.append(path.as_str());
            findings.push(Finding::ok("adv7513", detail));
        },
        Err(e) => {
            findings.push(Finding::failed("adv7513", &e));
            if first.is_none() {
                first = Some(e);
            }
        },
    }

    match knob {
        Ok(_) => {
            let mut detail = FB_MODE_PATH.to_owned();
            detail.append(" present");
            findings.push(Finding::ok("fb_mode", detail));
        },
        Err(e) => {
            findings.push(Finding::failed("fb_mode", &e));
            if first.is_none() {
                first = Some(e);
            }
        },
    }
    (findings, first)
}

/// The exit code of a report is that of its first failing finding, and 0 where
/// none fails.
pub proof fn the_exit_code_is_the_first_failing_one(
    mem: Result<u32>,
    chip: Result<(u8, u8)>,
    knob: Result<()>,
    findings: Seq<Finding>,
    first: Option<Error>,
)
    requires
        is_report(mem, chip, knob, findings, first),
    ensures
        first is None <==> forall|i: int| 0 <= i < findings.len() ==> (#[trigger] findings[i]).ok,
        forall|i: int|
            0 <= i < findings.len() ==> ((#[trigger] findings[i]).code == 0 <==> findings[i].ok),
        forall|i: int|
            0 <= i < findings.len() && !(#[trigger] findings[i]).ok && (forall|j: int|
                0 <= j < i ==> (#[trigger] findings[j]).ok) ==> first is Some && findings[i].code
                == first->0.code(),
{
}

/// One line for a finding.
pub open spec fn line_of(f: Finding) -> Seq<char> {
    (if f.ok {
        "ok  "@
    } else {
        "FAIL"@
    }) + " "@ + f.name@ + ": "@ + f.detail@
}

/// One line for each finding from `i` on, with a newline between them.
pub open spec fn lines_from(findings: Seq<Finding>, i: int) -> Seq<char>
    decreases findings.len() - i,
{
    if i < 0 || i >= findings.len() {
        Seq::empty()
    } else {
        (if i == 0 {
            Seq::empty()
        } else {
            "\n"@
        }) + line_of(findings[i]) + lines_from(findings, i + 1)
    }
}

/// `probe`'s plain output: one line per finding.
pub fn render_lines(findings: &[Finding]) -> (text: String)
    ensures
        text@ == lines_from(findings@, 0),
{
    let mut text = String::new();
    let mut i: usize = 0;
    while i < findings.len()
        invariant
            i <= findings.len(),
            text@ + lines_from(findings@, i as int) == lines_from(findings@, 0),
        decreases findings.len() - i,
    {
        let ghost before = text@;
        if i > 0 {
            text.append("\n");
        }
        if findings[i].ok {
            text.append("ok  ");
        } else {
            text.append("FAIL");
        }
        text.append(" ");
        text.append(findings[i].name);
        text.append(": ");
        text.append(findings[i].detail.as_str());
        i = i + 1;
        assert(text@ + lines_from(findings@, i as int) =~= before + lines_from(
            findings@,
            i - 1,
        ));
    }
    assert(text@ =~= lines_from(findings@, 0));
    text
}

/// The lower-case hexadecimal digit `d`, for `d` below sixteen.
pub open spec fn small_hex(d: nat) -> char {
    if d < 10 {
        ('0' as nat + d) as char
    } else {
        ('a' as nat + (d - 10)) as char
    }
}

/// A character inside a JSON string: quote, backslash and everything below a
/// space escaped, with the short forms where there are any.
pub open spec fn escaped(c: char) -> Seq<char> {
    if c == '"' {
        seq!['\\', '"']
    } else if c == '\\' {
        seq!['\\', '\\']
    } else if c == '\n' {
        seq!['\\', 'n']
    } else if c == '\r' {
        seq!['\\', 'r']
    } else if c == '\t' {
        seq!['\\', 't']
    } else if c == '\u{8}' {
        seq!['\\', 'b']
    } else if c == '\u{c}' {
        seq!['\\', 'f']
    } else if (c as u32) < 0x20 {
        seq!['\\', 'u', '0', '0', small_hex(c as nat / 16), small_hex(c as nat % 16)]
    } else {
        seq![c]
    }
}

/// The characters of `s` from `i` on, each escaped.
pub open spec fn escaped_from(s: Seq<char>, i: int) -> Seq<char>
    decreases s.len() - i,
{
    if i < 0 || i >= s.len() {
        Seq::empty()
    } else {
        escaped(s[i]) + escaped_from(s, i + 1)
    }
}

/// The JSON string literal for a text.
pub open spec fn json_text(s: Seq<char>) -> Seq<char> {
    seq!['"'] + escaped_from(s, 0) + seq!['"']
}

/// The character of a lower-case hexadecimal digit.
fn small_hex_char(d: u8) -> (c: char)
    requires
        d < 16,
    ensures
        c == small_hex(d as nat),
{
    let code: u8 = if d < 10 {
        48 + d
    } else {
        87 + d
    };
    code as char
}

/// Append a character as it stands inside a JSON string.
fn push_escaped(out: &mut String, c: char)
    ensures
        final(out)@ == old(out)@ + escaped(c),
{
    if c == '"' {
        out.push('\\');
        out.push('"');
    } else if c == '\\' {
        out.push('\\');
        out.push('\\');
    } else if c == '\n' {
        out.push('\\');
        out.push('n');
    } else if c == '\r' {
        out.push('\\');
        out.push('r');
    } else if c == '\t' {
        out.push('\\');
        out.push('t');
    } else if c == '\u{8}' {
        out.push('\\');
        out.push('b');
    } else if c == '\u{c}' {
        out.push('\\');
        out.push('f');
    } else if (c as u32) < 0x20 {
        let code: u8 = c as u8;
        out.push('\\');
        out.push('u');
        out.push('0');
        out.push('0');
        out.push(small_hex_char(code / 16));
        out.push(small_hex_char(code % 16));
    } else {
        out.push(c);
    }
    assert(out@ =~= old(out)@ + escaped(c));
}

/// One JSON string literal, quotes included.
pub fn json_string(s: &str) -> (text: String)
    ensures
        text@ == json_text(s@),
{
    let chars = chars_of(s);
    let mut out = String::new();
    out.push('"');
    let mut i: usize = 0;
    while i < chars.len()
        invariant
            chars@ == s@,
            i <= chars.len(),
            out@ + escaped_from(s@, i as int) == seq!['"'] + escaped_from(s@, 0),
        decreases chars.len() - i,
    {
        let ghost before = out@;
        push_escaped(&mut out, chars[i]);
        i = i + 1;
        assert(out@ + escaped_from(s@, i as int) =~= before + escaped_from(s@, i - 1));
    }
    assert(out@ =~= seq!['"'] + escaped_from(s@, 0));
    out.push('"');
    assert(out@ =~= json_text(s@));
    out
}

/// `true` or `false`.
pub open spec fn json_bool(b: bool) -> Seq<char> {
    if b {
        "true"@
    } else {
        "false"@
    }
}

/// The JSON object for a finding.
pub open spec fn object_of(f: Finding) -> Seq<char> {
    "{\"name\":"@ + json_text(f.name@) + ",\"ok\":"@ + json_bool(f.ok) + ",\"detail\":"@ + json_text(
        f.detail@,
    ) + ",\"exit_code\":"@ + integer(f.code as int) + "}"@
}

/// One JSON object for each finding from `i` on, with a comma between them.
pub open spec fn objects_from(findings: Seq<Finding>, i: int) -> Seq<char>
    decreases findings.len() - i,
{
    if i < 0 || i >= findings.len() {
        Seq::empty()
    } else {
        (if i == 0 {
            Seq::empty()
        } else {
            ","@
        }) + object_of(findings[i]) + objects_from(findings, i + 1)
    }
}

/// Append the JSON object for a finding.
fn push_object(out: &mut String, f: &Finding)
    ensures
        final(out)@ == old(out)@ + object_of(*f),
{
    let name = json_string(f.name);
    let detail = json_string(f.detail.as_str());
    out.append("{\"name\":");
    out.append(name.as_str());
    out.append(",\"ok\":");
    if f.ok {
        out.append("true");
    } else {
        out.append("false");
    }
    out.append(",\"detail\":");
    out.append(detail.as_str());
    out.append(",\"exit_code\":");
    push_integer(out, f.code);
    out.append("}");
    assert(out@ =~= old(out)@ + object_of(*f));
}

/// `probe --json`, as text.
pub open spec fn json_report(findings: Seq<Finding>, code: int) -> Seq<char> {
    "{\"findings\":["@ + objects_from(findings, 0) + "],\"exit_code\":"@ + integer(code) + "}"@
}

/// `probe --json`: one object.
pub fn render_json(findings: &[Finding], code: i32) -> (text: String)
    ensures
        text@ == json_report(findings@, code as int),
{
    let mut text = "{\"findings\":[".to_owned();
    let ghost start = text@;
    let mut i: usize = 0;
    while i < findings.len()
        invariant
            i <= findings.len(),
            text@ + objects_from(findings@, i as int) == start + objects_from(findings@, 0),
        decreases findings.len() - i,
    {
        let ghost before = text@;
        if i > 0 {
            text.append(",");
        }
        push_object(&mut text, &findings[i]);
        i = i + 1;
        assert(text@ + objects_from(findings@, i as int) =~= before + objects_from(
            findings@,
            i - 1,
        ));
    }
    assert(text@ =~= start + objects_from(findings@, 0));
    text.append("],\"exit_code\":");
    push_integer(&mut text, code);
    text.append("}");
    text
}

/// The exit code of a report whose first error is `first`.
pub open spec fn report_code(first: Option<Error>) -> int {
    match first {
        Some(e) => e.code() as int,
        None => 0,
    }
}

/// What `probe` prints, and how it ends: with its first error, if there is one.
pub fn report(findings: &[Finding], first: Option<Error>, json: bool) -> (r: (String, Result<()>))
    ensures
        r.0@ == if json {
            json_report(findings@, report_code(first))
        } else {
            lines_from(findings@, 0)
        },
        r.1 == match first {
            Some(e) => Err::<(), Error>(e),
            None => Ok::<(), Error>(()),
        },
{
    let text = if json {
        let code: i32 = match &first {
            Some(e) => e.exit_code(),
            None => 0,
        };
        render_json(findings, code)
    } else {
        render_lines(findings)
    };
    match first {
        Some(e) => (text, Err(e)),
        None => (text, Ok(())),
    }
}

/// The value of a hexadecimal digit.
pub open spec fn hex_value(c: char) -> Option<nat> {
    if '0' <= c <= '9' {
        Some((c as nat - '0' as nat) as nat)
    } else if 'a' <= c <= 'f' {
        Some((c as nat - 'a' as nat + 10) as nat)
    } else if 'A' <= c <= 'F' {
        Some((c as nat - 'A' as nat + 10) as nat)
    } else {
        None
    }
}

/// The character that a two-character escape stands for.
pub open spec fn short_escape(c: char) -> Option<char> {
    if c == '"' || c == '\\' || c == '/' {
        Some(c)
    } else if c == 'n' {
        Some('\n')
    } else if c == 'r' {
        Some('\r')
    } else if c == 't' {
        Some('\t')
    } else if c == 'b' {
        Some('\u{8}')
    } else if c == 'f' {
        Some('\u{c}')
    } else {
        None
    }
}

/// What a JSON reader makes of a string literal behind its opening quote: the
/// text that it stands for, if the literal is valid and ends with `t`. Escapes
/// of surrogates are not read.
pub open spec fn json_read(t: Seq<char>) -> Option<Seq<char>>
    decreases t.len(),
{
    if t.len() == 0 || (t[0] as u32) < 0x20 {
        None
    } else if t[0] == '"' {
        if t.len() == 1 {
            Some(Seq::empty())
        } else {
            None
        }
    } else if t[0] != '\\' {
        match json_read(t.skip(1)) {
            Some(rest) => Some(seq![t[0]] + rest),
            None => None,
        }
    } else if t.len() >= 2 && t[1] != 'u' {
        match (short_escape(t[1]), json_read(t.skip(2))) {
            (Some(c), Some(rest)) => Some(seq![c] + rest),
            _ => None,
        }
    } else if t.len() >= 6 {
        match (
            hex_value(t[2]),
            hex_value(t[3]),
            hex_value(t[4]),
            hex_value(t[5]),
            json_read(t.skip(6)),
        ) {
            (Some(a), Some(b), Some(c), Some(d), Some(rest)) => {
                let code = a * 0x1000 + b * 0x100 + c * 0x10 + d;
                if 0xD800 <= code < 0xE000 {
                    None
                } else {
                    Some(seq![code as char] + rest)
                }
            },
            _ => None,
        }
    } else {
        None
    }
}

/// Every text comes back from its JSON string literal.
pub proof fn a_text_comes_back_from_its_literal(s: Seq<char>)
    ensures
        json_text(s)[0] == '"',
        json_read(json_text(s).skip(1)) == Some(s),
{
    lemma_read_from(s, 0);
    assert(json_text(s).skip(1) =~= escaped_from(s, 0) + seq!['"']);
    assert(s.skip(0) =~= s);
}

/// A character comes back from its escape.
proof fn lemma_read_one(c: char, rest: Seq<char>)
    requires
        json_read(rest) is Some,
    ensures
        json_read(escaped(c) + rest) == Some(seq![c] + json_read(rest)->0),
{
    let e = escaped(c);
    let t = e + rest;
    assert(t.skip(e.len() as int) =~= rest);
    assert(t[0] == e[0]);
    if e.len() >= 2 {
        assert(t[1] == e[1]);
    }
    if e.len() == 6 {
        assert(t[2] == e[2] && t[3] == e[3] && t[4] == e[4] && t[5] == e[5]);
        let n = c as nat;
        assert(hex_value(e[4]) == Some(n / 16));
        assert(hex_value(e[5]) == Some(n % 16));
        assert(((n / 16) * 0x10 + n % 16) as char == c);
    }
}

/// The rest of a text comes back from the rest of its literal.
proof fn lemma_read_from(s: Seq<char>, i: int)
    requires
        0 <= i <= s.len(),
    ensures
        json_read(escaped_from(s, i) + seq!['"']) == Some(s.skip(i)),
    decreases s.len() - i,
{
    let end = seq!['"'];
    if i == s.len() {
        assert(escaped_from(s, i) + end =~= end);
        assert(s.skip(i) =~= Seq::<char>::empty());
    } else {
        lemma_read_from(s, i + 1);
        let rest = escaped_from(s, i + 1) + end;
        lemma_read_one(s[i], rest);
        assert(escaped_from(s, i) + end =~= escaped(s[i]) + rest);
        assert(s.skip(i) =~= seq![s[i]] + s.skip(i + 1));
    }
}

/// A report answers the three questions in order. It shows the GPI value that was
/// read, and the address and the bus at which the transmitter answered: read back
/// from its digits, the value is the one that was read and the address the one
/// that answered, and the text ends with the device node of the bus.
pub proof fn a_report_names_what_answered(
    mem: Result<u32>,
    chip: Result<(u8, u8)>,
    knob: Result<()>,
    findings: Seq<Finding>,
    first: Option<Error>,
)
    requires
        is_report(mem, chip, knob, findings, first),
    ensures
        findings.len() == 3,
        findings[0].name@ == "bitstream"@,
        findings[1].name@ == "adv7513"@,
        findings[2].name@ == "fb_mode"@,
        findings[0].ok <==> mem is Ok && mem->Ok_0 & 0x8000_0000 == 0,
        findings[1].ok <==> chip is Ok,
        findings[2].ok <==> knob is Ok,
        findings[0].ok ==> hex_value_of(findings[0].detail@.subrange(27, 35)) == mem->Ok_0,
        mem is Ok && !findings[0].ok ==> findings[0].code == 10,
        mem matches Err(e) ==> findings[0].code == e.code(),
        chip matches Ok((addr, bus)) ==> {
            let text = findings[1].detail@;
            let node = "/dev/i2c-"@ + decimal(bus as nat);
            &&& hex_value_of(text.subrange(13, 15)) == addr
            &&& text.len() > node.len()
            &&& text.skip(text.len() - node.len()) == node
        },
        chip matches Err(e) ==> findings[1].code == e.code(),
        knob is Ok ==> findings[2].detail@ == "/sys/module/MiSTer_fb/parameters/mode"@ + " present"@,
        knob matches Err(e) ==> findings[2].code == e.code(),
{
    reveal_strlit("fabric in user mode (GPI 0x");
    reveal_strlit("ADV7513 at 0x");
    reveal_strlit(" on ");
    reveal_strlit(")");
    if findings[0].ok {
        let gpi = mem->Ok_0;
        a_word_comes_back_from_its_digits(gpi);
        assert("fabric in user mode (GPI 0x"@.len() == 27);
        assert(findings[0].detail@.subrange(27, 35) =~= hex_word(gpi));
    }
    if let Ok((addr, bus)) = chip {
        let text = findings[1].detail@;
        let node = "/dev/i2c-"@ + decimal(bus as nat);
        a_byte_comes_back_from_its_digits(addr);
        assert("ADV7513 at 0x"@.len() == 13);
        assert(" on "@.len() == 4);
        assert(text.subrange(13, 15) =~= hex_byte(addr));
        assert(text.skip(text.len() - node.len()) =~= node);
    }
}

/// A transmitter on another bus, or at another address, is reported in other
/// words.
pub proof fn another_bus_reads_differently(
    mem: Result<u32>,
    a: (u8, u8),
    b: (u8, u8),
    knob: Result<()>,
    of_a: Seq<Finding>,
    of_b: Seq<Finding>,
    first_a: Option<Error>,
    first_b: Option<Error>,
)
    requires
        is_report(mem, Ok(a), knob, of_a, first_a),
        is_report(mem, Ok(b), knob, of_b, first_b),
        a != b,
    ensures
        of_a[1].detail@ != of_b[1].detail@,
{
    a_report_names_what_answered(mem, Ok(a), knob, of_a, first_a);
    a_report_names_what_answered(mem, Ok(b), knob, of_b, first_b);
    if of_a[1].detail@ == of_b[1].detail@ {
        let text = of_a[1].detail@;
        let x = decimal(a.1 as nat);
        let y = decimal(b.1 as nat);
        reveal_strlit("ADV7513 at 0x");
        reveal_strlit(" on ");
        reveal_strlit("/dev/i2c-");
        a_byte_comes_back_from_its_digits(a.0);
        a_byte_comes_back_from_its_digits(b.0);
        assert("ADV7513 at 0x"@.len() == 13 && " on "@.len() == 4 && "/dev/i2c-"@.len() == 9);
        assert(text.skip(28) =~= x);
        assert(text.skip(28) =~= y);
        lemma_decimal(a.1 as nat);
        lemma_decimal(b.1 as nat);
    }
}

/// Every finding has its line, wherever the report is cut in two, and a line says
/// whether the check passed, its name and its answer.
pub proof fn every_finding_has_its_line(a: Seq<Finding>, b: Seq<Finding>)
    requires
        a.len() > 0,
        b.len() > 0,
    ensures
        lines_from(a + b, 0) == lines_from(a, 0) + seq!['\n'] + lines_from(b, 0),
        a.len() == 1 && a[0].ok ==> lines_from(a, 0) == "ok   "@ + a[0].name@ + ": "@ + a[0].detail@,
        a.len() == 1 && !a[0].ok ==> lines_from(a, 0) == "FAIL "@ + a[0].name@ + ": "@
            + a[0].detail@,
{
    reveal_strlit("\n");
    assert("\n"@ =~= seq!['\n']);
    lemma_lines(a, b, 0);
    lemma_lines_behind(a, b, 0);
    assert(lines_from(a + b, 0) =~= lines_from(a, 0) + seq!['\n'] + lines_from(b, 0));
    if a.len() == 1 {
        reveal_with_fuel(lines_from, 2);
        reveal_strlit("ok  ");
        reveal_strlit("FAIL");
        reveal_strlit(" ");
        reveal_strlit("ok   ");
        reveal_strlit("FAIL ");
        assert("ok  "@ + " "@ =~= "ok   "@);
        assert("FAIL"@ + " "@ =~= "FAIL "@);
        assert(lines_from(a, 0) =~= line_of(a[0]));
    }
}

/// The first part of a report comes first.
proof fn lemma_lines(a: Seq<Finding>, b: Seq<Finding>, i: int)
    requires
        0 <= i <= a.len(),
    ensures
        lines_from(a + b, i) == lines_from(a, i) + lines_from(a + b, a.len() as int),
    decreases a.len() - i,
{
    if i < a.len() {
        lemma_lines(a, b, i + 1);
        assert((a + b)[i] == a[i]);
    }
    assert(lines_from(a + b, i) =~= lines_from(a, i) + lines_from(a + b, a.len() as int));
}

/// The second part of a report reads as it would alone.
proof fn lemma_lines_behind(a: Seq<Finding>, b: Seq<Finding>, i: int)
    requires
        a.len() > 0,
        0 <= i <= b.len(),
    ensures
        i > 0 ==> lines_from(a + b, a.len() + i) == lines_from(b, i),
        i == 0 && b.len() > 0 ==> lines_from(a + b, a.len() as int) == "\n"@ + lines_from(b, 0),
    decreases b.len() - i,
{
    if i < b.len() {
        lemma_lines_behind(a, b, i + 1);
        assert((a + b)[a.len() + i] == b[i]);
        if i == 0 {
            assert(lines_from(a + b, a.len() as int) =~= "\n"@ + lines_from(b, 0));
        }
    }
}

/// Every finding has its JSON object, wherever the report is cut in two.
pub proof fn every_finding_has_its_object(a: Seq<Finding>, b: Seq<Finding>)
    requires
        a.len() > 0,
        b.len() > 0,
    ensures
        objects_from(a + b, 0) == objects_from(a, 0) + seq![','] + objects_from(b, 0),
{
    reveal_strlit(",");
    assert(","@ =~= seq![',']);
    lemma_objects(a, b, 0);
    lemma_objects_behind(a, b, 0);
    assert(objects_from(a + b, 0) =~= objects_from(a, 0) + seq![','] + objects_from(b, 0));
}

/// The first part of a report comes first.
proof fn lemma_objects(a: Seq<Finding>, b: Seq<Finding>, i: int)
    requires
        0 <= i <= a.len(),
    ensures
        objects_from(a + b, i) == objects_from(a, i) + objects_from(a + b, a.len() as int),
    decreases a.len() - i,
{
    if i < a.len() {
        lemma_objects(a, b, i + 1);
        assert((a + b)[i] == a[i]);
    }
    assert(objects_from(a + b, i) =~= objects_from(a, i) + objects_from(a + b, a.len() as int));
}

/// The second part of a report reads as it would alone.
proof fn lemma_objects_behind(a: Seq<Finding>, b: Seq<Finding>, i: int)
    requires
        a.len() > 0,
        0 <= i <= b.len(),
    ensures
        i > 0 ==> objects_from(a + b, a.len() + i) == objects_from(b, i),
        i == 0 && b.len() > 0 ==> objects_from(a + b, a.len() as int) == ","@ + objects_from(b, 0),
    decreases b.len() - i,
{
    if i < b.len() {
        lemma_objects_behind(a, b, i + 1);
        assert((a + b)[a.len() + i] == b[i]);
        if i == 0 {
            assert(objects_from(a + b, a.len() as int) =~= ","@ + objects_from(b, 0));
        }
    }
}

/// The object of a single finding has four members, and each of them is the
/// finding's own: both texts come back from their literals, and the exit code from
/// its digits.
pub proof fn an_object_says_what_its_finding_says(f: Finding)
    ensures
        exists|name: Seq<char>, ok: Seq<char>, detail: Seq<char>, code: Seq<char>|
            {
                &&& objects_from(seq![f], 0) == #[trigger] json_object(name, ok, detail, code)
                &&& name[0] == '"' && json_read(name.skip(1)) == Some(f.name@)
                &&& detail[0] == '"' && json_read(detail.skip(1)) == Some(f.detail@)
                &&& ok == if f.ok {
                    seq!['t', 'r', 'u', 'e']
                } else {
                    seq!['f', 'a', 'l', 's', 'e']
                }
                &&& f.code >= 0 ==> code == decimal(f.code as nat)
            },
{
    reveal_with_fuel(objects_from, 2);
    reveal_strlit("true");
    reveal_strlit("false");
    assert("true"@ =~= seq!['t', 'r', 'u', 'e']);
    assert("false"@ =~= seq!['f', 'a', 'l', 's', 'e']);
    a_text_comes_back_from_its_literal(f.name@);
    a_text_comes_back_from_its_literal(f.detail@);
    let name = json_text(f.name@);
    let ok = json_bool(f.ok);
    let detail = json_text(f.detail@);
    let code = integer(f.code as int);
    assert(objects_from(seq![f], 0) =~= json_object(name, ok, detail, code));
}

/// A JSON object with the members of a finding.
pub open spec fn json_object(
    name: Seq<char>,
    ok: Seq<char>,
    detail: Seq<char>,
    code: Seq<char>,
) -> Seq<char> {
    "{\"name\":"@ + name + ",\"ok\":"@ + ok + ",\"detail\":"@ + detail + ",\"exit_code\":"@ + code
        + "}"@
}

/// The exit code that a report prints is that of the error with which `probe`
/// ends, and zero where it ends well; and it stands at the end of the JSON object,
/// behind the findings.
pub proof fn a_report_prints_its_exit_code(
    mem: Result<u32>,
    chip: Result<(u8, u8)>,
    knob: Result<()>,
    findings: Seq<Finding>,
    first: Option<Error>,
)
    requires
        is_report(mem, chip, knob, findings, first),
    ensures
        report_code(first) == if !findings[0].ok {
            findings[0].code as int
        } else if !findings[1].ok {
            findings[1].code as int
        } else if !findings[2].ok {
            findings[2].code as int
        } else {
            0
        },
        ({
            let text = json_report(findings, report_code(first));
            let end = decimal(report_code(first) as nat) + seq!['}'];
            &&& text.len() > end.len()
            &&& text.skip(text.len() - end.len()) == end
        }),
{
    reveal_strlit("}");
    assert("}"@ =~= seq!['}']);
    reveal_strlit("{\"findings\":[");
    let text = json_report(findings, report_code(first));
    let end = decimal(report_code(first) as nat) + seq!['}'];
    assert("{\"findings\":["@.len() > 0);
    assert(text.skip(text.len() - end.len()) =~= end);
}

} // verus!
