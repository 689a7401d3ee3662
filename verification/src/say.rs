//! `say`: put text where a human standing at the monitor can read it.
//!
//! That is one write to the console, which the kernel paints into the frame
//! buffer; nothing is drawn here.

use vstd::prelude::*;
use vstd::utf8::encode_utf8;

use crate::error::Result;
use crate::hw::{TextSink, TextWrite};

verus! {

/// Erase the whole display, then put the cursor at the top left.
pub const CLEAR_SCREEN: &'static str = "\x1b[2J\x1b[H";

/// Words joined with single spaces.
pub open spec fn joined(words: Seq<String>) -> Seq<char>
    decreases words.len(),
{
    if words.len() == 0 {
        Seq::empty()
    } else if words.len() == 1 {
        words[0]@
    } else {
        joined(words.drop_last()) + " "@ + words.last()@
    }
}

/// What is written for some words: the words joined with single spaces and one
/// newline, nothing for no words, and the clear sequence first where it was
/// asked for.
pub open spec fn spoken(clear: bool, words: Seq<String>) -> Seq<char> {
    (if clear {
        CLEAR_SCREEN@
    } else {
        Seq::empty()
    }) + (if words.len() == 0 {
        Seq::empty()
    } else {
        joined(words) + "\n"@
    })
}

/// The text that [`say`] writes.
pub fn message(clear: bool, words: &[String]) -> (text: String)
    ensures
        text@ == spoken(clear, words@),
{
    let mut out = String::new();
    if clear {
        out.append(CLEAR_SCREEN);
    }
    let ghost start = out@;
    let mut i: usize = 0;
    while i < words.len()
        invariant
            i <= words.len(),
            out@ == start + joined(words@.take(i as int)),
        decreases words.len() - i,
    {
        if i > 0 {
            out.append(" ");
        }
        out.append(words[i].as_str());
        i = i + 1;
        assert(words@.take(i as int).drop_last() =~= words@.take(i - 1));
        assert(out@ =~= start + joined(words@.take(i as int)));
    }
    assert(words@.take(i as int) =~= words@);
    if words.len() > 0 {
        out.append("\n");
    }
    assert(out@ =~= spoken(clear, words@));
    out
}

/// Write [`message`] to `sink` in one call, or nothing where there is nothing
/// to write.
pub fn say<S: TextSink + ?Sized>(sink: &mut S, clear: bool, words: &[String]) -> (r: Result<()>)
    ensures
        if spoken(clear, words@).len() == 0 {
            r is Ok && final(sink).texts() == old(sink).texts()
        } else {
            final(sink).texts() == old(sink).texts().push(
                (TextWrite { bytes: encode_utf8(spoken(clear, words@)), outcome: r }),
            )
        },
{
    let text = message(clear, words);
    if text.as_str().is_empty() {
        return Ok(());
    }
    sink.write_text(text.as_str().as_bytes())
}

/// The gaps between the arguments do not matter: one argument that holds two
/// words says the same as the two words.
pub proof fn saying_is_independent_of_quoting(clear: bool, a: String, b: String, both: String)
    requires
        both@ == a@ + " "@ + b@,
    ensures
        spoken(clear, seq![a, b]) == spoken(clear, seq![both]),
{
    let words = seq![a, b];
    assert(words.drop_last() =~= seq![a]);
    reveal_with_fuel(joined, 2);
}

/// Wherever a list of words is cut in two, the words of the first part joined,
/// one space, and the words of the second part joined are all the words joined;
/// and a single word stands as it is.
pub proof fn words_are_joined_by_single_spaces(a: Seq<String>, b: Seq<String>)
    requires
        a.len() > 0,
        b.len() > 0,
    ensures
        joined(a + b) == joined(a) + seq![' '] + joined(b),
        a.len() == 1 ==> joined(a) == a[0]@,
    decreases b.len(),
{
    reveal_strlit(" ");
    assert(" "@ =~= seq![' ']);
    let all = a + b;
    assert(all.drop_last() =~= a + b.drop_last());
    assert(all.last() == b.last());
    if b.len() == 1 {
        assert(a + b.drop_last() =~= a);
        assert(joined(all) =~= joined(a) + seq![' '] + joined(b));
    } else {
        words_are_joined_by_single_spaces(a, b.drop_last());
        assert(joined(all) =~= joined(a) + seq![' '] + joined(b));
    }
}

/// What is said of two lists of words, one after the other, is what is said of the
/// first with its newline turned into a space, and what is said of the second. One
/// word is said as itself and a newline, and no word as nothing.
pub proof fn saying_more_goes_on_the_same_line(a: Seq<String>, b: Seq<String>)
    requires
        a.len() > 0,
        b.len() > 0,
    ensures
        spoken(false, a).last() == '\n',
        spoken(false, a + b) == spoken(false, a).drop_last() + seq![' '] + spoken(false, b),
        a.len() == 1 ==> spoken(false, a) == a[0]@ + seq!['\n'],
        spoken(false, Seq::empty()) == Seq::<char>::empty(),
{
    reveal_strlit("\n");
    assert("\n"@ =~= seq!['\n']);
    words_are_joined_by_single_spaces(a, b);
    assert(spoken(false, a) =~= joined(a) + seq!['\n']);
    assert(spoken(false, a).drop_last() =~= joined(a));
    assert(spoken(false, a + b) =~= spoken(false, a).drop_last() + seq![' '] + spoken(false, b));
}

/// Clearing the screen only puts the sequence that does so in front.
pub proof fn clearing_comes_first(words: Seq<String>)
    ensures
        spoken(true, words) == seq!['\x1b', '[', '2', 'J', '\x1b', '[', 'H'] + spoken(false, words),
{
    reveal_strlit("\x1b[2J\x1b[H");
    assert(CLEAR_SCREEN@ =~= seq!['\x1b', '[', '2', 'J', '\x1b', '[', 'H']);
    assert(spoken(true, words) =~= CLEAR_SCREEN@ + spoken(false, words));
}

} // verus!
