//! Text that is built and taken apart piece by piece: decimal numbers, fields
//! between blanks, and comparison by content.

use vstd::prelude::*;

verus! {

/// `String::push`: the string grows by the one character at its end.
pub assume_specification[ String::push ](s: &mut String, c: char)
    ensures
        final(s)@ == old(s)@.push(c),
;

/// The decimal digit `d`, for `d` below ten.
pub open spec fn digit(d: nat) -> char {
    (('0' as nat) + d) as char
}

/// `n` in decimal: no sign, and no leading zero but for zero itself.
pub open spec fn decimal(n: nat) -> Seq<char>
    decreases n,
{
    if n < 10 {
        seq![digit(n)]
    } else {
        decimal(n / 10).push(digit(n % 10))
    }
}

/// The character of a decimal digit.
fn digit_char(d: u8) -> (c: char)
    requires
        d < 10,
    ensures
        c == digit(d as nat),
{
    let c: u8 = 48 + d;
    c as char
}

/// Append `n` in decimal.
pub fn push_decimal(out: &mut String, n: u64)
    ensures
        final(out)@ == old(out)@ + decimal(n as nat),
    decreases n,
{
    if n >= 10 {
        push_decimal(out, n / 10);
    }
    out.push(digit_char((n % 10) as u8));
    assert(out@ =~= old(out)@ + decimal(n as nat));
}

/// Do two strings hold the same characters?
pub fn same(a: &str, b: &str) -> (r: bool)
    ensures
        r == (a@ == b@),
{
    a.to_owned() == b.to_owned()
}

/// The characters of a string.
pub fn chars_of(s: &str) -> (v: Vec<char>)
    ensures
        v@ == s@,
{
    let mut v: Vec<char> = Vec::new();
    for c in it: s.chars()
        invariant
            it.seq() == s@,
            v@ == s@.take(it.index() as int),
    {
        v.push(c);
        assert(s@.take(it.index() + 1) =~= s@.take(it.index() as int).push(c));
    }
    assert(s@.take(s@.len() as int) =~= s@);
    v
}

/// Is `c` a decimal digit?
pub open spec fn is_digit(c: char) -> bool {
    '0' <= c <= '9'
}

/// The number that a run of decimal digits stands for.
pub open spec fn digits_value(s: Seq<char>) -> nat
    decreases s.len(),
{
    if s.len() == 0 {
        0
    } else {
        (digits_value(s.drop_last()) * 10 + (s.last() as nat - '0' as nat)) as nat
    }
}

/// The number that a text of decimal digits, and of nothing else, stands for,
/// if it fits 32 bits.
pub open spec fn number_in(s: Seq<char>) -> Option<u32> {
    if s.len() > 0 && (forall|i: int| 0 <= i < s.len() ==> is_digit(#[trigger] s[i]))
        && digits_value(s) <= u32::MAX {
        Some(digits_value(s) as u32)
    } else {
        None
    }
}

/// A longer run of digits stands for a number at least as large.
proof fn lemma_value_grows(s: Seq<char>, i: int)
    requires
        0 <= i <= s.len(),
        forall|j: int| 0 <= j < s.len() ==> is_digit(#[trigger] s[j]),
    ensures
        digits_value(s.take(i)) <= digits_value(s),
    decreases s.len() - i,
{
    if i == s.len() {
        assert(s.take(i) =~= s);
    } else {
        assert(s.take(i + 1).drop_last() =~= s.take(i));
        assert(is_digit(s[i]));
        lemma_value_grows(s, i + 1);
    }
}

/// Read a decimal number.
pub fn parse_number(s: &[char]) -> (n: Option<u32>)
    ensures
        n == number_in(s@),
{
    if s.len() == 0 {
        return None;
    }
    let mut n: u64 = 0;
    let mut fits: bool = true;
    let mut i: usize = 0;
    while i < s.len()
        invariant
            i <= s.len(),
            forall|j: int| 0 <= j < i ==> is_digit(#[trigger] s@[j]),
            fits ==> n == digits_value(s@.take(i as int)) && n <= u32::MAX,
            !fits ==> digits_value(s@.take(i as int)) > u32::MAX,
        decreases s.len() - i,
    {
        let c = s[i];
        if c < '0' || c > '9' {
            assert(!is_digit(s@[i as int]));
            return None;
        }
        assert(s@.take(i + 1).drop_last() =~= s@.take(i as int));
        if fits {
            n = n * 10 + (c as u64 - 48);
            if n > 0xFFFF_FFFF {
                fits = false;
            }
        }
        i = i + 1;
    }
    assert(s@.take(s@.len() as int) =~= s@);
    if fits {
        Some(n as u32)
    } else {
        None
    }
}

/// A number comes back from its decimal digits.
pub proof fn a_number_comes_back_from_its_digits(n: u32)
    ensures
        number_in(decimal(n as nat)) == Some(n),
{
    lemma_decimal(n as nat);
}

/// The decimal digits of a number stand for it.
pub proof fn lemma_decimal(n: nat)
    ensures
        decimal(n).len() > 0,
        forall|i: int| 0 <= i < decimal(n).len() ==> is_digit(#[trigger] decimal(n)[i]),
        digits_value(decimal(n)) == n,
    decreases n,
{
    reveal_with_fuel(digits_value, 2);
    if n < 10 {
        assert(decimal(n).drop_last() =~= Seq::<char>::empty());
    } else {
        lemma_decimal(n / 10);
        assert(decimal(n).drop_last() =~= decimal(n / 10));
    }
}

/// Does `c` separate fields?
pub open spec fn is_blank(c: char) -> bool {
    c == ' ' || c == '\t' || c == '\n' || c == '\r'
}

/// The fields of a text: its longest runs without a blank, in order.
pub open spec fn fields(s: Seq<char>) -> Seq<Seq<char>>
    decreases s.len(),
{
    if s.len() == 0 {
        Seq::empty()
    } else {
        let before = fields(s.drop_last());
        if is_blank(s.last()) {
            before
        } else if s.len() > 1 && !is_blank(s[s.len() - 2]) {
            before.drop_last().push(before.last().push(s.last()))
        } else {
            before.push(seq![s.last()])
        }
    }
}

/// Split a text into its fields.
pub fn split_fields(s: &[char]) -> (out: Vec<Vec<char>>)
    ensures
        out.len() == fields(s@).len(),
        forall|k: int| 0 <= k < out.len() ==> (#[trigger] out[k])@ == fields(s@)[k],
{
    let mut done: Vec<Vec<char>> = Vec::new();
    let mut current: Vec<char> = Vec::new();
    let mut i: usize = 0;
    while i < s.len()
        invariant
            i <= s.len(),
            current@.len() > 0 <==> i > 0 && !is_blank(s@[i - 1]),
            fields(s@.take(i as int)).len() == done.len() + if current@.len() > 0 {
                1int
            } else {
                0
            },
            current@.len() > 0 ==> fields(s@.take(i as int)).last() == current@,
            forall|k: int|
                0 <= k < done.len() ==> (#[trigger] done[k])@ == fields(s@.take(i as int))[k],
        decreases s.len() - i,
    {
        let c = s[i];
        let ghost seen = s@.take(i as int);
        let ghost more = s@.take(i + 1);
        proof {
            assert(more.drop_last() =~= seen);
            assert(more.last() == c);
            if i > 0 {
                assert(more[more.len() - 2] == s@[i - 1]);
            }
        }
        if c == ' ' || c == '\t' || c == '\n' || c == '\r' {
            if current.len() > 0 {
                let mut field: Vec<char> = Vec::new();
                std::mem::swap(&mut field, &mut current);
                done.push(field);
            }
        } else {
            current.push(c);
            assert(current@ =~= fields(more).last());
        }
        i = i + 1;
    }
    assert(s@.take(s@.len() as int) =~= s@);
    if current.len() > 0 {
        done.push(current);
    }
    done
}

/// A field put behind a blank is the next field.
pub proof fn lemma_field_after_blank(s: Seq<char>, f: Seq<char>)
    requires
        s.len() == 0 || is_blank(s.last()),
        f.len() > 0,
        forall|i: int| 0 <= i < f.len() ==> !is_blank(#[trigger] f[i]),
    ensures
        fields(s + f) == fields(s).push(f),
    decreases f.len(),
{
    let t = s + f;
    let g = f.drop_last();
    assert(t.drop_last() =~= s + g);
    assert(t.last() == f.last());
    assert(!is_blank(f[f.len() - 1]));
    if f.len() == 1 {
        assert(s + g =~= s);
        assert(f =~= seq![f.last()]);
    } else {
        lemma_field_after_blank(s, g);
        assert(!is_blank(f[f.len() - 2]));
        assert(t[t.len() - 2] == f[f.len() - 2]);
        assert(fields(s).push(g).drop_last() =~= fields(s));
        assert(g.push(f.last()) =~= f);
    }
}

/// The upper-case hexadecimal digit `d`, for `d` below sixteen.
pub open spec fn hex_digit(d: nat) -> char {
    if d < 10 {
        digit(d)
    } else {
        (('A' as nat) + (d - 10)) as char
    }
}

/// A byte as two hexadecimal digits.
pub open spec fn hex_byte(b: u8) -> Seq<char> {
    seq![hex_digit(b as nat / 16), hex_digit(b as nat % 16)]
}

/// Append one hexadecimal digit.
fn push_hex_digit(out: &mut String, d: u8)
    requires
        d < 16,
    ensures
        final(out)@ == old(out)@.push(hex_digit(d as nat)),
{
    if d < 10 {
        out.push(digit_char(d));
    } else {
        let c: u8 = 55 + d;
        out.push(c as char);
    }
}

/// Append a byte as two hexadecimal digits.
pub fn push_hex_byte(out: &mut String, b: u8)
    ensures
        final(out)@ == old(out)@ + hex_byte(b),
{
    push_hex_digit(out, b / 16);
    push_hex_digit(out, b % 16);
    assert(out@ =~= old(out)@ + hex_byte(b));
}

/// An integer in decimal, with a sign where it is negative.
pub open spec fn integer(n: int) -> Seq<char> {
    if n < 0 {
        "-"@ + decimal((-n) as nat)
    } else {
        decimal(n as nat)
    }
}

/// Append an integer in decimal.
pub fn push_integer(out: &mut String, n: i32)
    ensures
        final(out)@ == old(out)@ + integer(n as int),
{
    let wide: i64 = n as i64;
    if wide < 0 {
        out.append("-");
        push_decimal(out, (-wide) as u64);
    } else {
        push_decimal(out, wide as u64);
    }
    assert(out@ =~= old(out)@ + integer(n as int));
}

/// A 32-bit word as eight hexadecimal digits.
pub open spec fn hex_word(w: u32) -> Seq<char> {
    hex_byte((w as int / 0x100_0000) as u8) + hex_byte((w as int / 0x1_0000 % 0x100) as u8)
        + hex_byte((w as int / 0x100 % 0x100) as u8) + hex_byte((w as int % 0x100) as u8)
}

/// Append a 32-bit word as eight hexadecimal digits.
pub fn push_hex_word(out: &mut String, w: u32)
    ensures
        final(out)@ == old(out)@ + hex_word(w),
{
    push_hex_byte(out, (w / 0x100_0000) as u8);
    push_hex_byte(out, (w / 0x1_0000 % 0x100) as u8);
    push_hex_byte(out, (w / 0x100 % 0x100) as u8);
    push_hex_byte(out, (w % 0x100) as u8);
    assert(out@ =~= old(out)@ + hex_word(w));
}

/// `n` in hexadecimal, without leading zeros.
pub open spec fn hexadecimal(n: nat) -> Seq<char>
    decreases n,
{
    if n < 16 {
        seq![hex_digit(n)]
    } else {
        hexadecimal(n / 16).push(hex_digit(n % 16))
    }
}

/// Append `n` in hexadecimal.
pub fn push_hexadecimal(out: &mut String, n: u32)
    ensures
        final(out)@ == old(out)@ + hexadecimal(n as nat),
    decreases n,
{
    if n >= 16 {
        push_hexadecimal(out, n / 16);
    }
    push_hex_digit(out, (n % 16) as u8);
    assert(out@ =~= old(out)@ + hexadecimal(n as nat));
}

/// No number is written with a leading zero, but for zero itself.
pub proof fn a_number_has_no_leading_zero(n: nat)
    ensures
        n > 0 ==> decimal(n)[0] != '0',
        n == 0 ==> decimal(n) == seq!['0'],
    decreases n,
{
    if n >= 10 {
        a_number_has_no_leading_zero(n / 10);
        lemma_decimal(n / 10);
        assert(decimal(n)[0] == decimal(n / 10)[0]);
    }
}

/// Two different numbers are never written alike.
pub proof fn different_numbers_look_different(m: nat, n: nat)
    requires
        m != n,
    ensures
        decimal(m) != decimal(n),
{
    lemma_decimal(m);
    lemma_decimal(n);
}

/// A text with anything in it but digits is no number, nor is an empty one; one of
/// digits alone is, as far as 32 bits hold it.
pub proof fn only_digits_make_a_number(s: Seq<char>)
    ensures
        s.len() == 0 ==> number_in(s) is None,
        (exists|i: int| 0 <= i < s.len() && !('0' <= #[trigger] s[i] <= '9')) ==> number_in(s) is None,
{
    if exists|i: int| 0 <= i < s.len() && !('0' <= #[trigger] s[i] <= '9') {
        let i = choose|i: int| 0 <= i < s.len() && !('0' <= #[trigger] s[i] <= '9');
        assert(!is_digit(s[i]));
    }
}

/// One more digit makes ten times the number, and the digit.
pub proof fn a_digit_more_is_ten_times_the_number(s: Seq<char>, c: char)
    requires
        number_in(s) is Some,
        '0' <= c <= '9',
        number_in(s)->0 * 10 + (c as int - '0' as int) <= u32::MAX,
    ensures
        number_in(s.push(c)) == Some((number_in(s)->0 * 10 + (c as int - '0' as int)) as u32),
{
    let t = s.push(c);
    assert(t.drop_last() =~= s);
    assert forall|i: int| 0 <= i < t.len() implies is_digit(#[trigger] t[i]) by {
        if i < s.len() {
            assert(is_digit(s[i]));
        }
    }
}

/// A blank parts a text in two: the fields are those of what stands before it, and
/// then those of what stands behind it.
pub proof fn a_blank_parts_the_fields(s: Seq<char>, c: char, t: Seq<char>)
    requires
        c == ' ' || c == '\t' || c == '\n' || c == '\r',
    ensures
        fields(s.push(c) + t) == fields(s) + fields(t),
    decreases t.len(),
{
    let u = s.push(c) + t;
    if t.len() == 0 {
        assert(u =~= s.push(c));
        assert(s.push(c).drop_last() =~= s);
        assert(fields(s) + fields(t) =~= fields(s));
    } else {
        let before = t.drop_last();
        a_blank_parts_the_fields(s, c, before);
        assert(u.drop_last() =~= s.push(c) + before);
        assert(u.last() == t.last());
        if is_blank(t.last()) {
        } else if t.len() > 1 {
            assert(u[u.len() - 2] == t[t.len() - 2]);
            if !is_blank(t[t.len() - 2]) {
                lemma_a_field_is_open(before);
                let all = fields(s) + fields(before);
                assert(all.drop_last() =~= fields(s) + fields(before).drop_last());
                assert(fields(u) =~= fields(s) + fields(t));
            } else {
                assert(fields(u) =~= fields(s) + fields(t));
            }
        } else {
            assert(before =~= Seq::<char>::empty());
            assert(u[u.len() - 2] == c);
            assert(fields(u) =~= fields(s) + fields(t));
        }
    }
}

/// A text that does not end in a blank has a field.
proof fn lemma_a_field_is_open(s: Seq<char>)
    requires
        s.len() > 0,
        !is_blank(s.last()),
    ensures
        fields(s).len() > 0,
{
}

/// A text without a blank is one field, itself, and an empty text is none.
pub proof fn a_text_without_blanks_is_one_field(s: Seq<char>)
    requires
        forall|i: int|
            0 <= i < s.len() ==> (#[trigger] s[i]) != ' ' && s[i] != '\t' && s[i] != '\n' && s[i]
                != '\r',
    ensures
        fields(s) == if s.len() == 0 {
            Seq::<Seq<char>>::empty()
        } else {
            seq![s]
        },
{
    if s.len() > 0 {
        let none = Seq::<char>::empty();
        lemma_field_after_blank(none, s);
        assert(none + s =~= s);
        assert(fields(none).push(s) =~= seq![s]);
    }
}

/// The value of an upper-case hexadecimal digit.
pub open spec fn hex_digit_value(c: char) -> int {
    if '0' <= c <= '9' {
        c as int - '0' as int
    } else {
        c as int - 'A' as int + 10
    }
}

/// The number that a run of upper-case hexadecimal digits stands for.
pub open spec fn hex_value_of(s: Seq<char>) -> int
    decreases s.len(),
{
    if s.len() == 0 {
        0
    } else {
        hex_value_of(s.drop_last()) * 16 + hex_digit_value(s.last())
    }
}

/// One digit more.
proof fn lemma_hex_push(s: Seq<char>, d: nat)
    requires
        d < 16,
    ensures
        hex_value_of(s.push(hex_digit(d))) == hex_value_of(s) * 16 + d,
{
    assert(s.push(hex_digit(d)).drop_last() =~= s);
}

/// One byte more.
proof fn lemma_hex_push_byte(s: Seq<char>, b: u8)
    ensures
        hex_value_of(s + hex_byte(b)) == hex_value_of(s) * 256 + b,
        (s + hex_byte(b)).len() == s.len() + 2,
{
    let high = b as nat / 16;
    let low = b as nat % 16;
    lemma_hex_push(s, high);
    lemma_hex_push(s.push(hex_digit(high)), low);
    assert(s + hex_byte(b) =~= s.push(hex_digit(high)).push(hex_digit(low)));
}

/// A byte comes back from its two hexadecimal digits.
pub proof fn a_byte_comes_back_from_its_digits(b: u8)
    ensures
        hex_byte(b).len() == 2,
        hex_value_of(hex_byte(b)) == b,
{
    lemma_hex_push_byte(Seq::empty(), b);
    assert(Seq::<char>::empty() + hex_byte(b) =~= hex_byte(b));
}

/// A 32-bit word comes back from its eight hexadecimal digits.
pub proof fn a_word_comes_back_from_its_digits(w: u32)
    ensures
        hex_word(w).len() == 8,
        hex_value_of(hex_word(w)) == w,
{
    let none = Seq::<char>::empty();
    let b3 = (w as int / 0x100_0000) as u8;
    let b2 = (w as int / 0x1_0000 % 0x100) as u8;
    let b1 = (w as int / 0x100 % 0x100) as u8;
    let b0 = (w as int % 0x100) as u8;
    lemma_hex_push_byte(none, b3);
    let s3 = none + hex_byte(b3);
    lemma_hex_push_byte(s3, b2);
    let s2 = s3 + hex_byte(b2);
    lemma_hex_push_byte(s2, b1);
    let s1 = s2 + hex_byte(b1);
    lemma_hex_push_byte(s1, b0);
    assert(s1 + hex_byte(b0) =~= hex_word(w));
}

/// A number comes back from its hexadecimal digits, which have no leading zero but
/// for zero itself.
pub proof fn a_number_comes_back_from_its_hexadecimal_digits(n: nat)
    ensures
        hexadecimal(n).len() > 0,
        hex_value_of(hexadecimal(n)) == n,
        n > 0 ==> hexadecimal(n)[0] != '0',
    decreases n,
{
    if n < 16 {
        lemma_hex_push(Seq::empty(), n);
        assert(Seq::<char>::empty().push(hex_digit(n)) =~= hexadecimal(n));
    } else {
        a_number_comes_back_from_its_hexadecimal_digits(n / 16);
        lemma_hex_push(hexadecimal(n / 16), n % 16);
        assert(hexadecimal(n)[0] == hexadecimal(n / 16)[0]);
    }
}

/// A negative integer is a dash and its size, any other one its digits.
pub proof fn an_integer_is_its_size_behind_its_sign(n: int)
    ensures
        n >= 0 ==> integer(n) == decimal(n as nat),
        n < 0 ==> integer(n) == seq!['-'] + decimal((-n) as nat),
{
    reveal_strlit("-");
    assert("-"@ =~= seq!['-']);
}

} // verus!
