//! What the tool needs of the world: the traits that devices are reached
//! through, the search for the transmitter's bus, and the rules by which a
//! failure of the operating system is read.
//!
//! A trait carries the history of its calls. Whatever is proved through it is
//! proved of the order, the arguments and the outcomes of those calls. A history
//! has a default body only so that an implementation that is not itself verified
//! need not write it down; nothing is known of it through the trait.

use vstd::prelude::*;
use vstd::utf8::encode_utf8;

use crate::error::{Error, Result};
use crate::journal::{Notice, Unwatched, Witness};
use crate::scan::{Question, Scan};
use crate::text::{
    a_byte_comes_back_from_its_digits, decimal, different_numbers_look_different, hex_byte, hex_value_of,
    push_decimal, push_hex_byte,
};

verus! {

/// One register write and what came of it.
pub struct I2cWrite {
    /// The register.
    pub reg: u8,
    /// The value.
    pub value: u8,
    /// The outcome.
    pub outcome: Result<()>,
}

/// A register-mapped I2C device that takes one byte at a time.
pub trait I2cBus {
    /// Every write so far, in order.
    closed spec fn writes(&self) -> Seq<I2cWrite> {
        Seq::empty()
    }

    /// SMBus *write byte data*: `reg <- value`.
    fn write_reg(&mut self, reg: u8, value: u8) -> (outcome: Result<()>)
        ensures
            final(self).writes() == old(self).writes().push((I2cWrite { reg, value, outcome })),
    ;
}

/// One line written to the geometry knob and what came of it.
pub struct ModeWrite {
    /// The line.
    pub line: Seq<char>,
    /// The outcome.
    pub outcome: Result<()>,
}

/// The kernel's framebuffer-geometry knob.
pub trait ModeSink {
    /// Every line so far, in order.
    closed spec fn lines(&self) -> Seq<ModeWrite> {
        Seq::empty()
    }

    /// Write one mode line, newline included, replacing whatever was there.
    fn write_mode_line(&mut self, line: &str) -> (outcome: Result<()>)
        ensures
            final(self).lines() == old(self).lines().push((ModeWrite { line: line@, outcome })),
    ;
}

/// One piece of text and what came of it.
pub struct TextWrite {
    /// The bytes.
    pub bytes: Seq<u8>,
    /// The outcome.
    pub outcome: Result<()>,
}

/// Somewhere to put text a human is meant to read: `/dev/tty1` in practice.
pub trait TextSink {
    /// Everything written so far, in order.
    closed spec fn texts(&self) -> Seq<TextWrite> {
        Seq::empty()
    }

    /// Write every byte of `bytes`, or fail.
    fn write_text(&mut self, bytes: &[u8]) -> (outcome: Result<()>)
        ensures
            final(self).texts() == old(self).texts().push((TextWrite { bytes: bytes@, outcome })),
    ;
}

/// The other direction of the geometry knob: what the driver says it
/// registered. Writing the line is a request; reading it back is the evidence.
pub trait ModeSource {
    /// Every answer so far, in order.
    closed spec fn answers(&self) -> Seq<Result<String>> {
        Seq::empty()
    }

    /// Read the whole knob, as the kernel rendered it. The text is handed on
    /// unparsed, and an empty one is a legitimate answer.
    fn read_mode_line(&mut self) -> (answer: Result<String>)
        ensures
            final(self).answers() == old(self).answers().push(answer),
    ;
}

/// One run of bytes written to the frame buffer and what came of it.
pub struct PixelWrite {
    /// Where the bytes go.
    pub offset: u64,
    /// The bytes.
    pub bytes: Seq<u8>,
    /// The outcome.
    pub outcome: Result<()>,
}

/// A run of bytes that is to be written.
pub struct PixelRun {
    /// Where the bytes go.
    pub offset: int,
    /// The bytes.
    pub bytes: Seq<u8>,
}

/// The number of bytes that [`PixelSink::clear`] zeroes at a time.
pub const PAGE: usize = 4096;

/// How many writes it takes to zero `len` bytes.
pub open spec fn pages(len: int) -> nat {
    ((len + PAGE - 1) / PAGE as int) as nat
}

/// The writes that zero the first `len` bytes: page after page, the last one
/// as short as it has to be.
pub open spec fn zeroing(len: int) -> Seq<PixelRun> {
    Seq::new(
        pages(len),
        |i: int|
            PixelRun {
                offset: i * PAGE,
                bytes: Seq::new(
                    (if len - i * PAGE < PAGE {
                        len - i * PAGE
                    } else {
                        PAGE as int
                    }) as nat,
                    |j: int| 0u8,
                ),
            },
    )
}

/// A page of zeroes.
fn zero_page() -> (page: [u8; 4096])
    ensures
        page@ == Seq::new(PAGE as nat, |j: int| 0u8),
{
    let page: [u8; 4096] = [0u8; 4096];
    assert(page == vstd::array::spec_array_fill_for_copy_type::<u8, 4096>(0u8));
    assert(page@ =~= Seq::new(PAGE as nat, |j: int| 0u8));
    page
}

/// Are `done` the writes that `plan` calls for, up to the first that fails, and
/// `r` the outcome of the whole?
pub open spec fn carried_out(plan: Seq<PixelRun>, done: Seq<PixelWrite>, r: Result<()>) -> bool {
    &&& done.len() <= plan.len()
    &&& forall|i: int|
        0 <= i < done.len() ==> (#[trigger] done[i]).offset == plan[i].offset && done[i].bytes
            == plan[i].bytes
    &&& forall|i: int| 0 <= i < done.len() - 1 ==> (#[trigger] done[i]).outcome is Ok
    &&& match r {
        Ok(_) => done.len() == plan.len() && (done.len() > 0 ==> done.last().outcome is Ok),
        Err(_) => done.len() > 0 && done.last().outcome == r,
    }
}

/// Somewhere to put pixels: `/dev/fb0` in practice.
pub trait PixelSink {
    /// Everything written so far, in order.
    closed spec fn runs(&self) -> Seq<PixelWrite> {
        Seq::empty()
    }

    /// Write every byte of `bytes` starting at byte `offset`, or fail.
    fn write_at(&mut self, offset: u64, bytes: &[u8]) -> (outcome: Result<()>)
        ensures
            final(self).runs() == old(self).runs().push(
                (PixelWrite { offset, bytes: bytes@, outcome }),
            ),
    ;

    /// Zero the first `len` bytes, page by page.
    ///
    /// Provided rather than required so that every sink clears the same way, in
    /// the same order, through the same `write_at`.
    fn clear(&mut self, len: u64) -> (r: Result<()>)
        ensures
            exists|done: Seq<PixelWrite>| #[trigger]
                carried_out(zeroing(len as int), done, r) && final(self).runs() == old(self).runs()
                    + done,
    {
        let page = zero_page();
        let mut at: u64 = 0;
        let ghost mut done: Seq<PixelWrite> = Seq::empty();
        while at < len
            invariant
                at == done.len() * PAGE || at == len,
                at <= len,
                done.len() <= pages(len as int),
                at == len ==> done.len() == pages(len as int),
                at < len ==> done.len() < pages(len as int),
                page@ == Seq::new(PAGE as nat, |j: int| 0u8),
                self.runs() == old(self).runs() + done,
                carried_out(zeroing(len as int).take(done.len() as int), done, Ok(())),
            decreases len - at,
        {
            let left: u64 = len - at;
            let take: usize = if left < 4096 {
                left as usize
            } else {
                4096
            };
            let outcome = self.write_at(at, vstd::slice::slice_subrange(&page, 0, take));
            let ghost wrote = PixelWrite {
                offset: at,
                bytes: page@.subrange(0, take as int),
                outcome,
            };
            proof {
                let plan = zeroing(len as int);
                let n = done.len() as int;
                let size = PAGE as int;
                assert((n + 1) * size == n * size + size) by (nonlinear_arith);
                assert(n * size == n * 4096) by (nonlinear_arith)
                    requires
                        size == 4096,
                ;
                assert(pages(len as int) == (len + 4095) / 4096);
                assert(wrote.bytes =~= plan[n].bytes);
                done = done.push(wrote);
                assert(self.runs() =~= old(self).runs() + done);
                assert(plan.take(n + 1).take(n) =~= plan.take(n));
            }
            if let Err(e) = outcome {
                assert(carried_out(zeroing(len as int), done, Err(e)));
                return Err(e);
            }
            at = at + take as u64;
        }
        assert(zeroing(len as int).take(done.len() as int) =~= zeroing(len as int));
        assert(self.runs() =~= old(self).runs() + done);
        Ok(())
    }
}

/// The bytes of one logged line.
pub open spec fn logged(line: Seq<char>) -> Seq<u8> {
    encode_utf8(line + "\n"@)
}

/// Put one line somewhere, in one write, and survive a sink that will not take
/// it: losing a log line is better than failing for it.
pub fn log_to<S: TextSink + ?Sized>(sink: &mut S, line: &str)
    ensures
        exists|outcome: Result<()>|
            final(sink).texts() == #[trigger] old(sink).texts().push(
                (TextWrite { bytes: logged(line@), outcome }),
            ),
{
    let mut text = line.to_owned();
    text.append("\n");
    let outcome = sink.write_text(text.as_str().as_bytes());
    assert(sink.texts() == old(sink).texts().push((TextWrite { bytes: logged(line@), outcome })));
}

/// The i2c buses that are searched: `/dev/i2c-0` to `/dev/i2c-2`.
pub const I2C_BUSES: [u8; 3] = [0, 1, 2];

/// The device node for one bus number.
pub open spec fn bus_node(bus: u8) -> Seq<char> {
    "/dev/i2c-"@ + decimal(bus as nat)
}

/// The device node for one bus number.
pub fn bus_path(bus: u8) -> (path: String)
    ensures
        path@ == bus_node(bus),
{
    let mut path = "/dev/i2c-".to_owned();
    push_decimal(&mut path, bus as u64);
    path
}

/// The places in `answers` at which a device answered, in order.
pub open spec fn answered<T>(answers: Seq<Result<Option<T>>>) -> Seq<u8>
    decreases answers.len(),
{
    if answers.len() == 0 {
        Seq::empty()
    } else {
        let before = answered(answers.drop_last());
        match answers.last() {
            Ok(Some(_)) => before.push((answers.len() - 1) as u8),
            _ => before,
        }
    }
}

/// The first error among `answers`.
pub open spec fn first_error<T>(answers: Seq<Result<Option<T>>>) -> Option<Error>
    decreases answers.len(),
{
    if answers.len() == 0 {
        None
    } else {
        let before = first_error(answers.drop_last());
        match (before, answers.last()) {
            (None, Err(e)) => Some(e),
            _ => before,
        }
    }
}

/// What a search makes of the answers of the buses, in the order of their
/// numbers: the one handle, if there is one; the numbers, if there are more;
/// and if there is none, the first bus that could not be used, or that no bus
/// has the transmitter.
pub open spec fn discovered<T>(answers: Seq<Result<Option<T>>>, r: Result<T>) -> bool {
    let found = answered(answers);
    if found.len() > 1 {
        r matches Err(Error::AmbiguousBus(buses)) && buses@ == found
    } else if found.len() == 1 {
        r matches Ok(handle) && answers[found[0] as int] == Ok::<Option<T>, Error>(Some(handle))
    } else {
        match first_error(answers) {
            Some(e) => r == Err::<T, Error>(e),
            None => r == Err::<T, Error>(Error::NoAdv7513),
        }
    }
}

/// Insist that exactly one bus answered, given what each of them said.
///
/// Picking the first of several would silently pick the wrong one, so that is
/// an error of its own. A bus that could not be used never hides one that
/// answered: an error is reported only where nothing answered.
pub fn settle<T>(answers: Vec<Result<Option<T>>>) -> (r: Result<T>)
    requires
        answers.len() <= 256,
    ensures
        discovered(answers@, r),
{
    let ghost all = answers@;
    let mut found: Vec<u8> = Vec::new();
    let mut handle: Option<T> = None;
    let mut unusable: Option<Error> = None;
    let mut bus: usize = 0;
    let mut rest = answers;
    let ghost mut seen: Seq<Result<Option<T>>> = Seq::empty();
    while rest.len() > 0
        invariant
            all.len() <= 256,
            all == seen + rest@,
            bus == seen.len(),
            found@ == answered(seen),
            unusable == first_error(seen),
            found@.len() == 0 <==> handle is None,
            found@.len() == 1 ==> found@[0] < seen.len() && seen[found@[0] as int] == Ok::<
                Option<T>,
                Error,
            >(handle),
        decreases rest.len(),
    {
        let ghost before = seen;
        let ghost first = rest@[0];
        let answer = rest.remove(0);
        proof {
            seen = seen.push(first);
            assert(seen.drop_last() =~= before);
            assert(all =~= seen + rest@);
        }
        match answer {
            Ok(Some(h)) => {
                found.push(bus as u8);
                if handle.is_none() {
                    handle = Some(h);
                }
            },
            Ok(None) => {},
            Err(e) => {
                if unusable.is_none() {
                    unusable = Some(e);
                }
            },
        }
        bus = bus + 1;
    }
    assert(seen =~= all);
    if found.len() > 1 {
        return Err(Error::AmbiguousBus(found));
    }
    match handle {
        Some(h) => Ok(h),
        None => match unusable {
            Some(e) => Err(e),
            None => Err(Error::NoAdv7513),
        },
    }
}

/// The questions of a search: every bus once, in the order of [`I2C_BUSES`],
/// whatever the others answered.
pub open spec fn every_bus<T>(answers: Seq<Result<Option<T>>>) -> Seq<Question<T>> {
    Seq::new(I2C_BUSES@.len(), |i: int| Question { bus: I2C_BUSES@[i], answer: answers[i] })
}

/// Ask the probe for every bus, and insist that exactly one of them answered.
///
/// The probe is asked for each bus once and in order: neither a bus that answers
/// nor one that cannot be used ends the search. [`settle`] decides.
pub fn search<T, F: FnMut(u8) -> Result<Option<T>>>(scan: &mut Scan<T, F>) -> (r: Result<T>)
    requires
        forall|bus: u8| bus < 3 ==> #[trigger] old(scan).accepts(bus),
    ensures
        exists|answers: Seq<Result<Option<T>>>|
            {
                &&& #[trigger] discovered(answers, r)
                &&& answers.len() == 3
                &&& final(scan).questions() == old(scan).questions() + every_bus(answers)
                &&& forall|bus: u8| bus < 3 ==> old(scan).gives(bus, #[trigger] answers[bus as int])
            },
{
    let mut answers: Vec<Result<Option<T>>> = Vec::new();
    answers.push(scan.ask(I2C_BUSES[0]));
    answers.push(scan.ask(I2C_BUSES[1]));
    answers.push(scan.ask(I2C_BUSES[2]));
    let ghost all = answers@;
    assert(scan.questions() =~= old(scan).questions() + every_bus(all));
    settle(answers)
}

/// Run `probe` over [`I2C_BUSES`] and insist that exactly one bus answered.
///
/// `probe` returns `Ok(None)` for a bus that is not a match, and an error for
/// one that exists and could not be used. It is called for every bus once and in
/// order, whatever the others say: that is [`search`], on a probe that keeps
/// account of its calls. Of a bare closure it cannot be stated.
pub fn discover_bus<T>(probe: impl FnMut(u8) -> Result<Option<T>>) -> (r: Result<T>)
    requires
        forall|bus: u8| bus < 3 ==> call_requires(probe, (bus,)),
    ensures
        exists|answers: Seq<Result<Option<T>>>| #[trigger]
            discovered(answers, r) && answers.len() == 3 && forall|bus: u8|
                bus < 3 ==> call_ensures(probe, (bus,), #[trigger] answers[bus as int]),
{
    let mut scan = Scan::new(probe);
    search(&mut scan)
}

/// Did a device answer?
pub open spec fn is_answer<T>(a: Result<Option<T>>) -> bool {
    a matches Ok(Some(_))
}

/// The places at which a device answered are listed each once and in order,
/// and nothing else is.
proof fn lemma_answered<T>(answers: Seq<Result<Option<T>>>)
    requires
        answers.len() <= 256,
    ensures
        forall|k: int|
            0 <= k < answers.len() ==> (is_answer(#[trigger] answers[k]) <==> answered(
                answers,
            ).contains(k as u8)),
        forall|j: int|
            0 <= j < answered(answers).len() ==> (#[trigger] answered(answers)[j]) < answers.len(),
        forall|i: int, j: int|
            0 <= i < j < answered(answers).len() ==> answered(answers)[i] < answered(answers)[j],
    decreases answers.len(),
{
    if answers.len() > 0 {
        let before = answers.drop_last();
        lemma_answered(before);
        let n = answers.len() - 1;
        let list = answered(answers);
        assert forall|k: int| 0 <= k < answers.len() implies (is_answer(#[trigger] answers[k])
            <==> list.contains(k as u8)) by {
            if k < n {
                assert(before[k] == answers[k]);
                if answered(before).contains(k as u8) {
                    let j = answered(before).index_of(k as u8);
                    assert(list[j] == k as u8);
                }
                if list.contains(k as u8) {
                    let j = list.index_of(k as u8);
                    assert(list[j] == k);
                    assert(j < answered(before).len());
                    assert(answered(before)[j] == k as u8);
                }
            } else if is_answer(answers[k]) {
                assert(list.last() == n as u8);
            } else if list.contains(n as u8) {
                let j = list.index_of(n as u8);
                assert(answered(before)[j] < before.len());
            }
        }
    }
}

/// A device that answers on one bus alone is found, whatever went wrong on the
/// others: a bus that cannot be used never hides one that can.
pub proof fn an_unusable_bus_hides_nothing<T>(answers: Seq<Result<Option<T>>>, r: Result<T>, k: int)
    requires
        answers.len() <= 256,
        discovered(answers, r),
        0 <= k < answers.len(),
        is_answer(answers[k]),
        forall|j: int| 0 <= j < answers.len() && j != k ==> !is_answer(#[trigger] answers[j]),
    ensures
        r is Ok,
        answers[k] == Ok::<Option<T>, Error>(Some(r->Ok_0)),
{
    lemma_answered(answers);
    let list = answered(answers);
    let at = list.index_of(k as u8);
    assert(list[at] == k);
    if list.len() > 1 {
        let other: int = if at == 0 {
            1
        } else {
            0
        };
        let j = list[other] as int;
        assert(list.contains(j as u8));
        assert(is_answer(answers[j]));
    }
}

/// Two devices that answer are never told apart by guessing, whatever the
/// other buses say: the search fails and names both.
pub proof fn two_answers_are_ambiguous<T>(
    answers: Seq<Result<Option<T>>>,
    r: Result<T>,
    i: int,
    k: int,
)
    requires
        answers.len() <= 256,
        discovered(answers, r),
        0 <= i < k < answers.len(),
        is_answer(answers[i]),
        is_answer(answers[k]),
    ensures
        r matches Err(Error::AmbiguousBus(buses)) && buses@.contains(i as u8) && buses@.contains(
            k as u8,
        ),
{
    lemma_answered(answers);
    let list = answered(answers);
    assert(list.contains(i as u8) && list.contains(k as u8));
    let a = list.index_of(i as u8);
    let b = list.index_of(k as u8);
    assert(list[a] != list[b]);
}

/// Where nothing answered, the first bus that could not be used is what is
/// reported, and only where every bus could be used is the transmitter called
/// missing.
pub proof fn silence_is_told_from_refusal<T>(answers: Seq<Result<Option<T>>>, r: Result<T>)
    requires
        answers.len() <= 256,
        discovered(answers, r),
        forall|j: int| 0 <= j < answers.len() ==> !is_answer(#[trigger] answers[j]),
    ensures
        (forall|j: int| 0 <= j < answers.len() ==> (#[trigger] answers[j]) is Ok) ==> r == Err::<
            T,
            Error,
        >(Error::NoAdv7513),
        forall|k: int|
            0 <= k < answers.len() && (#[trigger] answers[k]) is Err && (forall|j: int|
                0 <= j < k ==> (#[trigger] answers[j]) is Ok) ==> r == Err::<T, Error>(
                answers[k]->Err_0,
            ),
{
    lemma_answered(answers);
    let list = answered(answers);
    if list.len() > 0 {
        assert(list.contains(list[0]));
        assert(is_answer(answers[list[0] as int]));
    }
    assert forall|k: int|
        0 <= k < answers.len() && (#[trigger] answers[k]) is Err && (forall|j: int|
            0 <= j < k ==> (#[trigger] answers[j]) is Ok) implies first_error(answers) == Some(
        answers[k]->Err_0,
    ) by {
        lemma_first_error(answers, k);
    }
    if forall|j: int| 0 <= j < answers.len() ==> (#[trigger] answers[j]) is Ok {
        lemma_no_error(answers);
    }
}

/// The first error is the one before which there is none.
proof fn lemma_first_error<T>(answers: Seq<Result<Option<T>>>, k: int)
    requires
        0 <= k < answers.len(),
        answers[k] is Err,
        forall|j: int| 0 <= j < k ==> (#[trigger] answers[j]) is Ok,
    ensures
        first_error(answers) == Some(answers[k]->Err_0),
    decreases answers.len(),
{
    if k < answers.len() - 1 {
        lemma_first_error(answers.drop_last(), k);
    } else {
        lemma_no_error(answers.drop_last());
    }
}

/// Among answers without an error there is no first one.
proof fn lemma_no_error<T>(answers: Seq<Result<Option<T>>>)
    requires
        forall|j: int| 0 <= j < answers.len() ==> (#[trigger] answers[j]) is Ok,
    ensures
        first_error(answers) is None,
    decreases answers.len(),
{
    if answers.len() > 0 {
        assert(answers[answers.len() - 1] is Ok);
        lemma_no_error(answers.drop_last());
    }
}

/// Were all rows of a table written, in order, whatever came of each?
pub open spec fn table_written(table: Seq<(u8, u8)>, done: Seq<I2cWrite>) -> bool {
    &&& done.len() == table.len()
    &&& forall|i: int|
        0 <= i < done.len() ==> (#[trigger] done[i]).reg == table[i].0 && done[i].value
            == table[i].1
}

/// How many writes were refused.
pub open spec fn refused(done: Seq<I2cWrite>) -> nat
    decreases done.len(),
{
    if done.len() == 0 {
        0
    } else {
        refused(done.drop_last()) + if done.last().outcome is Err {
            1nat
        } else {
            0
        }
    }
}

/// What is told of the writes that were refused, in order.
pub open spec fn refusals(done: Seq<I2cWrite>) -> Seq<Notice>
    decreases done.len(),
{
    if done.len() == 0 {
        Seq::empty()
    } else {
        let before = refusals(done.drop_last());
        match done.last().outcome {
            Ok(_) => before,
            Err(why) => before.push(
                Notice::Refused { reg: done.last().reg, value: done.last().value, why },
            ),
        }
    }
}

/// Write a table of `(reg, value)` pairs and carry on past every failure.
///
/// A partially configured transmitter that shows a picture is worth more than
/// a clean abort, so a refused write stops nothing. Returns the number of writes
/// that were refused. Someone who wants to be told of each of them is a witness
/// for [`write_table_before`].
pub fn write_table<B: I2cBus + ?Sized>(bus: &mut B, writes: &[(u8, u8)]) -> (failed: usize)
    ensures
        exists|done: Seq<I2cWrite>| #[trigger]
            table_written(writes@, done) && final(bus).writes() == old(bus).writes() + done
                && failed == refused(done),
{
    let mut no_one = Unwatched::new();
    write_table_before(bus, writes, &mut no_one)
}

/// [`write_table`] before a witness, who is told of every refused write.
///
/// Every register write of the tool goes through here.
pub fn write_table_before<B: I2cBus + ?Sized, W: Witness>(
    bus: &mut B,
    writes: &[(u8, u8)],
    witness: &mut W,
) -> (failed: usize)
    ensures
        exists|done: Seq<I2cWrite>| #[trigger]
            table_written(writes@, done) && final(bus).writes() == old(bus).writes() + done
                && failed == refused(done) && final(witness).told() == old(witness).told()
                + refusals(done),
{
    let mut failed: usize = 0;
    let mut i: usize = 0;
    let ghost mut done: Seq<I2cWrite> = Seq::empty();
    assert(witness.told() =~= old(witness).told() + refusals(done));
    while i < writes.len()
        invariant
            i <= writes.len(),
            failed <= i,
            table_written(writes@.take(i as int), done),
            bus.writes() == old(bus).writes() + done,
            failed == refused(done),
            witness.told() == old(witness).told() + refusals(done),
        decreases writes.len() - i,
    {
        let (reg, value) = writes[i];
        let outcome = bus.write_reg(reg, value);
        proof {
            let before = done;
            done = done.push((I2cWrite { reg, value, outcome }));
            assert(done.drop_last() =~= before);
            assert(bus.writes() =~= old(bus).writes() + done);
        }
        if let Err(why) = &outcome {
            witness.refused(reg, value, why);
            failed = failed + 1;
        }
        assert(witness.told() =~= old(witness).told() + refusals(done));
        i = i + 1;
    }
    assert(writes@.take(i as int) =~= writes@);
    failed
}

/// The kernel driver's mode parameter.
pub const FB_MODE_PATH: &'static str = "/sys/module/MiSTer_fb/parameters/mode";

/// The console that `say` writes to.
pub const TTY_PATH: &'static str = "/dev/tty1";

/// The frame buffer that the fabric's frame reader scans.
pub const FB_DEV_PATH: &'static str = "/dev/fb0";

/// The physical-memory device.
pub const DEV_MEM: &'static str = "/dev/mem";

/// The sysfs file that is a [`ModeSink`] and a [`ModeSource`], by its path.
#[derive(Debug)]
pub struct ModeFile {
    path: String,
}

impl ModeFile {
    /// The path.
    pub closed spec fn location(&self) -> Seq<char> {
        self.path@
    }

    /// The real knob, [`FB_MODE_PATH`].
    pub fn new() -> (file: Self)
        ensures
            file.location() == FB_MODE_PATH@,
    {
        Self::at(FB_MODE_PATH)
    }

    /// The same knob somewhere else.
    pub fn at(path: &str) -> (file: Self)
        ensures
            file.location() == path@,
    {
        Self { path: path.to_owned() }
    }

    /// The path that is written and read.
    pub fn path(&self) -> (path: &str)
        ensures
            path@ == self.location(),
    {
        self.path.as_str()
    }
}

impl Clone for ModeFile {
    fn clone(&self) -> (file: Self)
        ensures
            file.location() == self.location(),
    {
        Self { path: self.path.clone() }
    }
}

impl Default for ModeFile {
    fn default() -> (file: Self)
        ensures
            file.location() == FB_MODE_PATH@,
    {
        Self::new()
    }
}

/// The number that the operating system gave an error, if it was one of its
/// own.
pub uninterp spec fn os_code(e: std::io::Error) -> Option<i32>;

/// `std::io::Error::raw_os_error`: the operating system's number for the error.
pub assume_specification[ std::io::Error::raw_os_error ](e: &std::io::Error) -> (code: Option<i32>)
    ensures
        code == os_code(*e),
;

/// `libc::ENOENT`, "no such file or directory": 2 on every Linux.
#[verifier::external_body]
fn enoent() -> (code: i32)
    ensures
        code == 2,
{
    libc::ENOENT
}

/// `libc::ENODEV`, "no such device": 19 on every Linux.
#[verifier::external_body]
fn enodev() -> (code: i32)
    ensures
        code == 19,
{
    libc::ENODEV
}

/// `libc::ENXIO`, "no such device or address": 6 on every Linux.
#[verifier::external_body]
fn enxio() -> (code: i32)
    ensures
        code == 6,
{
    libc::ENXIO
}

/// `libc::EREMOTEIO`, "remote I/O error": 121 on the ARM Linux of the board, and
/// on x86. MIPS, for which this is not built, has another number.
#[verifier::external_body]
fn eremoteio() -> (code: i32)
    ensures
        code == 121,
{
    libc::EREMOTEIO
}

/// `libc::ETIMEDOUT`, "connection timed out": 110 on the ARM Linux of the board,
/// and on x86. MIPS and SPARC, for which this is not built, have others.
#[verifier::external_body]
fn etimedout() -> (code: i32)
    ensures
        code == 110,
{
    libc::ETIMEDOUT
}

/// Is this the code of an `open` that found no such bus: `ENOENT` for a node
/// that is not there, `ENODEV` for one whose driver is gone?
pub open spec fn means_absent(code: Option<i32>) -> bool {
    code == Some(2i32) || code == Some(19i32)
}

/// Is this the code of a transfer that nobody acknowledged: `ENXIO` or
/// `EREMOTEIO`, depending on the adapter, or `ETIMEDOUT`?
pub open spec fn means_silence(code: Option<i32>) -> bool {
    code == Some(6i32) || code == Some(121i32) || code == Some(110i32)
}

/// Does this `open` failure mean that the board has no such i2c bus?
///
/// Everything else, such as a missing permission, is a bus that is there and
/// could not be opened.
pub fn bus_is_absent(e: &std::io::Error) -> (absent: bool)
    ensures
        absent == means_absent(os_code(*e)),
{
    match e.raw_os_error() {
        Some(code) => code == enoent() || code == enodev(),
        None => false,
    }
}

/// Does this transfer failure mean that nothing at the address answered?
///
/// Everything else is a descriptor or an adapter that cannot do the transfer at
/// all.
pub fn no_one_answered(e: &std::io::Error) -> (silent: bool)
    ensures
        silent == means_silence(os_code(*e)),
{
    match e.raw_os_error() {
        Some(code) => code == enxio() || code == eremoteio() || code == etimedout(),
        None => false,
    }
}

/// The step at which opening a bus failed.
#[derive(Clone, Copy, Debug, PartialEq, Eq, Structural)]
pub enum OpenStep {
    /// Opening the device node.
    Open,
    /// Pointing the descriptor at the chip address.
    SetSlave,
}

/// What an error says about a failed step.
pub open spec fn step_text(step: OpenStep, bus: u8, addr: u8) -> Seq<char> {
    match step {
        OpenStep::Open => "open "@ + bus_node(bus),
        OpenStep::SetSlave => "ioctl I2C_SLAVE 0x"@ + hex_byte(addr) + " on "@ + bus_node(bus),
    }
}

/// What an error says about a failed step.
pub fn step_failed(step: OpenStep, bus: u8, addr: u8) -> (what: String)
    ensures
        what@ == step_text(step, bus, addr),
{
    let path = bus_path(bus);
    match step {
        OpenStep::Open => {
            let mut what = "open ".to_owned();
            what.append(path.as_str());
            what
        },
        OpenStep::SetSlave => {
            let mut what = "ioctl I2C_SLAVE 0x".to_owned();
            push_hex_byte(&mut what, addr);
            what.append(" on ");
            what.append(path.as_str());
            what
        },
    }
}

/// What an error says about a failed presence probe.
pub open spec fn probe_text(bus: u8, addr: u8) -> Seq<char> {
    "i2c probe 0x"@ + hex_byte(addr) + " on "@ + bus_node(bus)
}

/// What an error says about a failed register write.
pub open spec fn write_text_of(bus: u8, addr: u8, reg: u8, value: u8) -> Seq<char> {
    "i2c write 0x"@ + hex_byte(reg) + "=0x"@ + hex_byte(value) + " to 0x"@ + hex_byte(addr) + " on "@
        + bus_node(bus)
}

/// What an error says about a failed register write.
pub fn write_failed(bus: u8, addr: u8, reg: u8, value: u8) -> (what: String)
    ensures
        what@ == write_text_of(bus, addr, reg, value),
{
    let path = bus_path(bus);
    let mut what = "i2c write 0x".to_owned();
    push_hex_byte(&mut what, reg);
    what.append("=0x");
    push_hex_byte(&mut what, value);
    what.append(" to 0x");
    push_hex_byte(&mut what, addr);
    what.append(" on ");
    what.append(path.as_str());
    what
}

/// The line for a register write that was refused, for the reason `why`.
pub open spec fn refusal_text(reg: u8, value: u8, why: Seq<char>) -> Seq<char> {
    "i2c: write error ("@ + hex_byte(reg) + " "@ + hex_byte(value) + "): "@ + why
}

/// The line for a register write that was refused, given the line that describes
/// the error.
pub fn refused_because(reg: u8, value: u8, why: &str) -> (line: String)
    ensures
        line@ == refusal_text(reg, value, why@),
{
    let mut line = "i2c: write error (".to_owned();
    push_hex_byte(&mut line, reg);
    line.append(" ");
    push_hex_byte(&mut line, value);
    line.append("): ");
    line.append(why);
    line
}

/// The line for a register write that was refused. It names the operating
/// system's reason, so that a chip that does not answer can be told from a
/// descriptor that is none.
pub fn refusal_line(reg: u8, value: u8, e: &Error) -> (line: String)
    ensures
        exists|why: Seq<char>| #[trigger]
            e.described_by(why) && line@ == refusal_text(reg, value, why),
{
    let why = e.message();
    refused_because(reg, value, why.as_str())
}

/// What a search makes of opening one bus, given the outcome.
pub open spec fn opened_as<T>(
    bus: u8,
    addr: u8,
    opened: std::result::Result<T, (OpenStep, std::io::Error)>,
    r: Result<Option<T>>,
) -> bool {
    match opened {
        Ok(handle) => r == Ok::<Option<T>, Error>(Some(handle)),
        Err((step, e)) => if step == OpenStep::Open && means_absent(os_code(e)) {
            r == Ok::<Option<T>, Error>(None)
        } else {
            r matches Err(Error::Io { what, source }) && what@ == step_text(step, bus, addr)
                && source == e
        },
    }
}

/// What a search makes of opening one bus: a handle to go on with, a bus that
/// this board does not have, or one that cannot be used.
pub fn after_open<T>(
    bus: u8,
    addr: u8,
    opened: std::result::Result<T, (OpenStep, std::io::Error)>,
) -> (r: Result<Option<T>>)
    ensures
        opened_as(bus, addr, opened, r),
{
    match opened {
        Ok(handle) => Ok(Some(handle)),
        Err((step, e)) => {
            if step == OpenStep::Open && bus_is_absent(&e) {
                return Ok(None);
            }
            let what = step_failed(step, bus, addr);
            Err(Error::io(what.as_str(), e))
        },
    }
}

/// What a search makes of the presence probe, given the outcome.
pub open spec fn received_as<T>(
    bus: u8,
    addr: u8,
    handle: T,
    received: std::result::Result<u8, std::io::Error>,
    r: Result<Option<T>>,
) -> bool {
    match received {
        Ok(_) => r == Ok::<Option<T>, Error>(Some(handle)),
        Err(e) => if means_silence(os_code(e)) {
            r == Ok::<Option<T>, Error>(None)
        } else {
            r matches Err(Error::Io { what, source }) && what@ == probe_text(bus, addr) && source == e
        },
    }
}

/// What a search makes of the presence probe, which receives one byte: the
/// handle, if the chip answered; nothing, if nobody did; or a bus that cannot
/// be used.
pub fn after_receive<T>(
    bus: u8,
    addr: u8,
    handle: T,
    received: std::result::Result<u8, std::io::Error>,
) -> (r: Result<Option<T>>)
    ensures
        received_as(bus, addr, handle, received, r),
{
    match received {
        Ok(_) => Ok(Some(handle)),
        Err(e) => {
            if no_one_answered(&e) {
                return Ok(None);
            }
            let path = bus_path(bus);
            let mut what = "i2c probe 0x".to_owned();
            push_hex_byte(&mut what, addr);
            what.append(" on ");
            what.append(path.as_str());
            Err(Error::io(what.as_str(), e))
        },
    }
}

/// Point a descriptor at a chip address: an ioctl request.
pub const I2C_SLAVE: u32 = 0x0703;

/// Do one SMBus transaction: an ioctl request.
pub const I2C_SMBUS: u32 = 0x0720;

/// A transaction that reads.
pub const I2C_SMBUS_READ: u8 = 1;

/// A transaction that writes.
pub const I2C_SMBUS_WRITE: u8 = 0;

/// A transaction of one byte, with no register.
pub const I2C_SMBUS_BYTE: u32 = 1;

/// A transaction of a register and one byte.
pub const I2C_SMBUS_BYTE_DATA: u32 = 2;

/// The most bytes that a block transaction carries.
pub const I2C_SMBUS_BLOCK_MAX: usize = 32;

/// The plain values of one SMBus transaction.
#[derive(Clone, Copy, Debug, PartialEq, Eq, Structural)]
pub struct Transaction {
    /// [`I2C_SMBUS_READ`] or [`I2C_SMBUS_WRITE`].
    pub read_write: u8,
    /// The register, or zero where there is none.
    pub command: u8,
    /// The kind of transaction.
    pub size: u32,
    /// The byte that is handed over.
    pub byte: u8,
}

impl Transaction {
    /// The transaction that writes a register.
    pub open spec fn writing(reg: u8, value: u8) -> Self {
        Transaction {
            read_write: I2C_SMBUS_WRITE,
            command: reg,
            size: I2C_SMBUS_BYTE_DATA,
            byte: value,
        }
    }

    /// *Write byte data*: `reg <- value`.
    pub fn write_byte_data(reg: u8, value: u8) -> (t: Self)
        ensures
            t == Transaction::writing(reg, value),
    {
        Transaction {
            read_write: I2C_SMBUS_WRITE,
            command: reg,
            size: I2C_SMBUS_BYTE_DATA,
            byte: value,
        }
    }

    /// *Receive byte*: read one byte with no register.
    pub fn receive_byte() -> (t: Self)
        ensures
            t == (Transaction {
                read_write: I2C_SMBUS_READ,
                command: 0,
                size: I2C_SMBUS_BYTE,
                byte: 0,
            }),
    {
        Transaction { read_write: I2C_SMBUS_READ, command: 0, size: I2C_SMBUS_BYTE, byte: 0 }
    }
}

/// Every bus has a device node of its own.
pub proof fn every_bus_has_its_own_node(a: u8, b: u8)
    requires
        a != b,
    ensures
        bus_node(a) != bus_node(b),
{
    let prefix = "/dev/i2c-"@;
    let n = prefix.len() as int;
    different_numbers_look_different(a as nat, b as nat);
    assert(bus_node(a).skip(n) =~= decimal(a as nat));
    assert(bus_node(b).skip(n) =~= decimal(b as nat));
}

/// The refused writes of two tables, one after the other, are those of the first
/// and those of the second; and a single write counts where it was refused.
pub proof fn refusals_add_up(a: Seq<I2cWrite>, b: Seq<I2cWrite>)
    ensures
        refused(a + b) == refused(a) + refused(b),
        refusals(a + b) == refusals(a) + refusals(b),
        refusals(a).len() == refused(a),
        refused(a) <= a.len(),
        a.len() == 1 ==> refused(a) == if a[0].outcome is Err {
            1nat
        } else {
            0
        },
        a.len() == 1 && a[0].outcome is Err ==> refusals(a) == seq![
            Notice::Refused { reg: a[0].reg, value: a[0].value, why: a[0].outcome->Err_0 },
        ],
    decreases a.len() + b.len(),
{
    if b.len() > 0 {
        refusals_add_up(a, b.drop_last());
        assert((a + b).drop_last() =~= a + b.drop_last());
        assert(refusals(a + b) =~= refusals(a) + refusals(b));
    } else {
        assert(a + b =~= a);
        assert(refusals(a) + refusals(b) =~= refusals(a));
        if a.len() > 0 {
            refusals_add_up(a.drop_last(), b);
        }
    }
    reveal_with_fuel(refused, 2);
    reveal_with_fuel(refusals, 2);
    if a.len() == 1 {
        assert(a.drop_last() =~= Seq::<I2cWrite>::empty());
        if a[0].outcome is Err {
            assert(refusals(a) =~= seq![
                Notice::Refused { reg: a[0].reg, value: a[0].value, why: a[0].outcome->Err_0 },
            ]);
        }
    }
}

/// The line for a refused write shows the register and the value, which come back
/// from their digits, and ends with the reason.
pub proof fn a_refusal_shows_what_was_refused(reg: u8, value: u8, why: Seq<char>)
    ensures
        ({
            let line = refusal_text(reg, value, why);
            &&& hex_value_of(line.subrange(18, 20)) == reg
            &&& hex_value_of(line.subrange(21, 23)) == value
            &&& line.skip(26) == why
        }),
{
    reveal_strlit("i2c: write error (");
    reveal_strlit(" ");
    reveal_strlit("): ");
    assert("i2c: write error ("@.len() == 18 && " "@.len() == 1 && "): "@.len() == 3);
    a_byte_comes_back_from_its_digits(reg);
    a_byte_comes_back_from_its_digits(value);
    let line = refusal_text(reg, value, why);
    assert(line.subrange(18, 20) =~= hex_byte(reg));
    assert(line.subrange(21, 23) =~= hex_byte(value));
    assert(line.skip(26) =~= why);
}

/// The error of a write that failed shows the register, the value and the chip,
/// which come back from their digits, and ends with the bus.
pub proof fn a_failed_write_shows_where_it_went(bus: u8, addr: u8, reg: u8, value: u8)
    ensures
        ({
            let what = write_text_of(bus, addr, reg, value);
            &&& hex_value_of(what.subrange(12, 14)) == reg
            &&& hex_value_of(what.subrange(17, 19)) == value
            &&& hex_value_of(what.subrange(25, 27)) == addr
            &&& what.skip(31) == "/dev/i2c-"@ + decimal(bus as nat)
        }),
{
    reveal_strlit("i2c write 0x");
    reveal_strlit("=0x");
    reveal_strlit(" to 0x");
    reveal_strlit(" on ");
    assert("i2c write 0x"@.len() == 12 && "=0x"@.len() == 3 && " to 0x"@.len() == 6 && " on "@.len()
        == 4);
    a_byte_comes_back_from_its_digits(reg);
    a_byte_comes_back_from_its_digits(value);
    a_byte_comes_back_from_its_digits(addr);
    let what = write_text_of(bus, addr, reg, value);
    assert(what.subrange(12, 14) =~= hex_byte(reg));
    assert(what.subrange(17, 19) =~= hex_byte(value));
    assert(what.subrange(25, 27) =~= hex_byte(addr));
    assert(what.skip(31) =~= "/dev/i2c-"@ + decimal(bus as nat));
}

/// The errors of a bus that cannot be used, and of a chip that cannot be asked, end
/// with the bus and show the chip.
pub proof fn a_failed_probe_shows_where_it_went(bus: u8, addr: u8)
    ensures
        step_text(OpenStep::Open, bus, addr) == "open "@ + ("/dev/i2c-"@ + decimal(bus as nat)),
        ({
            let what = step_text(OpenStep::SetSlave, bus, addr);
            &&& hex_value_of(what.subrange(18, 20)) == addr
            &&& what.skip(24) == "/dev/i2c-"@ + decimal(bus as nat)
        }),
        ({
            let what = probe_text(bus, addr);
            &&& hex_value_of(what.subrange(12, 14)) == addr
            &&& what.skip(18) == "/dev/i2c-"@ + decimal(bus as nat)
        }),
{
    reveal_strlit("ioctl I2C_SLAVE 0x");
    reveal_strlit("i2c probe 0x");
    reveal_strlit(" on ");
    assert("ioctl I2C_SLAVE 0x"@.len() == 18 && "i2c probe 0x"@.len() == 12 && " on "@.len() == 4);
    a_byte_comes_back_from_its_digits(addr);
    let slave = step_text(OpenStep::SetSlave, bus, addr);
    let probe = probe_text(bus, addr);
    assert(slave.subrange(18, 20) =~= hex_byte(addr));
    assert(slave.skip(24) =~= "/dev/i2c-"@ + decimal(bus as nat));
    assert(probe.subrange(12, 14) =~= hex_byte(addr));
    assert(probe.skip(18) =~= "/dev/i2c-"@ + decimal(bus as nat));
}

/// A search asks for the buses 0, 1 and 2, each once and in that order.
pub proof fn a_search_asks_for_every_bus_once<T>(answers: Seq<Result<Option<T>>>)
    requires
        answers.len() == 3,
    ensures
        every_bus(answers).len() == 3,
        forall|i: int|
            0 <= i < 3 ==> (#[trigger] every_bus(answers)[i]).bus == i && every_bus(answers)[i].answer
                == answers[i],
{
}

/// A logged line is the line and a newline, and nothing else.
pub proof fn a_logged_line_is_the_line_and_a_newline(line: Seq<char>)
    ensures
        vstd::utf8::decode_utf8(logged(line)) == line.push('\n'),
{
    reveal_strlit("\n");
    assert(line + "\n"@ =~= line.push('\n'));
    vstd::utf8::encode_utf8_decode_utf8(line + "\n"@);
}

/// A bus that is there and cannot be used is an error that names the bus and keeps
/// the operating system's own, and one that is not there is none. What could be
/// opened is handed on.
pub proof fn an_unusable_bus_is_named<T>(
    bus: u8,
    addr: u8,
    opened: std::result::Result<T, (OpenStep, std::io::Error)>,
    r: Result<Option<T>>,
)
    requires
        opened_as(bus, addr, opened, r),
    ensures
        match opened {
            Ok(handle) => r == Ok::<Option<T>, Error>(Some(handle)),
            Err((step, e)) => {
                let absent = step is Open && (os_code(e) == Some(2i32) || os_code(e) == Some(19i32));
                &&& absent ==> r == Ok::<Option<T>, Error>(None)
                &&& !absent ==> names_bus(r, bus, e)
            },
        },
{
    a_failed_probe_shows_where_it_went(bus, addr);
    reveal_strlit("open ");
    reveal_strlit("/dev/i2c-");
    if let Err((step, e)) = opened {
        if r is Err {
            let what = r->Err_0->what@;
            let node = "/dev/i2c-"@ + decimal(bus as nat);
            assert(what == step_text(step, bus, addr));
            assert(step_text(OpenStep::Open, bus, addr).skip(5) =~= node);
            match step {
                OpenStep::Open => {
                    assert(what.skip(what.len() - node.len()) =~= node);
                },
                OpenStep::SetSlave => {
                    reveal_strlit("ioctl I2C_SLAVE 0x");
                    reveal_strlit(" on ");
                    assert(what.skip(what.len() - node.len()) =~= node);
                },
            }
        }
    }
}

/// Is a result the operating system's error, with a text that ends with the device
/// node of a bus?
pub open spec fn names_bus<T>(r: Result<Option<T>>, bus: u8, e: std::io::Error) -> bool {
    r matches Err(Error::Io { what, source }) && source == e && ({
        let node = "/dev/i2c-"@ + decimal(bus as nat);
        what@.len() > node.len() && what@.skip(what@.len() - node.len()) == node
    })
}

/// A chip that answers is found, one that does not is none, and any other failure
/// is an error that names the bus and keeps the operating system's own.
pub proof fn a_silent_chip_is_told_from_a_broken_bus<T>(
    bus: u8,
    addr: u8,
    handle: T,
    received: std::result::Result<u8, std::io::Error>,
    r: Result<Option<T>>,
)
    requires
        received_as(bus, addr, handle, received, r),
    ensures
        match received {
            Ok(_) => r == Ok::<Option<T>, Error>(Some(handle)),
            Err(e) => {
                let silent = os_code(e) == Some(6i32) || os_code(e) == Some(121i32) || os_code(e)
                    == Some(110i32);
                &&& silent ==> r == Ok::<Option<T>, Error>(None)
                &&& !silent ==> names_bus(r, bus, e)
            },
        },
{
    reveal_strlit("i2c probe 0x");
    reveal_strlit(" on ");
    if let Err(e) = received {
        if r is Err {
            let what = r->Err_0->what@;
            let node = "/dev/i2c-"@ + decimal(bus as nat);
            assert(what == probe_text(bus, addr));
            assert(what.skip(what.len() - node.len()) =~= node);
        }
    }
}

/// A transaction that writes a register carries the register and the value, each
/// in its place: two of them are the same only where both are.
pub proof fn a_transaction_carries_its_write(reg: u8, value: u8, reg2: u8, value2: u8)
    ensures
        Transaction::writing(reg, value).read_write == 0,
        Transaction::writing(reg, value).size == 2,
        Transaction::writing(reg, value).command == reg,
        Transaction::writing(reg, value).byte == value,
        Transaction::writing(reg, value) == Transaction::writing(reg2, value2) ==> reg == reg2
            && value == value2,
{
}

} // verus!
