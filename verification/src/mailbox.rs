//! The fabric mailbox: a bit-banged handshake over two 32-bit registers.
//!
//! The FPGA manager block holds `GPO` (processor to fabric, write-only) and
//! `GPI` (fabric to processor, read-only). One 16-bit word is transferred by
//! placing it in `GPO[15:0]`, raising a strobe bit, waiting for the fabric to
//! mirror the strobe back as an ack, lowering the strobe and waiting for the
//! ack to clear.
//!
//! * GPI bit 31 means that no bitstream is loaded. A poll that sees it gives
//!   up on the spot with [`Error::NoBitstream`], whatever the ack bit says.
//! * Every poll is bounded by a [`Deadline`] and gives up with
//!   [`Error::Timeout`].
//! * Every exit path lowers the strobe and then drops the enable bit, so a
//!   failed transfer leaves the wire as a completed one does.
//!
//! What goes over the wire is stated as a trace of register accesses, in the
//! order in which they happen ([`RegEvent`]), and with the calls of the deadline
//! between them ([`Call`]). The trace is a history that the traits carry; its default body only spares an implementation that is not
//! itself verified from writing it down. A transferred word is a
//! [`Transfer`]: the word and the GPI values that its two polls read.

use vstd::prelude::*;

use crate::error::{Error, Result};
use crate::line::Line;

verus! {

/// Base of the FPGA manager block.
pub const FPGA_MANAGER_BASE: usize = 0xFF70_6000;

/// Offset of the GPO register (processor to fabric) from [`FPGA_MANAGER_BASE`].
pub const GPO_OFFSET: usize = 0x10;

/// Offset of the GPI register (fabric to processor) from [`FPGA_MANAGER_BASE`].
pub const GPI_OFFSET: usize = 0x14;

/// The data field of GPO: the 16-bit word being transferred.
pub const DATA_MASK: u32 = 0xFFFF;

/// Strobe, GPO bit 17.
pub const SSPI_STROBE: u32 = 0x0002_0000;

/// Ack, GPI bit 17: the same bit position as the strobe.
pub const SSPI_ACK: u32 = 0x0002_0000;

/// GPO bit 31, set by every enable change and never cleared again.
pub const SSPI_EN_BIT31: u32 = 0x8000_0000;

/// GPI bit 31: the fabric is not in user mode, i.e. no bitstream is loaded.
pub const GPI_NOT_READY: u32 = 0x8000_0000;

/// Chip select for the core itself.
pub const SSPI_FPGA_EN: u32 = 0x0004_0000;

/// Chip select for the on-screen display.
pub const SSPI_OSD_EN: u32 = 0x0008_0000;

/// Chip select for the user_io mailbox, the only one this tool uses.
pub const SSPI_IO_EN: u32 = 0x0010_0000;

/// Set the video mode and the PLL block.
pub const UIO_SET_VIDEO: u16 = 0x20;

/// Control the on-board LEDs.
pub const UIO_LEDS: u16 = 0x25;

/// Set the frame buffer that the processor draws into.
pub const UIO_SET_FBUF: u16 = 0x2F;

/// One access to the mailbox registers.
pub enum RegEvent {
    /// A word written to GPO.
    Write(u32),
    /// The value that a read of GPI gave.
    Read(u32),
}

/// One call of a [`Deadline`].
pub enum WindowEvent {
    /// A timing window was opened.
    Opened,
    /// The deadline was asked whether the window had closed, and said so or not.
    Asked(bool),
}

/// One call that a mailbox makes.
pub enum Call {
    /// A call of its registers.
    Registers(RegEvent),
    /// A call of its deadline.
    Deadline(WindowEvent),
}

/// The two mailbox registers.
pub trait Regs {
    /// Every access so far, in order.
    closed spec fn trace(&self) -> Seq<RegEvent> {
        Seq::empty()
    }

    /// Write the GPO register at [`FPGA_MANAGER_BASE`] + [`GPO_OFFSET`].
    fn gpo_write(&mut self, value: u32)
        ensures
            final(self).trace() == old(self).trace().push(RegEvent::Write(value)),
    ;

    /// Read the GPI register at [`FPGA_MANAGER_BASE`] + [`GPI_OFFSET`].
    fn gpi_read(&mut self) -> (value: u32)
        ensures
            final(self).trace() == old(self).trace().push(RegEvent::Read(value)),
    ;
}

/// A bounded wait, so no ack poll can hang the installer.
///
/// [`Mailbox`] calls [`start`](Deadline::start) once per poll loop and then
/// [`expired`](Deadline::expired) after each unsuccessful GPI read.
pub trait Deadline {
    /// Every call so far, in order.
    closed spec fn windows(&self) -> Seq<WindowEvent> {
        Seq::empty()
    }

    /// How often the deadline can still be asked before it says that the
    /// window has closed.
    closed spec fn patience(&self) -> nat {
        0
    }

    /// Begin a fresh timing window.
    fn start(&mut self)
        ensures
            final(self).windows() == old(self).windows().push(WindowEvent::Opened),
    ;

    /// Has the window opened by the last [`start`](Deadline::start) closed?
    fn expired(&mut self) -> (closed: bool)
        ensures
            final(self).windows() == old(self).windows().push(WindowEvent::Asked(closed)),
            !closed ==> final(self).patience() < old(self).patience(),
    ;
}

/// `std::time::Instant`, carried through unread.
#[verifier::external_type_specification]
#[verifier::external_body]
pub struct ExInstant(std::time::Instant);

/// The length of a `Duration` in nanoseconds.
pub uninterp spec fn duration_nanos(d: std::time::Duration) -> nat;

/// `Duration::as_nanos`: the whole length of the span, in nanoseconds.
pub assume_specification[ std::time::Duration::as_nanos ](d: &std::time::Duration) -> (n: u128)
    ensures
        n == duration_nanos(*d),
;

/// `Duration::from_millis`: a span of that many milliseconds.
pub assume_specification[ std::time::Duration::from_millis ](millis: u64) -> (d: std::time::Duration)
    ensures
        duration_nanos(d) == millis * 1_000_000,
;

/// `Instant::now`: the time of the call, of which nothing is known.
pub assume_specification[ std::time::Instant::now ]() -> std::time::Instant;

/// The time from one `Instant` to a later one, in nanoseconds.
pub uninterp spec fn nanos_between(earlier: std::time::Instant, later: std::time::Instant) -> nat;

/// `Instant::duration_since`: the time from the earlier instant to the later one.
/// From an instant to itself it is none. It depends on the two alone: where they
/// lie the other way round, it is none as well.
pub assume_specification[ std::time::Instant::duration_since ](
    later: &std::time::Instant,
    earlier: std::time::Instant,
) -> (d: std::time::Duration)
    ensures
        duration_nanos(d) == nanos_between(earlier, *later),
        earlier == *later ==> duration_nanos(d) == 0,
;

/// How long an ack poll may take before it is called a failure, in
/// milliseconds. A healthy fabric acks in microseconds.
pub const ACK_TIMEOUT_MILLIS: u64 = 10;

/// The real [`Deadline`]: a monotonic clock and a fixed limit.
///
/// A window also closes when it has been asked for as often as a 64-bit
/// counter holds, so that not even a clock that stands still can hold a poll
/// open for ever.
pub struct MonotonicDeadline {
    limit: std::time::Duration,
    started: std::time::Instant,
    questions: u64,
    calls: Ghost<Seq<WindowEvent>>,
}

/// Has a window of `limit` nanoseconds closed after `elapsed` nanoseconds?
pub fn window_closed(elapsed: u128, limit: u128) -> (closed: bool)
    ensures
        closed == (elapsed >= limit),
{
    elapsed >= limit
}

impl MonotonicDeadline {
    /// The length of a window, in nanoseconds.
    pub closed spec fn limit_nanos(&self) -> nat {
        duration_nanos(self.limit)
    }

    /// The instant that a window is measured from.
    pub closed spec fn opened_at(&self) -> std::time::Instant {
        self.started
    }

    /// Is `after` what this deadline becomes when it is asked at the instant `now`,
    /// and `closed` what it answers? The window has closed when its age, measured
    /// from where it was opened, has reached the limit. It stays measured from
    /// there.
    pub open spec fn judged(self, now: std::time::Instant, after: Self, closed: bool) -> bool {
        &&& closed == (nanos_between(self.opened_at(), now) >= self.limit_nanos()
            || self.patience() == 0)
        &&& after.opened_at() == self.opened_at()
        &&& after.limit_nanos() == self.limit_nanos()
        &&& after.patience() == if self.patience() == 0 {
            0
        } else {
            (self.patience() - 1) as nat
        }
        &&& after.windows() == self.windows().push(WindowEvent::Asked(closed))
    }

    /// A deadline `limit` long, measured from each [`Deadline::start`].
    pub fn new(limit: std::time::Duration) -> (d: Self)
        ensures
            d.limit_nanos() == duration_nanos(limit),
            d.patience() == u64::MAX,
            d.windows() == Seq::<WindowEvent>::empty(),
    {
        Self {
            limit,
            started: std::time::Instant::now(),
            questions: 0,
            calls: Ghost(Seq::empty()),
        }
    }

    /// The length of a window.
    pub fn limit(&self) -> (limit: std::time::Duration)
        ensures
            duration_nanos(limit) == self.limit_nanos(),
    {
        self.limit
    }

    /// Begin a fresh timing window, measured from `now`.
    pub fn open_at(&mut self, now: std::time::Instant)
        ensures
            final(self).opened_at() == now,
            final(self).patience() == u64::MAX,
            final(self).limit_nanos() == old(self).limit_nanos(),
            final(self).windows() == old(self).windows().push(WindowEvent::Opened),
    {
        self.started = now;
        self.questions = 0;
        self.calls = Ghost(self.calls@.push(WindowEvent::Opened));
    }

    /// Has the window closed at the instant `now`?
    pub fn closed_at(&mut self, now: std::time::Instant) -> (closed: bool)
        ensures
            old(self).judged(now, *final(self), closed),
            now == old(self).opened_at() && old(self).limit_nanos() > 0 && old(self).patience() > 0
                ==> !closed,
    {
        let age: u128 = now.duration_since(self.started).as_nanos();
        let closed = self.questions == u64::MAX || window_closed(age, self.limit.as_nanos());
        if self.questions < u64::MAX {
            self.questions = self.questions + 1;
        }
        self.calls = Ghost(self.calls@.push(WindowEvent::Asked(closed)));
        closed
    }
}

impl Clone for MonotonicDeadline {
    fn clone(&self) -> (d: Self)
        ensures
            d.limit_nanos() == self.limit_nanos(),
            d.opened_at() == self.opened_at(),
            d.windows() == self.windows(),
            d.patience() == self.patience(),
    {
        Self {
            limit: self.limit,
            started: self.started,
            questions: self.questions,
            calls: Ghost(self.calls@),
        }
    }
}

impl Default for MonotonicDeadline {
    fn default() -> (d: Self)
        ensures
            d.limit_nanos() == ACK_TIMEOUT_MILLIS * 1_000_000,
            d.patience() == u64::MAX,
            d.windows() == Seq::<WindowEvent>::empty(),
    {
        Self::new(std::time::Duration::from_millis(ACK_TIMEOUT_MILLIS))
    }
}

impl Deadline for MonotonicDeadline {
    closed spec fn windows(&self) -> Seq<WindowEvent> {
        self.calls@
    }

    closed spec fn patience(&self) -> nat {
        (u64::MAX - self.questions) as nat
    }

    /// The window is measured from the instant that the clock gives, which is
    /// left open; see [`open_at`](MonotonicDeadline::open_at).
    fn start(&mut self)
        ensures
            final(self).limit_nanos() == old(self).limit_nanos(),
            final(self).patience() == u64::MAX,
    {
        self.open_at(std::time::Instant::now());
    }

    /// The answer is the one for the instant that the clock gives, which is left
    /// open; see [`closed_at`](MonotonicDeadline::closed_at). A window of no length
    /// is closed whatever the clock says.
    fn expired(&mut self) -> (closed: bool)
        ensures
            exists|now: std::time::Instant| #[trigger] old(self).judged(now, *final(self), closed),
    {
        self.closed_at(std::time::Instant::now())
    }
}

/// Does a GPI value say that no bitstream is loaded?
pub open spec fn no_bitstream(gpi: u32) -> bool {
    gpi & GPI_NOT_READY != 0
}

/// Does a GPI value carry the ack?
pub open spec fn acked(gpi: u32) -> bool {
    gpi & SSPI_ACK != 0
}

/// Must a poll for the ack level `want` read again after this value?
pub open spec fn waiting(gpi: u32, want: bool) -> bool {
    !no_bitstream(gpi) && acked(gpi) != want
}

/// Does this value complete a poll for the ack level `want`?
pub open spec fn reached(gpi: u32, want: bool) -> bool {
    !no_bitstream(gpi) && acked(gpi) == want
}

/// Can `reads` be all that one poll for the ack level `want` read? Every value
/// but the last one made it read again.
pub open spec fn is_poll(reads: Seq<u32>, want: bool) -> bool {
    &&& reads.len() > 0
    &&& forall|i: int| 0 <= i < reads.len() - 1 ==> waiting(#[trigger] reads[i], want)
}

/// The register accesses of a poll.
pub open spec fn poll_trace(reads: Seq<u32>) -> Seq<RegEvent> {
    Seq::new(reads.len(), |i: int| RegEvent::Read(reads[i]))
}

/// The calls of the deadline during a poll: one window, and one question after
/// each read that left the poll waiting. The question after the last read, if
/// there was one, is the one that was answered "closed".
pub open spec fn poll_windows(reads: Seq<u32>, want: bool) -> Seq<WindowEvent> {
    let asked = seq![WindowEvent::Opened] + Seq::new(
        (reads.len() - 1) as nat,
        |i: int| WindowEvent::Asked(false),
    );
    if waiting(reads.last(), want) {
        asked.push(WindowEvent::Asked(true))
    } else {
        asked
    }
}

/// What a poll calls while it is kept waiting: a read, and after it the deadline,
/// which says that the window is still open.
pub open spec fn rounds(reads: Seq<u32>) -> Seq<Call>
    decreases reads.len(),
{
    if reads.len() == 0 {
        Seq::empty()
    } else {
        rounds(reads.drop_last()).push(Call::Registers(RegEvent::Read(reads.last()))).push(
            Call::Deadline(WindowEvent::Asked(false)),
        )
    }
}

/// All that a poll calls, in order: the window opens before the first read, and
/// the deadline is asked after each read that left the poll waiting.
pub open spec fn poll_calls(reads: Seq<u32>, want: bool) -> Seq<Call> {
    let read = (seq![Call::Deadline(WindowEvent::Opened)] + rounds(reads.drop_last())).push(
        Call::Registers(RegEvent::Read(reads.last())),
    );
    if waiting(reads.last(), want) {
        read.push(Call::Deadline(WindowEvent::Asked(true)))
    } else {
        read
    }
}

/// What a poll returns, given the last value it read.
pub open spec fn poll_result(last: u32, want: bool, r: Result<u32>) -> bool {
    match r {
        Ok(v) => v == last && reached(last, want),
        Err(Error::NoBitstream) => no_bitstream(last),
        Err(Error::Timeout) => waiting(last, want),
        Err(_) => false,
    }
}

/// The GPO value that presents `word`: the enable bits stay, the previous word
/// and the strobe go.
pub open spec fn framed(gpo: u32, word: u16) -> u32 {
    (gpo & !(DATA_MASK | SSPI_STROBE)) | (word as u32)
}

/// The GPO value that raises [`SSPI_IO_EN`].
pub open spec fn enabled(gpo: u32) -> u32 {
    (gpo | SSPI_EN_BIT31) | SSPI_IO_EN
}

/// The GPO value that drops [`SSPI_IO_EN`].
pub open spec fn disabled(gpo: u32) -> u32 {
    (gpo | SSPI_EN_BIT31) & !SSPI_IO_EN
}

/// One word handed to the fabric, with the GPI values that its two polls read.
pub struct Transfer {
    /// The word.
    pub word: u16,
    /// What the poll for the ack to rise read.
    pub rise: Seq<u32>,
    /// What the poll for the ack to fall read; nothing if the ack never rose.
    pub fall: Seq<u32>,
}

impl Transfer {
    /// Did the ack rise?
    pub open spec fn answered(self) -> bool {
        reached(self.rise.last(), true)
    }

    /// Did the whole handshake go through?
    pub open spec fn completed(self) -> bool {
        self.answered() && reached(self.fall.last(), false)
    }

    /// Are the reads those of two polls, the second of which is only there if
    /// the first one saw the ack?
    pub open spec fn well_formed(self) -> bool {
        &&& is_poll(self.rise, true)
        &&& if self.answered() {
            is_poll(self.fall, false)
        } else {
            self.fall.len() == 0
        }
    }

    /// The fabric's reply: the low half of the read that saw the ack clear.
    pub open spec fn reply(self) -> u16 {
        self.fall.last() as u16
    }

    /// The value that ended the transfer.
    pub open spec fn last_read(self) -> u32 {
        if self.answered() {
            self.fall.last()
        } else {
            self.rise.last()
        }
    }

    /// The register accesses of the transfer when `gpo` presents its word.
    pub open spec fn trace(self, gpo: u32) -> Seq<RegEvent> {
        seq![RegEvent::Write(gpo), RegEvent::Write(gpo | SSPI_STROBE)] + poll_trace(self.rise)
            + seq![RegEvent::Write(gpo)] + poll_trace(self.fall)
    }

    /// The calls of the deadline during the transfer.
    pub open spec fn windows(self) -> Seq<WindowEvent> {
        poll_windows(self.rise, true) + if self.answered() {
            poll_windows(self.fall, false)
        } else {
            Seq::<WindowEvent>::empty()
        }
    }

    /// All that is called during the transfer when `gpo` presents its word.
    pub open spec fn calls(self, gpo: u32) -> Seq<Call> {
        seq![
            Call::Registers(RegEvent::Write(gpo)),
            Call::Registers(RegEvent::Write(gpo | SSPI_STROBE)),
        ] + poll_calls(self.rise, true) + seq![Call::Registers(RegEvent::Write(gpo))]
            + if self.answered() {
            poll_calls(self.fall, false)
        } else {
            Seq::<Call>::empty()
        }
    }

    /// What the transfer returns.
    pub open spec fn result(self, r: Result<u16>) -> bool {
        match r {
            Ok(v) => self.completed() && v == self.reply(),
            Err(Error::NoBitstream) => no_bitstream(self.last_read()),
            Err(Error::Timeout) => !self.completed() && !no_bitstream(self.last_read()),
            Err(_) => false,
        }
    }
}

/// What there is to know of a mailbox: the word last written to GPO, every call
/// of its registers and of its deadline, and how these lie between each other.
#[verifier::ext_equal]
pub struct Wire {
    /// The GPO shadow.
    pub gpo: u32,
    /// Every register access.
    pub trace: Seq<RegEvent>,
    /// Every call of the deadline.
    pub windows: Seq<WindowEvent>,
    /// Every call of either since the mailbox was made.
    pub calls: Seq<Call>,
}

impl Wire {
    /// After GPI was read once.
    pub open spec fn read(self, gpi: u32) -> Wire {
        Wire {
            trace: self.trace.push(RegEvent::Read(gpi)),
            calls: self.calls.push(Call::Registers(RegEvent::Read(gpi))),
            ..self
        }
    }

    /// After `gpo` was written.
    pub open spec fn wrote(self, gpo: u32) -> Wire {
        Wire {
            gpo,
            trace: self.trace.push(RegEvent::Write(gpo)),
            windows: self.windows,
            calls: self.calls.push(Call::Registers(RegEvent::Write(gpo))),
        }
    }

    /// After one poll for the ack level `want` that read `reads`.
    pub open spec fn polled(self, reads: Seq<u32>, want: bool) -> Wire {
        Wire {
            gpo: self.gpo,
            trace: self.trace + poll_trace(reads),
            windows: self.windows + poll_windows(reads, want),
            calls: self.calls + poll_calls(reads, want),
        }
    }

    /// After one transfer, completed or not.
    pub open spec fn after(self, t: Transfer) -> Wire {
        Wire {
            gpo: framed(self.gpo, t.word),
            trace: self.trace + t.trace(framed(self.gpo, t.word)),
            windows: self.windows + t.windows(),
            calls: self.calls + t.calls(framed(self.gpo, t.word)),
        }
    }

    /// After several transfers in turn.
    pub open spec fn after_all(self, ts: Seq<Transfer>) -> Wire
        decreases ts.len(),
    {
        if ts.len() == 0 {
            self
        } else {
            self.after_all(ts.drop_last()).after(ts.last())
        }
    }
}

/// Are `ts` the transfers of one command, and `r` what it returns?
///
/// The words go out in order, opcode first, and the first transfer that fails
/// is the last one made. If `gated`, the payload goes out only where the reply
/// to the opcode is not zero. The reply to the opcode is what is returned.
pub open spec fn is_burst(
    ts: Seq<Transfer>,
    opcode: u16,
    payload: Seq<u16>,
    gated: bool,
    r: Result<u16>,
) -> bool {
    let words = seq![opcode] + payload;
    &&& 1 <= ts.len() <= words.len()
    &&& forall|i: int|
        0 <= i < ts.len() ==> (#[trigger] ts[i]).well_formed() && ts[i].word == words[i]
    &&& forall|i: int| 0 <= i < ts.len() - 1 ==> (#[trigger] ts[i]).completed()
    &&& gated && ts[0].completed() && ts[0].reply() == 0 ==> ts.len() == 1
    &&& match r {
        Ok(reply) => {
            &&& ts.last().completed()
            &&& reply == ts[0].reply()
            &&& ts.len() == if gated && reply == 0 {
                1
            } else {
                words.len()
            }
        },
        Err(_) => ts.last().result(r),
    }
}

/// Does a command with the transfers `ts` take the mailbox from `before` to
/// `after`?
pub open spec fn command_ran(before: Wire, after: Wire, ts: Seq<Transfer>) -> bool {
    let burst = before.wrote(enabled(before.gpo)).after_all(ts);
    after == burst.wrote(disabled(burst.gpo))
}

/// The mailbox: a pair of registers, a deadline and the GPO shadow copy.
///
/// The shadow exists because GPO cannot be read back. It starts at zero, so a
/// run is reproducible from the first write.
pub struct Mailbox<R: Regs, D> {
    line: Line<R, D>,
    shadow: u32,
}

impl<R: Regs, D: Deadline> View for Mailbox<R, D> {
    type V = Wire;

    closed spec fn view(&self) -> Wire {
        Wire {
            gpo: self.shadow,
            trace: self.line.trace(),
            windows: self.line.windows(),
            calls: self.line.calls(),
        }
    }
}

impl<R: Regs, D: Deadline> Mailbox<R, D> {
    /// The registers.
    pub closed spec fn registers(&self) -> R {
        self.line.registers()
    }

    /// A mailbox with a zeroed shadow.
    pub fn new(regs: R, deadline: D) -> (mb: Self)
        ensures
            mb@ == (Wire {
                gpo: 0,
                trace: regs.trace(),
                windows: deadline.windows(),
                calls: Seq::empty(),
            }),
            mb.registers() == regs,
    {
        Self { line: Line::new(regs, deadline), shadow: 0 }
    }

    /// The registers, for callers that need to look at them.
    pub fn regs(&self) -> (regs: &R)
        ensures
            *regs == self.registers(),
            regs.trace() == self@.trace,
    {
        self.line.regs()
    }

    /// The current GPO shadow, for logging.
    pub fn shadow(&self) -> (gpo: u32)
        ensures
            gpo == self@.gpo,
    {
        self.shadow
    }

    /// Read GPI once, with no transfer and nothing written.
    pub fn gpi(&mut self) -> (value: u32)
        ensures
            final(self)@ == old(self)@.read(value),
    {
        self.line.read()
    }

    /// Write GPO and update the shadow.
    fn write_gpo(&mut self, gpo: u32)
        ensures
            final(self)@ == old(self)@.wrote(gpo),
    {
        self.shadow = gpo;
        self.line.write(gpo);
    }

    /// Change the enable bits in `mask`. Bit 31 is set first, so it is set by
    /// an enable and stays set through the matching disable.
    fn spi_en(&mut self, mask: u32, en: bool)
        ensures
            final(self)@ == old(self)@.wrote(
                if en {
                    (old(self)@.gpo | SSPI_EN_BIT31) | mask
                } else {
                    (old(self)@.gpo | SSPI_EN_BIT31) & !mask
                },
            ),
    {
        let gpo: u32 = self.shadow | SSPI_EN_BIT31;
        self.write_gpo(
            if en {
                gpo | mask
            } else {
                gpo & !mask
            },
        );
    }

    /// Raise [`SSPI_IO_EN`].
    pub fn enable_io(&mut self)
        ensures
            final(self)@ == old(self)@.wrote(enabled(old(self)@.gpo)),
    {
        self.spi_en(SSPI_IO_EN, true);
    }

    /// Drop [`SSPI_IO_EN`].
    pub fn disable_io(&mut self)
        ensures
            final(self)@ == old(self)@.wrote(disabled(old(self)@.gpo)),
    {
        self.spi_en(SSPI_IO_EN, false);
    }

    /// Transfer one 16-bit word and return the fabric's reply.
    ///
    /// The word is written with the strobe low and then with the strobe high;
    /// GPI is polled until the ack is set; the strobe is lowered, whether the
    /// ack came or not; and where it came, GPI is polled until it clears. The
    /// reply is the low half of the last read.
    pub fn spi_w(&mut self, word: u16) -> (r: Result<u16>)
        ensures
            exists|t: Transfer| #[trigger]
                t.well_formed() && t.word == word && t.result(r) && final(self)@ == old(
                    self,
                )@.after(t),
    {
        let gpo: u32 = (self.shadow & !(DATA_MASK | SSPI_STROBE)) | (word as u32);
        self.write_gpo(gpo);
        self.write_gpo(gpo | SSPI_STROBE);

        let ghost start = self@;
        let up = self.wait_ack(true);
        let ghost rise = choose|reads: Seq<u32>| #[trigger]
            is_poll(reads, true) && poll_result(reads.last(), true, up) && self@ == start.polled(
                reads,
                true,
            );
        self.write_gpo(gpo);
        match up {
            Err(e) => {
                proof {
                    let t = Transfer { word, rise, fall: Seq::empty() };
                    assert(t.well_formed());
                    assert(self@ =~= old(self)@.after(t));
                }
                Err(e)
            },
            Ok(_) => {
                let ghost middle = self@;
                let down = self.wait_ack(false);
                proof {
                    let fall = choose|reads: Seq<u32>| #[trigger]
                        is_poll(reads, false) && poll_result(reads.last(), false, down) && self@
                            == middle.polled(reads, false);
                    let t = Transfer { word, rise, fall };
                    assert(t.well_formed());
                    assert(self@ =~= old(self)@.after(t));
                }
                match down {
                    Ok(gpi) => Ok(gpi as u16),
                    Err(e) => Err(e),
                }
            },
        }
    }

    /// Poll GPI until the ack bit reaches `want_set`, or fail.
    ///
    /// Bit 31 is tested first and on every read: an unconfigured fabric can
    /// present bit 31 and the ack bit in the same read, and that read must
    /// abort, not complete a transfer. The deadline is asked last, so it cannot
    /// turn a missing bitstream into a timeout.
    fn wait_ack(&mut self, want_set: bool) -> (r: Result<u32>)
        ensures
            exists|reads: Seq<u32>| #[trigger]
                is_poll(reads, want_set) && poll_result(reads.last(), want_set, r) && final(self)@
                    == old(self)@.polled(reads, want_set),
    {
        self.line.open_window();
        let ghost mut reads: Seq<u32> = Seq::empty();
        loop
            invariant
                forall|i: int| 0 <= i < reads.len() ==> waiting(#[trigger] reads[i], want_set),
                self@ == (Wire {
                    gpo: old(self)@.gpo,
                    trace: old(self)@.trace + poll_trace(reads),
                    windows: old(self)@.windows.push(WindowEvent::Opened) + Seq::new(
                        reads.len(),
                        |i: int| WindowEvent::Asked(false),
                    ),
                    calls: old(self)@.calls.push(Call::Deadline(WindowEvent::Opened)) + rounds(
                        reads,
                    ),
                }),
            decreases self.line.patience(),
        {
            let ghost seen = reads;
            let gpi: u32 = self.line.read();
            proof {
                reads = reads.push(gpi);
                assert(reads.drop_last() =~= seen);
                assert(poll_trace(reads) =~= poll_trace(seen).push(RegEvent::Read(gpi)));
            }
            if gpi & GPI_NOT_READY != 0 {
                assert(is_poll(reads, want_set));
                assert(self@ =~= old(self)@.polled(reads, want_set));
                return Err(Error::NoBitstream);
            }
            if (gpi & SSPI_ACK != 0) == want_set {
                assert(is_poll(reads, want_set));
                assert(self@ =~= old(self)@.polled(reads, want_set));
                return Ok(gpi);
            }
            if self.line.window_closed() {
                assert(is_poll(reads, want_set));
                assert(self@ =~= old(self)@.polled(reads, want_set));
                return Err(Error::Timeout);
            }
            assert(self@.trace =~= old(self)@.trace + poll_trace(reads));
            assert(self@.windows =~= old(self)@.windows.push(WindowEvent::Opened) + Seq::new(
                reads.len(),
                |i: int| WindowEvent::Asked(false),
            ));
            assert(self@.calls =~= old(self)@.calls.push(Call::Deadline(WindowEvent::Opened))
                + rounds(reads));
        }
    }

    /// Send one user_io command: opcode, then payload, then release the bus.
    ///
    /// The value returned is the reply to the opcode. The payload goes out
    /// whatever the reply is; for an opcode whose payload the core first has to
    /// ask for, see [`command_if_supported`](Mailbox::command_if_supported).
    /// The enable bit is dropped on every path out, including errors.
    pub fn command(&mut self, opcode: u16, payload: &[u16]) -> (r: Result<u16>)
        ensures
            exists|ts: Seq<Transfer>| #[trigger]
                is_burst(ts, opcode, payload@, false, r) && command_ran(
                    old(self)@,
                    final(self)@,
                    ts,
                ),
    {
        self.enable_io();
        let reply = self.burst(opcode, payload, false);
        self.disable_io();
        reply
    }

    /// Send one user_io command whose payload the core first has to ask for.
    ///
    /// Returns the opcode's reply, so the caller can tell the two cases apart:
    /// non-zero means the payload went out, zero means that none of it did.
    pub fn command_if_supported(&mut self, opcode: u16, payload: &[u16]) -> (r: Result<u16>)
        ensures
            exists|ts: Seq<Transfer>| #[trigger]
                is_burst(ts, opcode, payload@, true, r) && command_ran(
                    old(self)@,
                    final(self)@,
                    ts,
                ),
    {
        self.enable_io();
        let reply = self.burst(opcode, payload, true);
        self.disable_io();
        reply
    }

    /// The words of a command, between raising and dropping the enable bit.
    ///
    /// When `gated`, the payload is sent only if the opcode's reply is
    /// non-zero.
    fn burst(&mut self, opcode: u16, payload: &[u16], gated: bool) -> (r: Result<u16>)
        ensures
            exists|ts: Seq<Transfer>| #[trigger]
                is_burst(ts, opcode, payload@, gated, r) && final(self)@ == old(self)@.after_all(
                    ts,
                ),
    {
        let first = self.spi_w(opcode);
        let ghost t0 = choose|t: Transfer| #[trigger]
            t.well_formed() && t.word == opcode && t.result(first) && self@ == old(self)@.after(t);
        let ghost mut ts: Seq<Transfer> = seq![t0];
        proof {
            lemma_after_one_more(old(self)@, Seq::empty(), t0);
            assert(Seq::<Transfer>::empty().push(t0) =~= ts);
        }
        let reply: u16 = match first {
            Ok(reply) => reply,
            Err(e) => {
                assert(is_burst(ts, opcode, payload@, gated, Err(e)));
                return Err(e);
            },
        };
        if !gated || reply != 0 {
            let mut i: usize = 0;
            while i < payload.len()
                invariant
                    i <= payload.len(),
                    ts.len() == i + 1,
                    ts[0].reply() == reply,
                    !gated || reply != 0,
                    forall|j: int|
                        0 <= j < ts.len() ==> (#[trigger] ts[j]).well_formed() && ts[j].completed()
                            && ts[j].word == (seq![opcode] + payload@)[j],
                    self@ == old(self)@.after_all(ts),
                decreases payload.len() - i,
            {
                let ghost before = self@;
                let ghost sent = ts;
                let next = self.spi_w(payload[i]);
                proof {
                    let t = choose|t: Transfer| #[trigger]
                        t.well_formed() && t.word == payload[i as int] && t.result(next) && self@
                            == before.after(t);
                    ts = sent.push(t);
                    lemma_after_one_more(old(self)@, sent, t);
                }
                if let Err(e) = next {
                    assert(is_burst(ts, opcode, payload@, gated, Err(e)));
                    return Err(e);
                }
                i = i + 1;
            }
        }
        assert(is_burst(ts, opcode, payload@, gated, Ok(reply)));
        Ok(reply)
    }
}

/// The last of several transfers is made after all the others.
proof fn lemma_after_one_more(w: Wire, ts: Seq<Transfer>, t: Transfer)
    ensures
        w.after_all(ts.push(t)) == w.after_all(ts).after(t),
{
    assert(ts.push(t).drop_last() =~= ts);
}

/// The word that the fabric sees on GPO after some accesses, where it saw
/// `before` at first.
pub open spec fn level(trace: Seq<RegEvent>, before: u32) -> u32
    decreases trace.len(),
{
    if trace.len() == 0 {
        before
    } else {
        match trace.last() {
            RegEvent::Write(gpo) => gpo,
            RegEvent::Read(_) => level(trace.drop_last(), before),
        }
    }
}

/// The words that the fabric takes in: it latches the data field whenever the
/// strobe rises while the user_io mailbox is selected.
pub open spec fn latched(trace: Seq<RegEvent>, before: u32) -> Seq<u16>
    decreases trace.len(),
{
    if trace.len() == 0 {
        Seq::empty()
    } else {
        let earlier = latched(trace.drop_last(), before);
        match trace.last() {
            RegEvent::Write(gpo) => if gpo & SSPI_STROBE != 0 && gpo & SSPI_IO_EN != 0 && level(
                trace.drop_last(),
                before,
            ) & SSPI_STROBE == 0 {
                earlier.push(gpo as u16)
            } else {
                earlier
            },
            RegEvent::Read(_) => earlier,
        }
    }
}

/// What the framing of a word does to the bits of GPO.
proof fn lemma_framed_bits(gpo: u32, word: u16)
    ensures
        framed(gpo, word) & SSPI_STROBE == 0,
        (framed(gpo, word) | SSPI_STROBE) & SSPI_STROBE != 0,
        (framed(gpo, word) | SSPI_STROBE) as u16 == word,
        framed(gpo, word) & SSPI_IO_EN == gpo & SSPI_IO_EN,
        (framed(gpo, word) | SSPI_STROBE) & SSPI_IO_EN == gpo & SSPI_IO_EN,
        framed(gpo, word) & SSPI_EN_BIT31 == gpo & SSPI_EN_BIT31,
{
    assert({
        let f = (gpo & !(0xFFFFu32 | 0x0002_0000u32)) | (word as u32);
        &&& f & 0x0002_0000u32 == 0
        &&& (f | 0x0002_0000u32) & 0x0002_0000u32 != 0
        &&& (f | 0x0002_0000u32) as u16 == word
        &&& f & 0x0010_0000u32 == gpo & 0x0010_0000u32
        &&& (f | 0x0002_0000u32) & 0x0010_0000u32 == gpo & 0x0010_0000u32
        &&& f & 0x8000_0000u32 == gpo & 0x8000_0000u32
    }) by (bit_vector);
}

/// What raising and dropping the enable bit does to the bits of GPO.
proof fn lemma_enable_bits(gpo: u32)
    ensures
        enabled(gpo) & SSPI_IO_EN != 0,
        enabled(gpo) & SSPI_EN_BIT31 != 0,
        enabled(gpo) & SSPI_STROBE == gpo & SSPI_STROBE,
        disabled(gpo) & SSPI_IO_EN == 0,
        disabled(gpo) & SSPI_EN_BIT31 != 0,
        disabled(gpo) & SSPI_STROBE == gpo & SSPI_STROBE,
{
    assert({
        let e = (gpo | 0x8000_0000u32) | 0x0010_0000u32;
        let d = (gpo | 0x8000_0000u32) & !0x0010_0000u32;
        &&& e & 0x0010_0000u32 != 0
        &&& e & 0x8000_0000u32 != 0
        &&& e & 0x0002_0000u32 == gpo & 0x0002_0000u32
        &&& d & 0x0010_0000u32 == 0
        &&& d & 0x8000_0000u32 != 0
        &&& d & 0x0002_0000u32 == gpo & 0x0002_0000u32
    }) by (bit_vector);
}

/// The fabric's view of two stretches of accesses, one after the other.
pub proof fn lemma_latched_in_turn(a: Seq<RegEvent>, b: Seq<RegEvent>, before: u32)
    ensures
        level(a + b, before) == level(b, level(a, before)),
        latched(a + b, before) == latched(a, before) + latched(b, level(a, before)),
    decreases b.len(),
{
    if b.len() == 0 {
        assert(a + b =~= a);
        assert(latched(a, before) + latched(b, level(a, before)) =~= latched(a, before));
    } else {
        lemma_latched_in_turn(a, b.drop_last(), before);
        assert((a + b).drop_last() =~= a + b.drop_last());
        assert((a + b).last() == b.last());
        assert(latched(a + b, before) =~= latched(a, before) + latched(b, level(a, before)));
    }
}

/// What the fabric makes of a single write.
proof fn lemma_one_write(gpo: u32, before: u32)
    ensures
        level(seq![RegEvent::Write(gpo)], before) == gpo,
        latched(seq![RegEvent::Write(gpo)], before) == if gpo & SSPI_STROBE != 0 && gpo & SSPI_IO_EN
            != 0 && before & SSPI_STROBE == 0 {
            seq![gpo as u16]
        } else {
            Seq::<u16>::empty()
        },
{
    reveal_with_fuel(level, 2);
    reveal_with_fuel(latched, 2);
    assert(seq![RegEvent::Write(gpo)].drop_last() =~= Seq::<RegEvent>::empty());
    assert(Seq::<u16>::empty().push(gpo as u16) =~= seq![gpo as u16]);
}

/// Reads change nothing that the fabric sees.
proof fn lemma_reads_latch_nothing(reads: Seq<u32>, before: u32)
    ensures
        level(poll_trace(reads), before) == before,
        latched(poll_trace(reads), before) == Seq::<u16>::empty(),
    decreases reads.len(),
{
    if reads.len() > 0 {
        lemma_reads_latch_nothing(reads.drop_last(), before);
        assert(poll_trace(reads).drop_last() =~= poll_trace(reads.drop_last()));
    }
}

/// One transfer hands the fabric one word, whether it completes or not.
proof fn lemma_transfer_latches_its_word(t: Transfer, gpo: u32)
    requires
        gpo & SSPI_IO_EN != 0,
    ensures
        level(t.trace(framed(gpo, t.word)), gpo) == framed(gpo, t.word),
        latched(t.trace(framed(gpo, t.word)), gpo) == seq![t.word],
{
    let g = framed(gpo, t.word);
    let w1 = seq![RegEvent::Write(g)];
    let w2 = seq![RegEvent::Write(g | SSPI_STROBE)];
    lemma_framed_bits(gpo, t.word);
    lemma_one_write(g, gpo);
    lemma_one_write(g | SSPI_STROBE, g);
    lemma_one_write(g, g | SSPI_STROBE);
    lemma_latched_in_turn(w1, w2, gpo);
    lemma_latched_in_turn(w1 + w2, poll_trace(t.rise), gpo);
    lemma_latched_in_turn(w1 + w2 + poll_trace(t.rise), w1, gpo);
    lemma_latched_in_turn(w1 + w2 + poll_trace(t.rise) + w1, poll_trace(t.fall), gpo);
    lemma_reads_latch_nothing(t.rise, g | SSPI_STROBE);
    lemma_reads_latch_nothing(t.fall, g);
    assert(t.trace(g) =~= w1 + w2 + poll_trace(t.rise) + w1 + poll_trace(t.fall));
    assert(latched(t.trace(g), gpo) =~= seq![t.word]);
}

/// Several transfers leave the enable bits alone and the strobe low, and hand
/// the fabric their words in order.
proof fn lemma_burst_latches_its_words(w: Wire, ts: Seq<Transfer>)
    requires
        w.gpo & SSPI_IO_EN != 0,
    ensures
        w.after_all(ts).gpo & SSPI_IO_EN != 0,
        w.after_all(ts).gpo & SSPI_EN_BIT31 == w.gpo & SSPI_EN_BIT31,
        ts.len() > 0 ==> w.after_all(ts).gpo & SSPI_STROBE == 0,
        exists|more: Seq<RegEvent>|
            {
                &&& w.after_all(ts).trace == #[trigger] (w.trace + more)
                &&& level(more, w.gpo) == w.after_all(ts).gpo
                &&& latched(more, w.gpo) == ts.map_values(|t: Transfer| t.word)
            },
    decreases ts.len(),
{
    let words = |t: Transfer| t.word;
    if ts.len() == 0 {
        let none = Seq::<RegEvent>::empty();
        assert(w.trace =~= w.trace + none);
        assert(latched(none, w.gpo) =~= ts.map_values(words));
    } else {
        let earlier = w.after_all(ts.drop_last());
        let t = ts.last();
        lemma_burst_latches_its_words(w, ts.drop_last());
        lemma_framed_bits(earlier.gpo, t.word);
        lemma_transfer_latches_its_word(t, earlier.gpo);
        let more = choose|more: Seq<RegEvent>|
            {
                &&& earlier.trace == #[trigger] (w.trace + more)
                &&& level(more, w.gpo) == earlier.gpo
                &&& latched(more, w.gpo) == ts.drop_last().map_values(words)
            };
        let last = t.trace(framed(earlier.gpo, t.word));
        lemma_latched_in_turn(more, last, w.gpo);
        assert(w.after_all(ts).trace =~= w.trace + (more + last));
        assert(ts.map_values(words) =~= ts.drop_last().map_values(words) + seq![t.word]);
    }
}

/// A command, whatever it returns, leaves the bus released: the enable bit and
/// the strobe are low, bit 31 is set, and that is what was written last.
pub proof fn a_command_releases_the_bus(
    before: Wire,
    after: Wire,
    ts: Seq<Transfer>,
    opcode: u16,
    payload: Seq<u16>,
    gated: bool,
    r: Result<u16>,
)
    requires
        is_burst(ts, opcode, payload, gated, r),
        command_ran(before, after, ts),
    ensures
        after.gpo & SSPI_IO_EN == 0,
        after.gpo & SSPI_STROBE == 0,
        after.gpo & SSPI_EN_BIT31 != 0,
        after.trace.last() == RegEvent::Write(after.gpo),
{
    let open = before.wrote(enabled(before.gpo));
    lemma_enable_bits(before.gpo);
    lemma_burst_latches_its_words(open, ts);
    lemma_enable_bits(open.after_all(ts).gpo);
}

/// What the fabric takes in during a command is the words of its transfers, in
/// order and each once: the opcode and, where the command returns `Ok` and was
/// not gated shut, the whole payload.
pub proof fn the_fabric_receives_what_was_sent(
    before: Wire,
    after: Wire,
    ts: Seq<Transfer>,
    opcode: u16,
    payload: Seq<u16>,
    gated: bool,
    r: Result<u16>,
)
    requires
        is_burst(ts, opcode, payload, gated, r),
        command_ran(before, after, ts),
    ensures
        before.trace.is_prefix_of(after.trace),
        ({
            let got = latched(after.trace.skip(before.trace.len() as int), before.gpo);
            &&& got.is_prefix_of(seq![opcode] + payload)
            &&& got.len() == ts.len()
            &&& r matches Ok(reply) ==> got == if gated && reply == 0 {
                seq![opcode]
            } else {
                seq![opcode] + payload
            }
        }),
{
    let open = before.wrote(enabled(before.gpo));
    let burst = open.after_all(ts);
    let words = |t: Transfer| t.word;
    lemma_enable_bits(before.gpo);
    lemma_burst_latches_its_words(open, ts);
    lemma_enable_bits(burst.gpo);
    let more = choose|more: Seq<RegEvent>|
        {
            &&& burst.trace == #[trigger] (open.trace + more)
            &&& level(more, open.gpo) == burst.gpo
            &&& latched(more, open.gpo) == ts.map_values(words)
        };
    let first = seq![RegEvent::Write(open.gpo)];
    let last = seq![RegEvent::Write(after.gpo)];
    lemma_one_write(open.gpo, before.gpo);
    lemma_one_write(after.gpo, burst.gpo);
    lemma_latched_in_turn(first, more, before.gpo);
    lemma_latched_in_turn(first + more, last, before.gpo);
    assert(after.trace =~= before.trace + (first + more + last));
    let got = latched(first + more + last, before.gpo);
    assert(got =~= ts.map_values(words));
    assert(after.trace.skip(before.trace.len() as int) =~= first + more + last);
    let all = seq![opcode] + payload;
    assert(got =~= all.take(ts.len() as int));
    assert(got.is_prefix_of(all));
}

/// A transfer reports a missing bitstream if, and only if, one of its reads
/// showed it, whatever the ack said: such a read never passes for a reply, and
/// never for a timeout.
pub proof fn a_missing_bitstream_is_always_reported(t: Transfer, r: Result<u16>)
    requires
        t.well_formed(),
        t.result(r),
    ensures
        r == Err::<u16, Error>(Error::NoBitstream) <==> {
            ||| exists|i: int| 0 <= i < t.rise.len() && no_bitstream(#[trigger] t.rise[i])
            ||| exists|i: int| 0 <= i < t.fall.len() && no_bitstream(#[trigger] t.fall[i])
        },
{
    assert(t.rise[t.rise.len() - 1] == t.rise.last());
    if t.answered() {
        assert(t.fall[t.fall.len() - 1] == t.fall.last());
    }
}

/// A transfer asks its deadline only after reads that left it waiting, and
/// reads no more once the deadline has said that the window is closed: that
/// answer is the last, and there is one only where the transfer times out.
pub proof fn a_closed_window_ends_the_transfer(t: Transfer, r: Result<u16>)
    requires
        t.well_formed(),
        t.result(r),
    ensures
        forall|i: int|
            0 <= i < t.windows().len() && #[trigger] t.windows()[i] == WindowEvent::Asked(true)
                ==> i == t.windows().len() - 1,
        t.windows().last() == WindowEvent::Asked(true) <==> r == Err::<u16, Error>(Error::Timeout),
{
    assert(t.rise[t.rise.len() - 1] == t.rise.last());
    if t.answered() {
        assert(t.fall[t.fall.len() - 1] == t.fall.last());
    }
}

/// What the fabric sees on GPO after a command is what the shadow holds.
pub proof fn the_shadow_is_what_the_fabric_sees(before: Wire, after: Wire, ts: Seq<Transfer>)
    requires
        command_ran(before, after, ts),
    ensures
        before.trace.is_prefix_of(after.trace),
        level(after.trace.skip(before.trace.len() as int), before.gpo) == after.gpo,
{
    let open = before.wrote(enabled(before.gpo));
    lemma_enable_bits(before.gpo);
    lemma_burst_latches_its_words(open, ts);
    let more = choose|more: Seq<RegEvent>|
        {
            &&& open.after_all(ts).trace == #[trigger] (open.trace + more)
            &&& level(more, open.gpo) == open.after_all(ts).gpo
            &&& latched(more, open.gpo) == ts.map_values(|t: Transfer| t.word)
        };
    let new = after.trace.skip(before.trace.len() as int);
    assert(after.trace =~= before.trace + (seq![RegEvent::Write(open.gpo)] + more).push(
        RegEvent::Write(after.gpo),
    ));
    assert(new =~= (seq![RegEvent::Write(open.gpo)] + more).push(RegEvent::Write(after.gpo)));
    assert(new.last() == RegEvent::Write(after.gpo));
}

/// What a mailbox has done since an earlier state of it.
pub open spec fn since(before: Wire, after: Wire) -> Wire {
    Wire {
        gpo: after.gpo,
        trace: after.trace.skip(before.trace.len() as int),
        windows: after.windows.skip(before.windows.len() as int),
        calls: after.calls.skip(before.calls.len() as int),
    }
}

/// A mailbox of which nothing is known but the word on GPO.
pub open spec fn blank(gpo: u32) -> Wire {
    Wire { gpo, trace: Seq::empty(), windows: Seq::empty(), calls: Seq::empty() }
}

/// One state of a mailbox, and on top of it what was done since.
pub open spec fn upon(w: Wire, more: Wire) -> Wire {
    Wire {
        gpo: more.gpo,
        trace: w.trace + more.trace,
        windows: w.windows + more.windows,
        calls: w.calls + more.calls,
    }
}

/// What transfers do depends on the word on GPO alone.
proof fn lemma_transfers_upon(w: Wire, more: Wire, ts: Seq<Transfer>)
    ensures
        upon(w, more).after_all(ts) == upon(w, more.after_all(ts)),
    decreases ts.len(),
{
    if ts.len() > 0 {
        lemma_transfers_upon(w, more, ts.drop_last());
        assert(upon(w, more).after_all(ts) =~= upon(w, more.after_all(ts)));
    }
}

/// What a command does depends on the word on GPO alone.
pub proof fn lemma_command_upon(before: Wire, after: Wire, ts: Seq<Transfer>) -> (done: Wire)
    requires
        command_ran(before, after, ts),
    ensures
        command_ran(blank(before.gpo), done, ts),
        after == upon(before, done),
        since(before, after) == done,
{
    let start = blank(before.gpo);
    let opened = start.wrote(enabled(start.gpo));
    let burst = opened.after_all(ts);
    let done = burst.wrote(disabled(burst.gpo));
    assert(before.wrote(enabled(before.gpo)) =~= upon(before, opened));
    lemma_transfers_upon(before, opened, ts);
    assert(after =~= upon(before, done));
    assert(since(before, after) =~= done);
    done
}

/// The accesses of the registers among some calls.
pub open spec fn register_calls(calls: Seq<Call>) -> Seq<RegEvent>
    decreases calls.len(),
{
    if calls.len() == 0 {
        Seq::empty()
    } else {
        match calls.last() {
            Call::Registers(e) => register_calls(calls.drop_last()).push(e),
            Call::Deadline(_) => register_calls(calls.drop_last()),
        }
    }
}

/// The calls of the deadline among some calls.
pub open spec fn deadline_calls(calls: Seq<Call>) -> Seq<WindowEvent>
    decreases calls.len(),
{
    if calls.len() == 0 {
        Seq::empty()
    } else {
        match calls.last() {
            Call::Registers(_) => deadline_calls(calls.drop_last()),
            Call::Deadline(e) => deadline_calls(calls.drop_last()).push(e),
        }
    }
}

/// The calls of the registers and of the deadline in two stretches of calls, one
/// after the other.
proof fn lemma_calls_in_turn(a: Seq<Call>, b: Seq<Call>)
    ensures
        register_calls(a + b) == register_calls(a) + register_calls(b),
        deadline_calls(a + b) == deadline_calls(a) + deadline_calls(b),
    decreases b.len(),
{
    if b.len() == 0 {
        assert(a + b =~= a);
    } else {
        lemma_calls_in_turn(a, b.drop_last());
        assert((a + b).drop_last() =~= a + b.drop_last());
    }
    assert(register_calls(a + b) =~= register_calls(a) + register_calls(b));
    assert(deadline_calls(a + b) =~= deadline_calls(a) + deadline_calls(b));
}

/// A single call is one of the registers or one of the deadline.
proof fn lemma_one_call(call: Call)
    ensures
        register_calls(seq![call]) == match call {
            Call::Registers(e) => seq![e],
            Call::Deadline(_) => Seq::<RegEvent>::empty(),
        },
        deadline_calls(seq![call]) == match call {
            Call::Registers(_) => Seq::<WindowEvent>::empty(),
            Call::Deadline(e) => seq![e],
        },
{
    reveal_with_fuel(register_calls, 2);
    reveal_with_fuel(deadline_calls, 2);
    assert(seq![call].drop_last() =~= Seq::<Call>::empty());
}

/// The calls of a poll while it is kept waiting.
proof fn lemma_calls_of_rounds(reads: Seq<u32>)
    ensures
        register_calls(rounds(reads)) == poll_trace(reads),
        deadline_calls(rounds(reads)) == Seq::new(reads.len(), |i: int| WindowEvent::Asked(false)),
    decreases reads.len(),
{
    reveal_with_fuel(register_calls, 3);
    reveal_with_fuel(deadline_calls, 3);
    if reads.len() > 0 {
        lemma_calls_of_rounds(reads.drop_last());
        let read = rounds(reads.drop_last()).push(Call::Registers(RegEvent::Read(reads.last())));
        assert(rounds(reads).drop_last() =~= read);
        assert(read.drop_last() =~= rounds(reads.drop_last()));
    }
    assert(register_calls(rounds(reads)) =~= poll_trace(reads));
    assert(deadline_calls(rounds(reads)) =~= Seq::new(
        reads.len(),
        |i: int| WindowEvent::Asked(false),
    ));
}

/// The calls of a poll.
proof fn lemma_calls_of_poll(reads: Seq<u32>, want: bool)
    requires
        reads.len() > 0,
    ensures
        register_calls(poll_calls(reads, want)) == poll_trace(reads),
        deadline_calls(poll_calls(reads, want)) == poll_windows(reads, want),
{
    reveal_with_fuel(register_calls, 3);
    reveal_with_fuel(deadline_calls, 3);
    let opened = seq![Call::Deadline(WindowEvent::Opened)];
    let waited = rounds(reads.drop_last());
    let read = (opened + waited).push(Call::Registers(RegEvent::Read(reads.last())));
    lemma_one_call(opened[0]);
    lemma_calls_of_rounds(reads.drop_last());
    lemma_calls_in_turn(opened, waited);
    assert(read.drop_last() =~= opened + waited);
    if waiting(reads.last(), want) {
        assert(poll_calls(reads, want).drop_last() =~= read);
    }
    assert(register_calls(poll_calls(reads, want)) =~= poll_trace(reads));
    assert(deadline_calls(poll_calls(reads, want)) =~= poll_windows(reads, want));
}

/// The calls of a transfer.
proof fn lemma_calls_of_transfer(t: Transfer, gpo: u32)
    requires
        t.well_formed(),
    ensures
        register_calls(t.calls(gpo)) == t.trace(gpo),
        deadline_calls(t.calls(gpo)) == t.windows(),
{
    let low = seq![Call::Registers(RegEvent::Write(gpo))];
    let high = seq![Call::Registers(RegEvent::Write(gpo | SSPI_STROBE))];
    let rise = poll_calls(t.rise, true);
    let fall = if t.answered() {
        poll_calls(t.fall, false)
    } else {
        Seq::<Call>::empty()
    };
    lemma_one_call(low[0]);
    lemma_one_call(high[0]);
    lemma_calls_of_poll(t.rise, true);
    if t.answered() {
        lemma_calls_of_poll(t.fall, false);
    }
    lemma_calls_in_turn(low, high);
    lemma_calls_in_turn(low + high, rise);
    lemma_calls_in_turn(low + high + rise, low);
    lemma_calls_in_turn(low + high + rise + low, fall);
    assert(t.calls(gpo) =~= low + high + rise + low + fall);
    assert(register_calls(t.calls(gpo)) =~= t.trace(gpo));
    assert(deadline_calls(t.calls(gpo)) =~= t.windows());
}

/// The calls of several transfers.
proof fn lemma_calls_of_transfers(w: Wire, ts: Seq<Transfer>)
    requires
        register_calls(w.calls) == w.trace,
        deadline_calls(w.calls) == w.windows,
        forall|i: int| 0 <= i < ts.len() ==> (#[trigger] ts[i]).well_formed(),
    ensures
        register_calls(w.after_all(ts).calls) == w.after_all(ts).trace,
        deadline_calls(w.after_all(ts).calls) == w.after_all(ts).windows,
    decreases ts.len(),
{
    if ts.len() > 0 {
        let earlier = w.after_all(ts.drop_last());
        let gpo = framed(earlier.gpo, ts.last().word);
        lemma_calls_of_transfers(w, ts.drop_last());
        assert(ts[ts.len() - 1].well_formed());
        lemma_calls_of_transfer(ts.last(), gpo);
        lemma_calls_in_turn(earlier.calls, ts.last().calls(gpo));
    }
}

/// The calls that a mailbox makes for a command, taken together, are those that
/// its registers have seen and those that its deadline has seen.
pub proof fn both_histories_are_in_the_calls(
    before: Wire,
    after: Wire,
    ts: Seq<Transfer>,
    opcode: u16,
    payload: Seq<u16>,
    gated: bool,
    r: Result<u16>,
)
    requires
        is_burst(ts, opcode, payload, gated, r),
        command_ran(before, after, ts),
    ensures
        register_calls(since(before, after).calls) == since(before, after).trace,
        deadline_calls(since(before, after).calls) == since(before, after).windows,
{
    let done = lemma_command_upon(before, after, ts);
    let start = blank(before.gpo);
    let opened = start.wrote(enabled(start.gpo));
    let burst = opened.after_all(ts);
    lemma_one_call(opened.calls[0]);
    assert(opened.calls =~= seq![opened.calls[0]]);
    assert(opened.trace =~= seq![RegEvent::Write(opened.gpo)]);
    lemma_calls_of_transfers(opened, ts);
    assert(done.calls.drop_last() =~= burst.calls);
}

/// A transfer that went through has seen the ack rise and fall, with no sign of a
/// missing bitstream in between: bit 17 of GPI was clear until the last read of the
/// first poll, and set until the last read of the second, whose low half is the
/// reply.
pub proof fn a_reply_comes_when_the_ack_has_fallen(t: Transfer, v: u16)
    requires
        t.well_formed(),
        t.result(Ok(v)),
    ensures
        t.rise.len() > 0 && t.fall.len() > 0,
        forall|i: int|
            0 <= i < t.rise.len() ==> (#[trigger] t.rise[i]) & 0x8000_0000 == 0 && (t.rise[i]
                & 0x2_0000 != 0 <==> i == t.rise.len() - 1),
        forall|i: int|
            0 <= i < t.fall.len() ==> (#[trigger] t.fall[i]) & 0x8000_0000 == 0 && (t.fall[i]
                & 0x2_0000 == 0 <==> i == t.fall.len() - 1),
        v == t.fall[t.fall.len() - 1] % 0x1_0000,
{
    let last = t.fall[t.fall.len() - 1];
    assert(last as u16 == last % 0x1_0000) by (bit_vector);
}

/// A command returns the reply to its opcode, whatever the payload is answered.
pub proof fn a_command_returns_the_reply_to_its_opcode(
    ts: Seq<Transfer>,
    opcode: u16,
    payload: Seq<u16>,
    gated: bool,
    v: u16,
)
    requires
        is_burst(ts, opcode, payload, gated, Ok(v)),
    ensures
        ts[0].word == opcode,
        ts[0].fall.len() > 0,
        v == ts[0].fall[ts[0].fall.len() - 1] % 0x1_0000,
        forall|i: int| 0 <= i < ts.len() ==> (#[trigger] ts[i]).completed(),
        ts.len() == if gated && v == 0 {
            1
        } else {
            payload.len() + 1
        },
{
    assert(ts[0].completed()) by {
        if ts.len() == 1 {
            assert(ts.last() == ts[0]);
        }
    }
    assert(ts[0].result(Ok(v)));
    a_reply_comes_when_the_ack_has_fallen(ts[0], v);
    assert forall|i: int| 0 <= i < ts.len() implies (#[trigger] ts[i]).completed() by {
        if i == ts.len() - 1 {
            assert(ts.last() == ts[i]);
        }
    }
}

} // verus!
