//! The sequences: what each command does to the devices, and in what order.
//!
//! The order across the devices matters: the bulk registers of the transmitter
//! come before the mode change, its mode registers after it, and the kernel is
//! told of the frame buffer only once the fabric's frame reader points there.
//! Every step goes through the [`journal`](crate::journal), to which nothing can
//! be added but by making the step.

use vstd::prelude::*;

use crate::adv7513::{
    bulk_writes, mode_regs, mode_writes, the_bulk_writes_power_up_once, writes, POWER_DOWN, POWER_UP,
};
use crate::error::{Error, Result};
use crate::fb::{
    disable_words, enable_words, fbuf_words, mode_in, mode_line, mode_param_line,
    the_knob_and_the_burst_agree, FbGeometry, FbMode,
};
use crate::hw::{refusals, refused, table_written, I2cBus, I2cWrite, ModeSink, ModeWrite};
use crate::mailbox::{
    command_ran, is_burst, latched, no_bitstream, the_fabric_receives_what_was_sent, Deadline,
    Mailbox, RegEvent, Regs, Transfer, Wire, GPI_NOT_READY, UIO_SET_FBUF, UIO_SET_VIDEO,
};
use crate::rounding::units;
use crate::video::{
    a_clock_has_one_setting, set_video_words, solve_pll, tunes, untunable, video_words, Modeline, PllBlock, Tuning,
};

pub use crate::journal::{
    command_step, geometry_step, reply_of, table_step, table_told, write_step, Entry, Journal, Notice,
    Step, Unwatched, Witness,
};

verus! {

/// Does a GPI value say that there is a bitstream in the fabric?
pub fn fabric_ready(gpi: u32) -> (ready: bool)
    ensures
        ready == !no_bitstream(gpi),
{
    gpi & GPI_NOT_READY == 0
}

/// Refuse early when the fabric is unconfigured: one read, nothing written.
///
/// Without a bitstream every register write would be refused, because the
/// transmitter's bus runs through the fabric.
fn require_bitstream<R: Regs, D: Deadline>(mb: &mut Mailbox<R, D>) -> (r: Result<()>)
    ensures
        exists|gpi: u32| #[trigger]
            asked(gpi, r) && final(mb)@ == old(mb)@.read(gpi),
{
    let gpi: u32 = mb.gpi();
    let r: Result<()> = if fabric_ready(gpi) {
        Ok(())
    } else {
        Err(Error::NoBitstream)
    };
    assert(asked(gpi, r));
    r
}

/// What becomes of asking for a bitstream, given the GPI value.
pub open spec fn asked(gpi: u32, r: Result<()>) -> bool {
    if no_bitstream(gpi) {
        r == Err::<(), Error>(Error::NoBitstream)
    } else {
        r is Ok
    }
}

/// What is said of a mode whose pixel clock, given as text, has no PLL setting.
pub open spec fn no_pll(mhz: Seq<char>) -> Seq<char> {
    "no PLL solution for "@ + mhz + " MHz: not a clock this tool can program"@
}

/// Is this the PLL block for a mode's pixel clock?
pub open spec fn tuned(mode: Modeline, block: PllBlock) -> bool {
    units(mode.f_pix_mhz) matches Some(f) && exists|t: Tuning| #[trigger]
        tunes(f, t) && block.encodes(t)
}

/// Is there no PLL block for a mode's pixel clock?
pub open spec fn cannot_be_tuned(mode: Modeline) -> bool {
    units(mode.f_pix_mhz) matches Some(f) ==> untunable(f)
}

/// Is this the PLL block for a mode's pixel clock, or the refusal of one that
/// has none?
pub open spec fn solved(mode: Modeline, mhz: Seq<char>, r: Result<PllBlock>) -> bool {
    match r {
        Ok(block) => tuned(mode, block),
        Err(e) => {
            &&& cannot_be_tuned(mode)
            &&& e matches Error::Usage(msg) && msg@ == no_pll(mhz)
        },
    }
}

/// The PLL block for a mode's pixel clock.
///
/// The clock comes as text as well, for the refusal to name it: the mode holds
/// it as the bits of a binary64 number, and writing such a number in decimal is
/// left to the program.
pub fn solve(mode: &Modeline, mhz: &str) -> (r: Result<PllBlock>)
    ensures
        solved(*mode, mhz@, r),
{
    match solve_pll(mode.f_pix_mhz) {
        Some(block) => Ok(block),
        None => {
            let mut msg = "no PLL solution for ".to_owned();
            msg.append(mhz);
            msg.append(" MHz: not a clock this tool can program");
            Err(Error::Usage(msg))
        },
    }
}

/// The first two steps that bring a mode up: the bulk registers, and the
/// timings with the PLL block.
pub open spec fn mode_set(
    mode: Modeline,
    block: PllBlock,
    bulk: Seq<I2cWrite>,
    sent: Result<u16>,
) -> Seq<Step> {
    seq![
        Step::Registers(bulk_writes(), refused(bulk)),
        Step::Command(UIO_SET_VIDEO, video_words(mode, block.item@), reply_of(sent)),
    ]
}

/// What is told of the first two steps that bring a mode up.
pub open spec fn mode_told(
    mode: Modeline,
    block: PllBlock,
    bulk: Seq<I2cWrite>,
    sent: Result<u16>,
) -> Seq<Notice> {
    table_told(bulk_writes(), bulk).push(
        Notice::Made(
            Step::Command(UIO_SET_VIDEO, video_words(mode, block.item@), reply_of(sent)),
        ),
    )
}

/// The third step that brings a mode up: the mode registers.
pub open spec fn registers_set(mode: Modeline, regs: Seq<I2cWrite>) -> Step {
    Step::Registers(mode_writes(mode.hpol, mode.vpol, mode.vic, mode.pr), refused(regs))
}

/// The devices that bring a mode up, by what they have seen.
#[verifier::ext_equal]
pub struct HdmiScene {
    /// The mailbox.
    pub wire: Wire,
    /// The transmitter's bus.
    pub i2c: Seq<I2cWrite>,
    /// The steps, in order.
    pub steps: Seq<Step>,
    /// What the witness was told, in order.
    pub told: Seq<Notice>,
}

/// Does bringing a mode up take the devices from `a` to `b`, with `r` as its
/// outcome? The witnesses are the GPI value that was read first, the answer of
/// the PLL solver, the writes of the two tables, the transfers of the command
/// and its outcome.
///
/// * Without a bitstream nothing is written.
/// * Without a PLL setting nothing is written either.
/// * If the command fails, the mode registers are not written.
pub open spec fn hdmi_ran_with(
    mode: Modeline,
    mhz: Seq<char>,
    a: HdmiScene,
    b: HdmiScene,
    r: Result<()>,
    gpi: u32,
    pll: Result<PllBlock>,
    bulk: Seq<I2cWrite>,
    regs: Seq<I2cWrite>,
    ts: Seq<Transfer>,
    sent: Result<u16>,
) -> bool {
    let ready = a.wire.read(gpi);
    if no_bitstream(gpi) {
        &&& r == Err::<(), Error>(Error::NoBitstream)
        &&& b == (HdmiScene { wire: ready, ..a })
    } else {
        &&& solved(mode, mhz, pll)
        &&& match pll {
            Err(e) => r == Err::<(), Error>(e) && b == (HdmiScene { wire: ready, ..a }),
            Ok(block) => {
                &&& table_written(bulk_writes(), bulk)
                &&& is_burst(ts, UIO_SET_VIDEO, video_words(mode, block.item@), false, sent)
                &&& command_ran(ready, b.wire, ts)
                &&& match sent {
                    Err(e) => {
                        &&& r == Err::<(), Error>(e)
                        &&& b.i2c == a.i2c + bulk
                        &&& b.steps == a.steps + mode_set(mode, block, bulk, sent)
                        &&& b.told == a.told + mode_told(mode, block, bulk, sent)
                    },
                    Ok(_) => {
                        &&& r is Ok
                        &&& table_written(
                            mode_writes(mode.hpol, mode.vpol, mode.vic, mode.pr),
                            regs,
                        )
                        &&& b.i2c == a.i2c + bulk + regs
                        &&& b.steps == (a.steps + mode_set(mode, block, bulk, sent)).push(
                            registers_set(mode, regs),
                        )
                        &&& b.told == a.told + mode_told(mode, block, bulk, sent) + table_told(
                            mode_writes(mode.hpol, mode.vpol, mode.vic, mode.pr),
                            regs,
                        )
                    },
                }
            },
        }
    }
}

/// Does bringing a mode up take the devices from `a` to `b`?
pub open spec fn hdmi_ran(
    mode: Modeline,
    mhz: Seq<char>,
    a: HdmiScene,
    b: HdmiScene,
    r: Result<()>,
) -> bool {
    exists|
        gpi: u32,
        pll: Result<PllBlock>,
        bulk: Seq<I2cWrite>,
        regs: Seq<I2cWrite>,
        ts: Seq<Transfer>,
        sent: Result<u16>,
    | #[trigger]
        hdmi_ran_with(mode, mhz, a, b, r, gpi, pll, bulk, regs, ts, sent)
}

/// Configure the transmitter, set the mode, and set the transmitter's mode
/// registers, in that order.
///
/// A refused register write stops nothing. Every step is an unconditional write
/// of fixed values, so running it twice is harmless.
pub fn hdmi_on<R: Regs, D: Deadline, B: I2cBus + ?Sized, W: Witness>(
    mb: &mut Mailbox<R, D>,
    bus: &mut B,
    mode: &Modeline,
    mhz: &str,
    journal: &mut Journal<W>,
) -> (r: Result<()>)
    ensures
        hdmi_ran(
            *mode,
            mhz@,
            (HdmiScene {
                wire: old(mb)@,
                i2c: old(bus).writes(),
                steps: old(journal).steps(),
                told: old(journal).told(),
            }),
            (HdmiScene {
                wire: final(mb)@,
                i2c: final(bus).writes(),
                steps: final(journal).steps(),
                told: final(journal).told(),
            }),
            r,
        ),
{
    let ghost a = HdmiScene { wire: mb@, i2c: bus.writes(), steps: journal.steps(), told: journal.told() };
    let ghost mut bulk: Seq<I2cWrite> = Seq::empty();
    let ghost mut regs: Seq<I2cWrite> = Seq::empty();
    let ghost mut ts: Seq<Transfer> = Seq::empty();

    let ready = require_bitstream(mb);
    let ghost gpi = choose|gpi: u32| #[trigger] asked(gpi, ready) && mb@ == a.wire.read(gpi);
    if let Err(e) = ready {
        proof {
            let b = HdmiScene { wire: mb@, i2c: bus.writes(), steps: journal.steps(), told: journal.told() };
            assert(hdmi_ran_with(*mode, mhz@, a, b, Err(e), gpi, Err(e), bulk, regs, ts, Err(e)));
        }
        return Err(e);
    }
    let pll = solve(mode, mhz);
    let block = match pll {
        Ok(block) => block,
        Err(e) => {
            proof {
                let b = HdmiScene { wire: mb@, i2c: bus.writes(), steps: journal.steps(), told: journal.told() };
                assert(hdmi_ran_with(*mode, mhz@, a, b, Err(e), gpi, pll, bulk, regs, ts, Err(e)));
            }
            return Err(e);
        },
    };

    let table = writes();
    write_step(bus, table.as_slice(), journal);
    proof {
        bulk = choose|done: Seq<I2cWrite>| #[trigger]
            table_written(bulk_writes(), done) && bus.writes() == a.i2c + done && journal.steps()
                == a.steps.push(table_step(bulk_writes(), done)) && journal.told() == a.told
                + table_told(bulk_writes(), done);
    }

    let words = set_video_words(mode, &block);
    let ghost opened = mb@;
    let sent = command_step(mb, UIO_SET_VIDEO, &words, false, journal);
    proof {
        ts = choose|ts: Seq<Transfer>| #[trigger]
            is_burst(ts, UIO_SET_VIDEO, words@, false, sent) && command_ran(opened, mb@, ts);
        assert(journal.steps() =~= a.steps + mode_set(*mode, block, bulk, sent));
        assert(journal.told() =~= a.told + mode_told(*mode, block, bulk, sent));
    }
    if let Err(e) = sent {
        proof {
            let b = HdmiScene { wire: mb@, i2c: bus.writes(), steps: journal.steps(), told: journal.told() };
            assert(hdmi_ran_with(*mode, mhz@, a, b, Err(e), gpi, pll, bulk, regs, ts, sent));
        }
        return Err(e);
    }

    let registers = mode_regs(mode.hpol, mode.vpol, mode.vic, mode.pr);
    let ghost configured = bus.writes();
    let ghost noted = journal.steps();
    let ghost told = journal.told();
    write_step(bus, &registers, journal);
    proof {
        regs = choose|done: Seq<I2cWrite>| #[trigger]
            table_written(registers@, done) && bus.writes() == configured + done
                && journal.steps() == noted.push(table_step(registers@, done)) && journal.told()
                == told + table_told(registers@, done);
        let b = HdmiScene { wire: mb@, i2c: bus.writes(), steps: journal.steps(), told: journal.told() };
        assert(hdmi_ran_with(*mode, mhz@, a, b, Ok(()), gpi, pll, bulk, regs, ts, sent));
    }
    Ok(())
}

/// Power the transmitter down: one register and nothing else. A refused write
/// is no failure.
pub fn hdmi_off<B: I2cBus + ?Sized, W: Witness>(bus: &mut B, journal: &mut Journal<W>) -> (r: Result<
    (),
>)
    ensures
        r is Ok,
        exists|done: Seq<I2cWrite>| #[trigger]
            table_written(seq![POWER_DOWN], done) && final(bus).writes() == old(bus).writes()
                + done && final(journal).steps() == old(journal).steps().push(
                table_step(seq![POWER_DOWN], done),
            ) && final(journal).told() == old(journal).told() + table_told(seq![POWER_DOWN], done),
{
    let table: [(u8, u8); 1] = [POWER_DOWN];
    assert(table@ =~= seq![POWER_DOWN]);
    write_step(bus, &table, journal);
    Ok(())
}

/// The step that points the frame reader at the frame buffer.
pub open spec fn fbuf_set(g: FbGeometry, sent: Result<u16>) -> Step {
    Step::Command(UIO_SET_FBUF, fbuf_words(g), reply_of(sent))
}

/// The step that tells the kernel the geometry.
pub open spec fn geometry_set(g: FbGeometry, r: Result<()>) -> Step {
    Step::Geometry(mode_line(g.columns() as nat, g.rows() as nat), r is Ok)
}

/// The devices that switch the display, by what they have seen.
#[verifier::ext_equal]
pub struct FbScene {
    /// The mailbox.
    pub wire: Wire,
    /// The geometry knob.
    pub lines: Seq<ModeWrite>,
    /// The steps, in order.
    pub steps: Seq<Step>,
    /// What the witness was told, in order.
    pub told: Seq<Notice>,
}

/// Does switching the display to the frame buffer take the devices from `a` to
/// `b`, with `r` as its outcome?
///
/// * Without a bitstream nothing is written.
/// * Where the core answers zero, it has no such frame buffer: it is sent
///   nothing more, the kernel is told nothing, and that is no failure.
/// * Where the command fails, the kernel is told nothing.
pub open spec fn fb_ran_with(
    mode: Modeline,
    a: FbScene,
    b: FbScene,
    r: Result<()>,
    gpi: u32,
    g: FbGeometry,
    ts: Seq<Transfer>,
    sent: Result<u16>,
) -> bool {
    let ready = a.wire.read(gpi);
    if no_bitstream(gpi) {
        &&& r == Err::<(), Error>(Error::NoBitstream)
        &&& b == (FbScene { wire: ready, ..a })
    } else {
        &&& g.is_for(mode.hact, mode.vact, mode.pr != 0)
        &&& is_burst(ts, UIO_SET_FBUF, fbuf_words(g), true, sent)
        &&& command_ran(ready, b.wire, ts)
        &&& match sent {
            Err(e) => {
                &&& r == Err::<(), Error>(e)
                &&& b.lines == a.lines
                &&& b.steps == a.steps.push(fbuf_set(g, sent))
                &&& b.told == a.told.push(Notice::Made(fbuf_set(g, sent)))
            },
            Ok(reply) => if reply == 0 {
                &&& r is Ok
                &&& b.lines == a.lines
                &&& b.steps == a.steps.push(fbuf_set(g, sent))
                &&& b.told == a.told.push(Notice::Made(fbuf_set(g, sent)))
            } else {
                &&& b.lines == a.lines.push(
                    ModeWrite {
                        line: mode_line(g.columns() as nat, g.rows() as nat),
                        outcome: r,
                    },
                )
                &&& b.steps == a.steps.push(fbuf_set(g, sent)).push(geometry_set(g, r))
                &&& b.told == a.told.push(Notice::Made(fbuf_set(g, sent))).push(
                    Notice::Made(geometry_set(g, r)),
                )
            },
        }
    }
}

/// Does switching the display to the frame buffer take the devices from `a` to
/// `b`?
pub open spec fn fb_ran(mode: Modeline, a: FbScene, b: FbScene, r: Result<()>) -> bool {
    exists|gpi: u32, g: FbGeometry, ts: Seq<Transfer>, sent: Result<u16>| #[trigger]
        fb_ran_with(mode, a, b, r, gpi, g, ts, sent)
}

/// Point the fabric's frame reader at the frame buffer, and then tell the
/// kernel its geometry.
///
/// The payload is gated on the reply to the opcode. Where the core answers
/// zero, the geometry is not written either: registering a frame buffer that
/// nothing scans would only look as if it had worked.
pub fn fb_enable<R: Regs, D: Deadline, M: ModeSink + ?Sized, W: Witness>(
    mb: &mut Mailbox<R, D>,
    sink: &mut M,
    mode: &Modeline,
    journal: &mut Journal<W>,
) -> (r: Result<()>)
    ensures
        fb_ran(
            *mode,
            (FbScene { wire: old(mb)@, lines: old(sink).lines(), steps: old(journal).steps(), told: old(journal).told() }),
            (FbScene {
                wire: final(mb)@,
                lines: final(sink).lines(),
                steps: final(journal).steps(),
                told: final(journal).told(),
            }),
            r,
        ),
{
    let ghost a = FbScene { wire: mb@, lines: sink.lines(), steps: journal.steps(), told: journal.told() };
    let geom = FbGeometry::for_mode(mode.hact, mode.vact, mode.pr != 0);
    let ready = require_bitstream(mb);
    let ghost gpi = choose|gpi: u32| #[trigger] asked(gpi, ready) && mb@ == a.wire.read(gpi);
    if let Err(e) = ready {
        proof {
            let b = FbScene { wire: mb@, lines: sink.lines(), steps: journal.steps(), told: journal.told() };
            assert(fb_ran_with(*mode, a, b, Err(e), gpi, geom, Seq::empty(), Err(e)));
        }
        return Err(e);
    }

    let words = enable_words(&geom);
    let ghost opened = mb@;
    let sent = command_step(mb, UIO_SET_FBUF, &words, true, journal);
    let ghost ts = choose|ts: Seq<Transfer>| #[trigger]
        is_burst(ts, UIO_SET_FBUF, words@, true, sent) && command_ran(opened, mb@, ts);
    let reply: u16 = match sent {
        Ok(reply) => reply,
        Err(e) => {
            proof {
                let b = FbScene { wire: mb@, lines: sink.lines(), steps: journal.steps(), told: journal.told() };
                assert(fb_ran_with(*mode, a, b, Err(e), gpi, geom, ts, sent));
            }
            return Err(e);
        },
    };
    if reply == 0 {
        proof {
            let b = FbScene { wire: mb@, lines: sink.lines(), steps: journal.steps(), told: journal.told() };
            assert(fb_ran_with(*mode, a, b, Ok(()), gpi, geom, ts, sent));
        }
        return Ok(());
    }

    let r = geometry_step(sink, mode_param_line(&geom), journal);
    proof {
        let b = FbScene { wire: mb@, lines: sink.lines(), steps: journal.steps(), told: journal.told() };
        assert(fb_ran_with(*mode, a, b, r, gpi, geom, ts, sent));
    }
    r
}

/// Does handing the display back take the mailbox from `a` to `b`, with `r` as
/// its outcome?
pub open spec fn fb_off_ran(
    a: Wire,
    b: Wire,
    r: Result<()>,
    gpi: u32,
    ts: Seq<Transfer>,
    sent: Result<u16>,
) -> bool {
    if no_bitstream(gpi) {
        r == Err::<(), Error>(Error::NoBitstream) && b == a.read(gpi)
    } else {
        &&& is_burst(ts, UIO_SET_FBUF, seq![0u16], true, sent)
        &&& command_ran(a.read(gpi), b, ts)
        &&& match sent {
            Err(e) => r == Err::<(), Error>(e),
            Ok(_) => r is Ok,
        }
    }
}

/// Hand the display back to the core: one word, which the core has to ask for.
/// The geometry knob is left alone; it is right for when the frame buffer comes
/// back.
pub fn fb_disable<R: Regs, D: Deadline, W: Witness>(
    mb: &mut Mailbox<R, D>,
    journal: &mut Journal<W>,
) -> (r: Result<()>)
    ensures
        exists|gpi: u32, ts: Seq<Transfer>, sent: Result<u16>|
            {
                &&& #[trigger] fb_off_ran(old(mb)@, final(mb)@, r, gpi, ts, sent)
                &&& final(journal).steps() == if no_bitstream(gpi) {
                    old(journal).steps()
                } else {
                    old(journal).steps().push(
                        Step::Command(UIO_SET_FBUF, seq![0u16], reply_of(sent)),
                    )
                }
                &&& final(journal).told() == if no_bitstream(gpi) {
                    old(journal).told()
                } else {
                    old(journal).told().push(
                        Notice::Made(Step::Command(UIO_SET_FBUF, seq![0u16], reply_of(sent))),
                    )
                }
            },
{
    let ghost a = mb@;
    let ready = require_bitstream(mb);
    let ghost gpi = choose|gpi: u32| #[trigger] asked(gpi, ready) && mb@ == a.read(gpi);
    if let Err(e) = ready {
        assert(fb_off_ran(a, mb@, Err(e), gpi, Seq::empty(), Err(e)));
        return Err(e);
    }
    let words = disable_words();
    let ghost opened = mb@;
    let sent = command_step(mb, UIO_SET_FBUF, &words, true, journal);
    let ghost ts = choose|ts: Seq<Transfer>| #[trigger]
        is_burst(ts, UIO_SET_FBUF, words@, true, sent) && command_ran(opened, mb@, ts);
    match sent {
        Ok(_) => {
            assert(fb_off_ran(a, mb@, Ok(()), gpi, ts, sent));
            Ok(())
        },
        Err(e) => {
            assert(fb_off_ran(a, mb@, Err(e), gpi, ts, sent));
            Err(e)
        },
    }
}

/// Bring a mode up and then switch the display to the frame buffer: the
/// installer's one call.
///
/// It is [`hdmi_on`] and then, if that went through, [`fb_enable`], with the
/// same mailbox and the same bus.
pub fn up<R: Regs, D: Deadline, B: I2cBus + ?Sized, M: ModeSink + ?Sized, W: Witness>(
    mb: &mut Mailbox<R, D>,
    bus: &mut B,
    sink: &mut M,
    mode: &Modeline,
    mhz: &str,
    journal: &mut Journal<W>,
) -> (r: Result<()>)
    ensures
        exists|wire: Wire, steps: Seq<Step>, told: Seq<Notice>, first: Result<()>|
            {
                &&& #[trigger] hdmi_ran(
                    *mode,
                    mhz@,
                    (HdmiScene {
                        wire: old(mb)@,
                        i2c: old(bus).writes(),
                        steps: old(journal).steps(),
                        told: old(journal).told(),
                    }),
                    (HdmiScene { wire, i2c: final(bus).writes(), steps, told }),
                    first,
                )
                &&& match first {
                    Err(_) => {
                        &&& r == first
                        &&& final(mb)@ == wire
                        &&& final(journal).steps() == steps
                        &&& final(journal).told() == told
                        &&& final(sink).lines() == old(sink).lines()
                    },
                    Ok(_) => fb_ran(
                        *mode,
                        (FbScene { wire, lines: old(sink).lines(), steps, told }),
                        (FbScene {
                            wire: final(mb)@,
                            lines: final(sink).lines(),
                            steps: final(journal).steps(),
                            told: final(journal).told(),
                        }),
                        r,
                    ),
                }
            },
{
    if let Err(e) = hdmi_on(mb, bus, mode, mhz, journal) {
        return Err(e);
    }
    fb_enable(mb, sink, mode, journal)
}

/// What a step hands to a device, whatever came of it.
pub open spec fn handed(step: Step) -> Step {
    match step {
        Step::Registers(rows, _) => Step::Registers(rows, 0),
        Step::Command(opcode, payload, _) => Step::Command(opcode, payload, None),
        Step::Geometry(line, _) => Step::Geometry(line, true),
    }
}

/// What a run handed to the devices, in order.
pub open spec fn handed_since(before: Seq<Step>, after: Seq<Step>) -> Seq<Step> {
    after.skip(before.len() as int).map_values(|step: Step| handed(step))
}

/// The PLL entries of a mode are determined by its pixel clock.
proof fn lemma_one_block(mode: Modeline, x: PllBlock, y: PllBlock)
    requires
        tuned(mode, x),
        tuned(mode, y),
    ensures
        x.item@ == y.item@,
{
    let f = units(mode.f_pix_mhz)->0;
    let t = choose|t: Tuning| #[trigger] tunes(f, t) && x.encodes(t);
    let u = choose|t: Tuning| #[trigger] tunes(f, t) && y.encodes(t);
    a_clock_has_one_setting(f, t, u);
}

/// A mode is brought up in one order: the bulk registers, then the timings and
/// the PLL block, and then the mode registers. What is handed to the devices
/// depends on the mode alone, so a second run hands them the same again.
pub proof fn bringing_a_mode_up_is_repeatable(
    mode: Modeline,
    mhz: Seq<char>,
    a: HdmiScene,
    b: HdmiScene,
    mhz2: Seq<char>,
    c: HdmiScene,
    d: HdmiScene,
)
    requires
        hdmi_ran(mode, mhz, a, b, Ok(())),
        hdmi_ran(mode, mhz2, c, d, Ok(())),
    ensures
        handed_since(a.steps, b.steps) == handed_since(c.steps, d.steps),
        exists|block: PllBlock| #[trigger]
            tuned(mode, block) && handed_since(a.steps, b.steps) == seq![
                Step::Registers(bulk_writes(), 0),
                Step::Command(UIO_SET_VIDEO, video_words(mode, block.item@), None),
                Step::Registers(mode_writes(mode.hpol, mode.vpol, mode.vic, mode.pr), 0),
            ],
{
    let x = lemma_hdmi_steps(mode, mhz, a, b);
    let y = lemma_hdmi_steps(mode, mhz2, c, d);
    lemma_one_block(mode, x, y);
}

/// The steps of one run that went through.
proof fn lemma_hdmi_steps(mode: Modeline, mhz: Seq<char>, a: HdmiScene, b: HdmiScene) -> (block:
    PllBlock)
    requires
        hdmi_ran(mode, mhz, a, b, Ok(())),
    ensures
        tuned(mode, block),
        handed_since(a.steps, b.steps) == seq![
            Step::Registers(bulk_writes(), 0),
            Step::Command(UIO_SET_VIDEO, video_words(mode, block.item@), None),
            Step::Registers(mode_writes(mode.hpol, mode.vpol, mode.vic, mode.pr), 0),
        ],
{
    let (gpi, pll, bulk, regs, ts, sent) = choose|
        gpi: u32,
        pll: Result<PllBlock>,
        bulk: Seq<I2cWrite>,
        regs: Seq<I2cWrite>,
        ts: Seq<Transfer>,
        sent: Result<u16>,
    | #[trigger]
        hdmi_ran_with(mode, mhz, a, b, Ok(()), gpi, pll, bulk, regs, ts, sent);
    let block = pll->Ok_0;
    assert(handed_since(a.steps, b.steps) =~= seq![
        Step::Registers(bulk_writes(), 0),
        Step::Command(UIO_SET_VIDEO, video_words(mode, block.item@), None),
        Step::Registers(mode_writes(mode.hpol, mode.vpol, mode.vic, mode.pr), 0),
    ]);
    block
}

/// Where bringing a mode up goes through, the fabric has received the opcode
/// and the 26 words of the mode, in order, and nothing else.
pub proof fn the_fabric_receives_the_mode(
    mode: Modeline,
    mhz: Seq<char>,
    a: HdmiScene,
    b: HdmiScene,
)
    requires
        hdmi_ran(mode, mhz, a, b, Ok(())),
    ensures
        exists|block: PllBlock| #[trigger]
            tuned(mode, block) && latched(
                b.wire.trace.skip(a.wire.trace.len() as int),
                a.wire.gpo,
            ) == seq![UIO_SET_VIDEO] + video_words(mode, block.item@),
{
    let (gpi, pll, bulk, regs, ts, sent) = choose|
        gpi: u32,
        pll: Result<PllBlock>,
        bulk: Seq<I2cWrite>,
        regs: Seq<I2cWrite>,
        ts: Seq<Transfer>,
        sent: Result<u16>,
    | #[trigger]
        hdmi_ran_with(mode, mhz, a, b, Ok(()), gpi, pll, bulk, regs, ts, sent);
    let block = pll->Ok_0;
    the_fabric_receives_what_was_sent(
        a.wire.read(gpi),
        b.wire,
        ts,
        UIO_SET_VIDEO,
        video_words(mode, block.item@),
        false,
        sent,
    );
    lemma_a_read_is_not_seen(a.wire, b.wire, gpi);
    assert(tuned(mode, block));
}

/// A read before a command is nothing to the fabric.
proof fn lemma_a_read_is_not_seen(a: Wire, b: Wire, gpi: u32)
    requires
        a.read(gpi).trace.is_prefix_of(b.trace),
    ensures
        latched(b.trace.skip(a.trace.len() as int), a.gpo) == latched(
            b.trace.skip(a.read(gpi).trace.len() as int),
            a.gpo,
        ),
{
    let read = seq![RegEvent::Read(gpi)];
    let rest = b.trace.skip(a.read(gpi).trace.len() as int);
    let all = b.trace.skip(a.trace.len() as int);
    assert(all =~= read + rest) by {
        assert(b.trace[a.trace.len() as int] == a.read(gpi).trace[a.trace.len() as int]);
    }
    crate::mailbox::lemma_latched_in_turn(read, rest, a.gpo);
    reveal_with_fuel(latched, 2);
    reveal_with_fuel(crate::mailbox::level, 2);
    assert(read.drop_last() =~= Seq::<RegEvent>::empty());
    assert(latched(read, a.gpo) =~= Seq::<u16>::empty());
    assert(latched(all, a.gpo) =~= latched(rest, a.gpo));
}

/// A core that answers zero has no frame buffer to switch to: it receives the
/// opcode and none of the payload, the kernel is told nothing, and the run
/// counts as done. A core that answers anything else receives the payload
/// before the kernel is told.
pub proof fn the_kernel_is_told_only_of_what_the_core_has(
    mode: Modeline,
    a: FbScene,
    b: FbScene,
    r: Result<()>,
    gpi: u32,
    g: FbGeometry,
    ts: Seq<Transfer>,
    reply: u16,
)
    requires
        !no_bitstream(gpi),
        fb_ran_with(mode, a, b, r, gpi, g, ts, Ok(reply)),
    ensures
        latched(b.wire.trace.skip(a.wire.trace.len() as int), a.wire.gpo) == if reply == 0 {
            seq![UIO_SET_FBUF]
        } else {
            seq![UIO_SET_FBUF] + fbuf_words(g)
        },
        reply == 0 ==> r is Ok && b.lines == a.lines,
        reply != 0 ==> b.lines.len() == a.lines.len() + 1,
{
    the_fabric_receives_what_was_sent(
        a.wire.read(gpi),
        b.wire,
        ts,
        UIO_SET_FBUF,
        fbuf_words(g),
        true,
        Ok(reply),
    );
    lemma_a_read_is_not_seen(a.wire, b.wire, gpi);
}

/// The value that a register holds after a table was written to it.
pub open spec fn register_after(table: Seq<(u8, u8)>, reg: u8, before: Option<u8>) -> Option<u8>
    decreases table.len(),
{
    if table.len() == 0 {
        before
    } else if table.last().0 == reg {
        Some(table.last().1)
    } else {
        register_after(table.drop_last(), reg, before)
    }
}

/// A register after two tables in turn.
proof fn lemma_register_in_turn(s: Seq<(u8, u8)>, t: Seq<(u8, u8)>, reg: u8, before: Option<u8>)
    ensures
        register_after(s + t, reg, before) == register_after(
            t,
            reg,
            register_after(s, reg, before),
        ),
    decreases t.len(),
{
    if t.len() == 0 {
        assert(s + t =~= s);
    } else {
        assert((s + t).drop_last() =~= s + t.drop_last());
        lemma_register_in_turn(s, t.drop_last(), reg, before);
    }
}

/// A register that a table writes ends up the same whatever it held before, and
/// one that it does not write is left alone.
proof fn lemma_register_written(t: Seq<(u8, u8)>, reg: u8, x: Option<u8>, y: Option<u8>)
    ensures
        register_after(t, reg, x) == register_after(t, reg, y) || (register_after(t, reg, x) == x
            && register_after(t, reg, y) == y),
    decreases t.len(),
{
    if t.len() > 0 {
        lemma_register_written(t.drop_last(), reg, x, y);
    }
}

/// Writing a table again changes no register.
pub proof fn writing_a_table_again_changes_nothing(
    table: Seq<(u8, u8)>,
    reg: u8,
    before: Option<u8>,
)
    ensures
        register_after(table + table, reg, before) == register_after(table, reg, before),
{
    lemma_register_in_turn(table, table, reg, before);
    lemma_register_written(table, reg, before, register_after(table, reg, before));
}

/// After the bulk registers and the mode registers, the transmitter is powered
/// up, and the registers that both tables write hold the values of the mode.
pub proof fn the_mode_registers_win(mode: Modeline, before: Option<u8>)
    ensures
        ({
            let regs = mode_writes(mode.hpol, mode.vpol, mode.vic, mode.pr);
            let all = bulk_writes() + regs;
            &&& register_after(all, 0x17, before) == Some(regs[0].1)
            &&& register_after(all, 0x3B, before) == Some(regs[1].1)
            &&& register_after(all, 0x3C, before) == Some(mode.vic)
            &&& register_after(all, POWER_UP.0, before) == Some(POWER_UP.1)
        }),
{
    let bulk = bulk_writes();
    let regs = mode_writes(mode.hpol, mode.vpol, mode.vic, mode.pr);
    reveal_with_fuel(register_after, 4);
    lemma_register_in_turn(bulk, regs, 0x17, before);
    lemma_register_in_turn(bulk, regs, 0x3B, before);
    lemma_register_in_turn(bulk, regs, 0x3C, before);
    lemma_register_in_turn(bulk, regs, POWER_UP.0, before);
    let two = regs.drop_last();
    let one = two.drop_last();
    assert(two.last() == regs[1]);
    assert(one.last() == regs[0]);
    the_bulk_writes_power_up_once();
    lemma_register_from_row(bulk, 2, before);
}

/// A register holds the value of the last row that writes it.
proof fn lemma_register_from_row(t: Seq<(u8, u8)>, k: int, before: Option<u8>)
    requires
        0 <= k < t.len(),
        forall|i: int| k < i < t.len() ==> (#[trigger] t[i]).0 != t[k].0,
    ensures
        register_after(t, t[k].0, before) == Some(t[k].1),
    decreases t.len(),
{
    if k < t.len() - 1 {
        assert(t[t.len() - 1].0 != t[k].0);
        lemma_register_from_row(t.drop_last(), k, before);
    }
}

/// Switching the display hands the devices what depends on the mode and on
/// whether the core has a frame buffer, and on nothing else: a second run hands
/// them the same again.
pub proof fn switching_the_display_is_repeatable(
    mode: Modeline,
    a: FbScene,
    b: FbScene,
    gpi: u32,
    g: FbGeometry,
    ts: Seq<Transfer>,
    reply: u16,
    c: FbScene,
    d: FbScene,
    gpi2: u32,
    g2: FbGeometry,
    ts2: Seq<Transfer>,
    reply2: u16,
)
    requires
        !no_bitstream(gpi),
        !no_bitstream(gpi2),
        fb_ran_with(mode, a, b, Ok(()), gpi, g, ts, Ok(reply)),
        fb_ran_with(mode, c, d, Ok(()), gpi2, g2, ts2, Ok(reply2)),
        (reply == 0) == (reply2 == 0),
    ensures
        handed_since(a.steps, b.steps) == handed_since(c.steps, d.steps),
{
    assert(fbuf_words(g) =~= fbuf_words(g2));
    assert(handed_since(a.steps, b.steps) =~= handed_since(c.steps, d.steps));
}

/// The installer's one call makes five steps in one order: the bulk registers,
/// the timings and the PLL block, the mode registers, the frame buffer, and
/// only then the kernel's geometry.
pub proof fn going_up_makes_five_steps_in_order(
    mode: Modeline,
    mhz: Seq<char>,
    a: HdmiScene,
    middle: HdmiScene,
    lines: Seq<ModeWrite>,
    b: FbScene,
    gpi: u32,
    g: FbGeometry,
    ts: Seq<Transfer>,
    reply: u16,
)
    requires
        hdmi_ran(mode, mhz, a, middle, Ok(())),
        fb_ran_with(
            mode,
            (FbScene { wire: middle.wire, lines, steps: middle.steps, told: middle.told }),
            b,
            Ok(()),
            gpi,
            g,
            ts,
            Ok(reply),
        ),
        !no_bitstream(gpi),
        reply != 0,
    ensures
        exists|block: PllBlock| #[trigger]
            tuned(mode, block) && handed_since(a.steps, b.steps) == seq![
                Step::Registers(bulk_writes(), 0),
                Step::Command(UIO_SET_VIDEO, video_words(mode, block.item@), None),
                Step::Registers(mode_writes(mode.hpol, mode.vpol, mode.vic, mode.pr), 0),
                Step::Command(UIO_SET_FBUF, fbuf_words(g), None),
                Step::Geometry(mode_line(g.columns() as nat, g.rows() as nat), true),
            ],
{
    let block = lemma_hdmi_steps(mode, mhz, a, middle);
    let first = handed_since(a.steps, middle.steps);
    lemma_hdmi_steps_grow(mode, mhz, a, middle);
    assert(handed_since(a.steps, b.steps) =~= first + handed_since(middle.steps, b.steps));
    assert(handed_since(a.steps, b.steps) =~= seq![
        Step::Registers(bulk_writes(), 0),
        Step::Command(UIO_SET_VIDEO, video_words(mode, block.item@), None),
        Step::Registers(mode_writes(mode.hpol, mode.vpol, mode.vic, mode.pr), 0),
        Step::Command(UIO_SET_FBUF, fbuf_words(g), None),
        Step::Geometry(mode_line(g.columns() as nat, g.rows() as nat), true),
    ]);
}

/// A run that went through added three steps.
proof fn lemma_hdmi_steps_grow(mode: Modeline, mhz: Seq<char>, a: HdmiScene, b: HdmiScene)
    requires
        hdmi_ran(mode, mhz, a, b, Ok(())),
    ensures
        b.steps.len() == a.steps.len() + 3,
{
    let (gpi, pll, bulk, regs, ts, sent) = choose|
        gpi: u32,
        pll: Result<PllBlock>,
        bulk: Seq<I2cWrite>,
        regs: Seq<I2cWrite>,
        ts: Seq<Transfer>,
        sent: Result<u16>,
    | #[trigger]
        hdmi_ran_with(mode, mhz, a, b, Ok(()), gpi, pll, bulk, regs, ts, sent);
}

/// The steps among some notices.
pub open spec fn made(told: Seq<Notice>) -> Seq<Step>
    decreases told.len(),
{
    if told.len() == 0 {
        Seq::empty()
    } else {
        match told.last() {
            Notice::Made(step) => made(told.drop_last()).push(step),
            Notice::Refused { .. } => made(told.drop_last()),
        }
    }
}

/// The steps in two stretches of notices, one after the other.
proof fn lemma_made_in_turn(a: Seq<Notice>, b: Seq<Notice>)
    ensures
        made(a + b) == made(a) + made(b),
    decreases b.len(),
{
    if b.len() == 0 {
        assert(a + b =~= a);
    } else {
        lemma_made_in_turn(a, b.drop_last());
        assert((a + b).drop_last() =~= a + b.drop_last());
    }
    assert(made(a + b) =~= made(a) + made(b));
}

/// A table is one step, however many of its rows were refused.
proof fn lemma_made_of_table(table: Seq<(u8, u8)>, done: Seq<I2cWrite>)
    ensures
        made(table_told(table, done)) == seq![table_step(table, done)],
{
    lemma_refusals_are_no_steps(done);
    assert(table_told(table, done).drop_last() =~= refusals(done));
    assert(made(table_told(table, done)) =~= seq![table_step(table, done)]);
}

/// A refusal is no step.
proof fn lemma_refusals_are_no_steps(done: Seq<I2cWrite>)
    ensures
        made(refusals(done)) == Seq::<Step>::empty(),
    decreases done.len(),
{
    if done.len() > 0 {
        lemma_refusals_are_no_steps(done.drop_last());
        let before = refusals(done.drop_last());
        if done.last().outcome is Err {
            assert(refusals(done).drop_last() =~= before);
        }
    }
}

/// Whatever becomes of bringing a mode up, every step that is made is told, each
/// once and in the order in which it was made.
pub proof fn every_step_is_told(
    mode: Modeline,
    mhz: Seq<char>,
    a: HdmiScene,
    b: HdmiScene,
    r: Result<()>,
)
    requires
        hdmi_ran(mode, mhz, a, b, r),
    ensures
        a.told.is_prefix_of(b.told),
        made(b.told.skip(a.told.len() as int)) == b.steps.skip(a.steps.len() as int),
{
    let (gpi, pll, bulk, regs, ts, sent) = choose|
        gpi: u32,
        pll: Result<PllBlock>,
        bulk: Seq<I2cWrite>,
        regs: Seq<I2cWrite>,
        ts: Seq<Transfer>,
        sent: Result<u16>,
    | #[trigger]
        hdmi_ran_with(mode, mhz, a, b, r, gpi, pll, bulk, regs, ts, sent);
    if no_bitstream(gpi) || pll is Err {
        assert(b.told.skip(a.told.len() as int) =~= Seq::<Notice>::empty());
        assert(b.steps.skip(a.steps.len() as int) =~= Seq::<Step>::empty());
    } else {
        let block = pll->Ok_0;
        let first = mode_told(mode, block, bulk, sent);
        lemma_made_of_table(bulk_writes(), bulk);
        assert(first.drop_last() =~= table_told(bulk_writes(), bulk));
        assert(made(first) =~= mode_set(mode, block, bulk, sent));
        if sent is Err {
            assert(b.told.skip(a.told.len() as int) =~= first);
            assert(b.steps.skip(a.steps.len() as int) =~= mode_set(mode, block, bulk, sent));
        } else {
            let table = mode_writes(mode.hpol, mode.vpol, mode.vic, mode.pr);
            lemma_made_of_table(table, regs);
            lemma_made_in_turn(first, table_told(table, regs));
            assert(b.told.skip(a.told.len() as int) =~= first + table_told(table, regs));
            assert(b.steps.skip(a.steps.len() as int) =~= mode_set(mode, block, bulk, sent).push(
                registers_set(mode, regs),
            ));
        }
    }
}

/// Where the core has a frame buffer, the kernel is told of the one that the fabric
/// was pointed at: its line, read back, has the width and the height of the burst.
pub proof fn the_kernel_is_told_what_the_fabric_was(
    mode: Modeline,
    a: FbScene,
    b: FbScene,
    r: Result<()>,
    gpi: u32,
    g: FbGeometry,
    ts: Seq<Transfer>,
    reply: u16,
)
    requires
        !no_bitstream(gpi),
        reply != 0,
        fb_ran_with(mode, a, b, r, gpi, g, ts, Ok(reply)),
    ensures
        b.lines.len() == a.lines.len() + 1,
        ({
            let got = latched(b.wire.trace.skip(a.wire.trace.len() as int), a.wire.gpo);
            &&& got.len() == 11
            &&& mode_in(b.lines.last().line) == Some(
                FbMode {
                    format: 8888,
                    rb: 1,
                    width: got[4] as u32,
                    height: got[5] as u32,
                    stride: (got[4] * 4) as u32,
                },
            )
        }),
{
    the_kernel_is_told_only_of_what_the_core_has(mode, a, b, r, gpi, g, ts, reply);
    the_knob_and_the_burst_agree(g);
    let got = latched(b.wire.trace.skip(a.wire.trace.len() as int), a.wire.gpo);
    assert(got =~= seq![UIO_SET_FBUF] + fbuf_words(g));
}

/// Without a bitstream, and without a PLL setting, nothing is written anywhere:
/// all that bringing a mode up has done by then is to read GPI once.
pub proof fn what_cannot_be_shown_is_refused_before_anything_is_written(
    mode: Modeline,
    mhz: Seq<char>,
    a: HdmiScene,
    b: HdmiScene,
    r: Result<()>,
    gpi: u32,
    pll: Result<PllBlock>,
    bulk: Seq<I2cWrite>,
    regs: Seq<I2cWrite>,
    ts: Seq<Transfer>,
    sent: Result<u16>,
)
    requires
        hdmi_ran_with(mode, mhz, a, b, r, gpi, pll, bulk, regs, ts, sent),
        gpi & 0x8000_0000 != 0 || pll is Err,
    ensures
        r is Err,
        gpi & 0x8000_0000 != 0 ==> r == Err::<(), Error>(Error::NoBitstream),
        gpi & 0x8000_0000 == 0 ==> r->Err_0 is Usage,
        b.i2c == a.i2c,
        b.steps == a.steps,
        b.wire.gpo == a.wire.gpo,
        b.wire.trace == a.wire.trace.push(RegEvent::Read(gpi)),
{
}

/// Handing the display back sends the opcode and, to a core that answers anything
/// but zero, a single zero; and without a bitstream nothing.
pub proof fn handing_back_sends_a_single_zero(
    a: Wire,
    b: Wire,
    r: Result<()>,
    gpi: u32,
    ts: Seq<Transfer>,
    reply: u16,
)
    requires
        fb_off_ran(a, b, r, gpi, ts, Ok(reply)),
    ensures
        gpi & 0x8000_0000 != 0 ==> r == Err::<(), Error>(Error::NoBitstream) && b.trace
            == a.trace.push(RegEvent::Read(gpi)),
        gpi & 0x8000_0000 == 0 ==> r is Ok && latched(b.trace.skip(a.trace.len() as int), a.gpo)
            == if reply == 0 {
            seq![0x2Fu16]
        } else {
            seq![0x2Fu16, 0u16]
        },
{
    if !no_bitstream(gpi) {
        the_fabric_receives_what_was_sent(
            a.read(gpi),
            b,
            ts,
            UIO_SET_FBUF,
            seq![0u16],
            true,
            Ok(reply),
        );
        lemma_a_read_is_not_seen(a, b, gpi);
        assert(seq![UIO_SET_FBUF] + seq![0u16] =~= seq![0x2Fu16, 0u16]);
    }
}

} // verus!
