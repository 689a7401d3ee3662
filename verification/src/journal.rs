//! The journal: what was done to the devices, in the order in which it was done.
//!
//! The devices know of their own calls only. What ties them together is a
//! [`Journal`]. Nothing can be noted in one from outside this module: the way to
//! add a step is to make it, through [`write_step`], [`command_step`] or
//! [`geometry_step`]. So the order of a journal is the order in which the devices
//! were touched.

use vstd::prelude::*;

use crate::error::{Error, Result};
use crate::hw::{
    refusals, refused, table_written, write_table_before, I2cBus, I2cWrite, ModeSink, ModeWrite,
};
use crate::mailbox::{command_ran, is_burst, Deadline, Mailbox, Regs, Transfer};

verus! {

/// One step, as it is noted.
#[derive(Debug)]
pub enum Entry {
    /// A table went to the transmitter.
    Registers {
        /// The rows.
        rows: Vec<(u8, u8)>,
        /// How many of them were refused.
        refused: usize,
    },
    /// A command went to the mailbox.
    Command {
        /// The opcode.
        opcode: u16,
        /// The payload.
        payload: Vec<u16>,
        /// The reply to the opcode, if the command went through.
        reply: Option<u16>,
    },
    /// A line went to the geometry knob.
    Geometry {
        /// The line.
        line: String,
        /// Did the knob take it?
        taken: bool,
    },
}

/// One step, by what it hands to a device and what came of it.
pub enum Step {
    /// The rows of a table, and how many of them were refused.
    Registers(Seq<(u8, u8)>, nat),
    /// The opcode and the payload of a command, and the reply to the opcode if
    /// the command went through.
    Command(u16, Seq<u16>, Option<u16>),
    /// A line for the geometry knob, and whether the knob took it.
    Geometry(Seq<char>, bool),
}

/// The reply of a command that went through.
pub open spec fn reply_of(sent: Result<u16>) -> Option<u16> {
    match sent {
        Ok(reply) => Some(reply),
        Err(_) => None,
    }
}

impl Entry {
    /// The step.
    pub open spec fn step(&self) -> Step {
        match self {
            Entry::Registers { rows, refused } => Step::Registers(rows@, *refused as nat),
            Entry::Command { opcode, payload, reply } => Step::Command(*opcode, payload@, *reply),
            Entry::Geometry { line, taken } => Step::Geometry(line@, *taken),
        }
    }
}

/// What a witness is told.
pub enum Notice {
    /// A register write was refused.
    Refused {
        /// The register.
        reg: u8,
        /// The value.
        value: u8,
        /// The reason.
        why: Error,
    },
    /// A step was made.
    Made(Step),
}

/// Someone who is told of each step as soon as it was made, and of each refused
/// register write as soon as it was refused: the log, in practice.
///
/// A witness can look and do no more, and what is done to the devices does not
/// depend on one.
pub trait Witness {
    /// All that was told so far, in order.
    closed spec fn told(&self) -> Seq<Notice> {
        Seq::empty()
    }

    /// A register write was refused.
    fn refused(&mut self, reg: u8, value: u8, why: &Error)
        ensures
            final(self).told() == old(self).told().push(Notice::Refused { reg, value, why: *why }),
    ;

    /// A step was made.
    fn saw(&mut self, entry: &Entry)
        ensures
            final(self).told() == old(self).told().push(Notice::Made(entry.step())),
    ;
}

/// A witness who makes nothing of it.
pub struct Unwatched {
    heard: Ghost<Seq<Notice>>,
}

impl Unwatched {
    /// A witness who was told nothing yet.
    pub fn new() -> (w: Self)
        ensures
            w.told() == Seq::<Notice>::empty(),
    {
        Self { heard: Ghost(Seq::empty()) }
    }
}

impl Witness for Unwatched {
    closed spec fn told(&self) -> Seq<Notice> {
        self.heard@
    }

    fn refused(&mut self, reg: u8, value: u8, why: &Error) {
        self.heard = Ghost(self.heard@.push(Notice::Refused { reg, value, why: *why }));
    }

    fn saw(&mut self, entry: &Entry) {
        self.heard = Ghost(self.heard@.push(Notice::Made(entry.step())));
    }
}

/// The steps made so far, in order.
///
/// Only the three functions below add to a journal, each of them one step that
/// it has just made on its device.
pub struct Journal<W: Witness = Unwatched> {
    entries: Vec<Entry>,
    witness: W,
}

impl Journal<Unwatched> {
    /// A journal without an entry, which no one watches.
    pub fn new() -> (j: Self)
        ensures
            j.noted() == Seq::<Entry>::empty(),
            j.steps() == Seq::<Step>::empty(),
            j.told() == Seq::<Notice>::empty(),
    {
        Journal::watched(Unwatched::new())
    }
}

impl<W: Witness> Journal<W> {
    /// The entries.
    pub closed spec fn noted(&self) -> Seq<Entry> {
        self.entries@
    }

    /// The steps.
    pub open spec fn steps(&self) -> Seq<Step> {
        self.noted().map_values(|e: Entry| e.step())
    }

    /// All that the witness was told, in order.
    pub closed spec fn told(&self) -> Seq<Notice> {
        self.witness.told()
    }

    /// A journal without an entry, whose witness is told of each step to come.
    pub fn watched(witness: W) -> (j: Self)
        ensures
            j.told() == witness.told(),
            j.noted() == Seq::<Entry>::empty(),
            j.steps() == Seq::<Step>::empty(),
    {
        let j = Journal { entries: Vec::new(), witness };
        assert(j.steps() =~= Seq::<Step>::empty());
        j
    }

    /// The entries.
    pub fn entries(&self) -> (all: &[Entry])
        ensures
            all@ == self.noted(),
    {
        self.entries.as_slice()
    }

    /// Note one step, and tell the witness.
    fn note(&mut self, entry: Entry)
        ensures
            final(self).noted() == old(self).noted().push(entry),
            final(self).steps() == old(self).steps().push(entry.step()),
            final(self).told() == old(self).told().push(Notice::Made(entry.step())),
    {
        self.witness.saw(&entry);
        self.entries.push(entry);
        assert(self.steps() =~= old(self).steps().push(entry.step()));
    }
}

/// Copy the rows of a table.
fn rows_of(table: &[(u8, u8)]) -> (rows: Vec<(u8, u8)>)
    ensures
        rows@ == table@,
{
    let mut rows: Vec<(u8, u8)> = Vec::new();
    let mut i: usize = 0;
    while i < table.len()
        invariant
            i <= table.len(),
            rows@ == table@.take(i as int),
        decreases table.len() - i,
    {
        rows.push(table[i]);
        i = i + 1;
        assert(table@.take(i as int) =~= table@.take(i - 1).push(table@[i - 1]));
    }
    assert(table@.take(i as int) =~= table@);
    rows
}

/// Copy the words of a payload.
fn words_of(payload: &[u16]) -> (words: Vec<u16>)
    ensures
        words@ == payload@,
{
    let mut words: Vec<u16> = Vec::new();
    let mut i: usize = 0;
    while i < payload.len()
        invariant
            i <= payload.len(),
            words@ == payload@.take(i as int),
        decreases payload.len() - i,
    {
        words.push(payload[i]);
        i = i + 1;
        assert(payload@.take(i as int) =~= payload@.take(i - 1).push(payload@[i - 1]));
    }
    assert(payload@.take(i as int) =~= payload@);
    words
}

/// The step that writes a table.
pub open spec fn table_step(table: Seq<(u8, u8)>, done: Seq<I2cWrite>) -> Step {
    Step::Registers(table, refused(done))
}

/// What is told of a table that was written: each refusal, and then the step.
pub open spec fn table_told(table: Seq<(u8, u8)>, done: Seq<I2cWrite>) -> Seq<Notice> {
    refusals(done).push(Notice::Made(table_step(table, done)))
}

/// Write a table to the transmitter, and note it.
pub fn write_step<B: I2cBus + ?Sized, W: Witness>(
    bus: &mut B,
    table: &[(u8, u8)],
    journal: &mut Journal<W>,
)
    ensures
        exists|done: Seq<I2cWrite>| #[trigger]
            table_written(table@, done) && final(bus).writes() == old(bus).writes() + done
                && final(journal).steps() == old(journal).steps().push(table_step(table@, done))
                && final(journal).told() == old(journal).told() + table_told(table@, done),
{
    let ghost told = journal.told();
    let failed: usize = write_table_before(bus, table, &mut journal.witness);
    let ghost done = choose|done: Seq<I2cWrite>| #[trigger]
        table_written(table@, done) && bus.writes() == old(bus).writes() + done && failed
            == refused(done) && journal.told() == told + refusals(done);
    journal.note(Entry::Registers { rows: rows_of(table), refused: failed });
    assert(journal.told() =~= told + table_told(table@, done));
}

/// Send a command, gated or not, and note it.
pub fn command_step<R: Regs, D: Deadline, W: Witness>(
    mb: &mut Mailbox<R, D>,
    opcode: u16,
    payload: &[u16],
    gated: bool,
    journal: &mut Journal<W>,
) -> (r: Result<u16>)
    ensures
        exists|ts: Seq<Transfer>| #[trigger]
            is_burst(ts, opcode, payload@, gated, r) && command_ran(old(mb)@, final(mb)@, ts),
        final(journal).steps() == old(journal).steps().push(
            Step::Command(opcode, payload@, reply_of(r)),
        ),
        final(journal).told() == old(journal).told().push(
            Notice::Made(Step::Command(opcode, payload@, reply_of(r))),
        ),
{
    let r = if gated {
        mb.command_if_supported(opcode, payload)
    } else {
        mb.command(opcode, payload)
    };
    let reply: Option<u16> = match r {
        Ok(reply) => Some(reply),
        Err(_) => None,
    };
    journal.note(Entry::Command { opcode, payload: words_of(payload), reply });
    r
}

/// Write a line to the geometry knob, and note it.
pub fn geometry_step<M: ModeSink + ?Sized, W: Witness>(
    sink: &mut M,
    line: String,
    journal: &mut Journal<W>,
) -> (r: Result<()>)
    ensures
        final(sink).lines() == old(sink).lines().push((ModeWrite { line: line@, outcome: r })),
        final(journal).steps() == old(journal).steps().push(Step::Geometry(line@, r is Ok)),
        final(journal).told() == old(journal).told().push(
            Notice::Made(Step::Geometry(line@, r is Ok)),
        ),
{
    let r = sink.write_mode_line(line.as_str());
    let taken = r.is_ok();
    journal.note(Entry::Geometry { line, taken });
    r
}

} // verus!
