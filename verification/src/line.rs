//! The line to the fabric: the two registers and the deadline of a poll, with one
//! history of the calls of both.
//!
//! The registers know of their accesses and the deadline of its own calls;
//! neither knows how the two lie between each other. A [`Line`] does. Neither can
//! be called past it, so the order in which it lists the calls is the order in
//! which they were made.

use vstd::prelude::*;

use crate::mailbox::{Call, Deadline, RegEvent, Regs, WindowEvent};

verus! {

/// A pair of registers and a deadline.
pub struct Line<R: Regs, D> {
    regs: R,
    deadline: D,
    made: Ghost<Seq<Call>>,
}

impl<R: Regs, D: Deadline> Line<R, D> {
    /// The registers.
    pub closed spec fn registers(&self) -> R {
        self.regs
    }

    /// Every access to the registers, in order.
    pub closed spec fn trace(&self) -> Seq<RegEvent> {
        self.regs.trace()
    }

    /// Every call of the deadline, in order.
    pub closed spec fn windows(&self) -> Seq<WindowEvent> {
        self.deadline.windows()
    }

    /// Every call of either since the line was made, in order.
    pub closed spec fn calls(&self) -> Seq<Call> {
        self.made@
    }

    /// How often the deadline can still be asked before it says that the window
    /// has closed.
    pub closed spec fn patience(&self) -> nat {
        self.deadline.patience()
    }

    /// A line on which nothing was called yet.
    pub fn new(regs: R, deadline: D) -> (line: Self)
        ensures
            line.registers() == regs,
            line.trace() == regs.trace(),
            line.windows() == deadline.windows(),
            line.calls() == Seq::<Call>::empty(),
    {
        Self { regs, deadline, made: Ghost(Seq::empty()) }
    }

    /// The registers, to look at.
    pub fn regs(&self) -> (regs: &R)
        ensures
            *regs == self.registers(),
            regs.trace() == self.trace(),
    {
        &self.regs
    }

    /// Write GPO.
    pub fn write(&mut self, gpo: u32)
        ensures
            final(self).trace() == old(self).trace().push(RegEvent::Write(gpo)),
            final(self).windows() == old(self).windows(),
            final(self).calls() == old(self).calls().push(Call::Registers(RegEvent::Write(gpo))),
            final(self).patience() == old(self).patience(),
    {
        self.regs.gpo_write(gpo);
        self.made = Ghost(self.made@.push(Call::Registers(RegEvent::Write(gpo))));
    }

    /// Read GPI.
    pub fn read(&mut self) -> (gpi: u32)
        ensures
            final(self).trace() == old(self).trace().push(RegEvent::Read(gpi)),
            final(self).windows() == old(self).windows(),
            final(self).calls() == old(self).calls().push(Call::Registers(RegEvent::Read(gpi))),
            final(self).patience() == old(self).patience(),
    {
        let gpi: u32 = self.regs.gpi_read();
        self.made = Ghost(self.made@.push(Call::Registers(RegEvent::Read(gpi))));
        gpi
    }

    /// Open a timing window.
    pub fn open_window(&mut self)
        ensures
            final(self).trace() == old(self).trace(),
            final(self).windows() == old(self).windows().push(WindowEvent::Opened),
            final(self).calls() == old(self).calls().push(Call::Deadline(WindowEvent::Opened)),
    {
        self.deadline.start();
        self.made = Ghost(self.made@.push(Call::Deadline(WindowEvent::Opened)));
    }

    /// Ask whether the window has closed.
    pub fn window_closed(&mut self) -> (closed: bool)
        ensures
            final(self).trace() == old(self).trace(),
            final(self).windows() == old(self).windows().push(WindowEvent::Asked(closed)),
            final(self).calls() == old(self).calls().push(
                Call::Deadline(WindowEvent::Asked(closed)),
            ),
            !closed ==> final(self).patience() < old(self).patience(),
    {
        let closed = self.deadline.expired();
        self.made = Ghost(self.made@.push(Call::Deadline(WindowEvent::Asked(closed))));
        closed
    }
}

} // verus!
