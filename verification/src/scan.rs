//! The search for the transmitter's bus, question by question.
//!
//! A closure that is called leaves no trace of it. A [`Scan`] keeps one: it holds
//! the probe where nothing else can call it, and lists the buses that it was
//! asked for and what it answered.

use vstd::prelude::*;

use crate::error::Result;

verus! {

/// One question to a probe, and the answer.
pub struct Question<T> {
    /// The bus.
    pub bus: u8,
    /// What the probe made of it.
    pub answer: Result<Option<T>>,
}

/// A probe, and every question that it was asked.
pub struct Scan<T, F> {
    probe: F,
    asked: Ghost<Seq<Question<T>>>,
}

impl<T, F: FnMut(u8) -> Result<Option<T>>> Scan<T, F> {
    /// Every question so far, in order.
    pub closed spec fn questions(&self) -> Seq<Question<T>> {
        self.asked@
    }

    /// Can the probe be asked for a bus?
    pub closed spec fn accepts(&self, bus: u8) -> bool {
        call_requires(self.probe, (bus,))
    }

    /// Can the probe give this answer for a bus?
    pub closed spec fn gives(&self, bus: u8, answer: Result<Option<T>>) -> bool {
        call_ensures(self.probe, (bus,), answer)
    }

    /// A probe that was asked nothing yet.
    pub fn new(probe: F) -> (scan: Self)
        ensures
            scan.questions() == Seq::<Question<T>>::empty(),
            forall|bus: u8| #[trigger] scan.accepts(bus) == call_requires(probe, (bus,)),
            forall|bus: u8, answer: Result<Option<T>>| #[trigger]
                scan.gives(bus, answer) == call_ensures(probe, (bus,), answer),
    {
        Self { probe, asked: Ghost(Seq::empty()) }
    }

    /// Ask the probe for one bus.
    pub fn ask(&mut self, bus: u8) -> (answer: Result<Option<T>>)
        requires
            old(self).accepts(bus),
        ensures
            final(self).questions() == old(self).questions().push((Question { bus, answer })),
            old(self).gives(bus, answer),
            forall|b: u8| #[trigger] final(self).accepts(b) == old(self).accepts(b),
            forall|b: u8, a: Result<Option<T>>| #[trigger]
                final(self).gives(b, a) == old(self).gives(b, a),
    {
        let answer = (self.probe)(bus);
        self.asked = Ghost(self.asked@.push(Question { bus, answer }));
        answer
    }
}

} // verus!
