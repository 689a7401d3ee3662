//! What a core has to support: a command whose payload the core has to ask for,
//! held against one whose payload goes out unasked.
//!
//! Two mailboxes can be compared where the fabric and the deadline answer both of
//! them alike: what one of them reads, and what it is told of its windows, is
//! what the other one reads and is told, as far as both go.

use vstd::prelude::*;

use crate::error::{Error, Result};
use crate::mailbox::{
    blank, command_ran, enabled, framed, is_burst, is_poll, lemma_command_upon, poll_trace,
    poll_windows, since, waiting, RegEvent, Transfer, WindowEvent, Wire, SSPI_STROBE,
};

verus! {

/// The GPI values that were read, in order.
pub open spec fn read_values(trace: Seq<RegEvent>) -> Seq<u32>
    decreases trace.len(),
{
    if trace.len() == 0 {
        Seq::empty()
    } else {
        match trace.last() {
            RegEvent::Read(gpi) => read_values(trace.drop_last()).push(gpi),
            RegEvent::Write(_) => read_values(trace.drop_last()),
        }
    }
}

/// What the deadline said when it was asked, in order.
pub open spec fn answers(windows: Seq<WindowEvent>) -> Seq<bool>
    decreases windows.len(),
{
    if windows.len() == 0 {
        Seq::empty()
    } else {
        match windows.last() {
            WindowEvent::Asked(closed) => answers(windows.drop_last()).push(closed),
            WindowEvent::Opened => answers(windows.drop_last()),
        }
    }
}

/// Are two sequences the same as far as both go?
pub open spec fn agree<T>(s: Seq<T>, t: Seq<T>) -> bool {
    forall|i: int| #![trigger s[i]] #![trigger t[i]] 0 <= i < s.len() && i < t.len() ==> s[i] == t[i]
}

/// Were two mailboxes answered alike by their registers and their deadlines?
pub open spec fn answered_alike(a: Wire, b: Wire) -> bool {
    &&& agree(read_values(a.trace), read_values(b.trace))
    &&& agree(answers(a.windows), answers(b.windows))
}

/// What the deadline says during a poll.
spec fn poll_answers(reads: Seq<u32>, want: bool) -> Seq<bool> {
    Seq::new((reads.len() - 1) as nat, |i: int| false) + if waiting(reads.last(), want) {
        seq![true]
    } else {
        Seq::<bool>::empty()
    }
}

/// The GPI values that a transfer reads.
spec fn reads_of(t: Transfer) -> Seq<u32> {
    t.rise + t.fall
}

/// What the deadline says during a transfer.
spec fn answers_of(t: Transfer) -> Seq<bool> {
    poll_answers(t.rise, true) + if t.answered() {
        poll_answers(t.fall, false)
    } else {
        Seq::<bool>::empty()
    }
}

/// The GPI values that several transfers read.
spec fn reads_in(ts: Seq<Transfer>) -> Seq<u32>
    decreases ts.len(),
{
    if ts.len() == 0 {
        Seq::empty()
    } else {
        reads_of(ts[0]) + reads_in(ts.skip(1))
    }
}

/// What the deadline says during several transfers.
spec fn answers_in(ts: Seq<Transfer>) -> Seq<bool>
    decreases ts.len(),
{
    if ts.len() == 0 {
        Seq::empty()
    } else {
        answers_of(ts[0]) + answers_in(ts.skip(1))
    }
}

/// A poll that is answered alike reads alike, and what comes after it is answered
/// alike too.
proof fn lemma_same_poll(
    s: Seq<u32>,
    t: Seq<u32>,
    want: bool,
    x: Seq<u32>,
    y: Seq<u32>,
    p: Seq<bool>,
    q: Seq<bool>,
)
    requires
        is_poll(s, want),
        is_poll(t, want),
        agree(s + x, t + y),
        agree(poll_answers(s, want) + p, poll_answers(t, want) + q),
    ensures
        s == t,
        agree(x, y),
        agree(p, q),
{
    let a = poll_answers(s, want) + p;
    let b = poll_answers(t, want) + q;
    if s.len() < t.len() {
        let n = s.len() - 1;
        assert((s + x)[n] == (t + y)[n]);
        assert(waiting(t[n], want));
        assert(a[n] == true);
        assert(b[n] == false);
        assert(false);
    }
    if t.len() < s.len() {
        let n = t.len() - 1;
        assert((s + x)[n] == (t + y)[n]);
        assert(waiting(s[n], want));
        assert(b[n] == true);
        assert(a[n] == false);
        assert(false);
    }
    assert forall|i: int| 0 <= i < s.len() implies s[i] == t[i] by {
        assert((s + x)[i] == (t + y)[i]);
    }
    assert(s =~= t);
    let m = poll_answers(s, want).len() as int;
    assert forall|i: int|
        #![trigger x[i]]
        #![trigger y[i]]
        0 <= i < x.len() && i < y.len() implies x[i] == y[i] by {
        assert((s + x)[s.len() + i] == (t + y)[s.len() + i]);
    }
    assert forall|i: int|
        #![trigger p[i]]
        #![trigger q[i]]
        0 <= i < p.len() && i < q.len() implies p[i] == q[i] by {
        assert(a[m + i] == b[m + i]);
    }
}

/// The same of a transfer.
proof fn lemma_same_transfer(
    t: Transfer,
    u: Transfer,
    x: Seq<u32>,
    y: Seq<u32>,
    p: Seq<bool>,
    q: Seq<bool>,
)
    requires
        t.well_formed(),
        u.well_formed(),
        t.word == u.word,
        agree(reads_of(t) + x, reads_of(u) + y),
        agree(answers_of(t) + p, answers_of(u) + q),
    ensures
        t == u,
        agree(x, y),
        agree(p, q),
{
    let t_rest = if t.answered() {
        poll_answers(t.fall, false)
    } else {
        Seq::<bool>::empty()
    };
    let u_rest = if u.answered() {
        poll_answers(u.fall, false)
    } else {
        Seq::<bool>::empty()
    };
    assert(reads_of(t) + x =~= t.rise + (t.fall + x));
    assert(reads_of(u) + y =~= u.rise + (u.fall + y));
    assert(answers_of(t) + p =~= poll_answers(t.rise, true) + (t_rest + p));
    assert(answers_of(u) + q =~= poll_answers(u.rise, true) + (u_rest + q));
    lemma_same_poll(t.rise, u.rise, true, t.fall + x, u.fall + y, t_rest + p, u_rest + q);
    if t.answered() {
        lemma_same_poll(t.fall, u.fall, false, x, y, p, q);
    } else {
        assert(t.fall =~= u.fall);
        assert(t.fall + x =~= x);
        assert(u.fall + y =~= y);
        assert(t_rest + p =~= p);
        assert(u_rest + q =~= q);
    }
}

/// The same of several transfers, as far as both go.
proof fn lemma_same_transfers(ts: Seq<Transfer>, us: Seq<Transfer>)
    requires
        forall|i: int| 0 <= i < ts.len() ==> (#[trigger] ts[i]).well_formed(),
        forall|i: int| 0 <= i < us.len() ==> (#[trigger] us[i]).well_formed(),
        forall|i: int|
            0 <= i < ts.len() && i < us.len() ==> (#[trigger] ts[i]).word == (#[trigger] us[i]).word,
        agree(reads_in(ts), reads_in(us)),
        agree(answers_in(ts), answers_in(us)),
    ensures
        agree(ts, us),
    decreases ts.len(),
{
    if ts.len() > 0 && us.len() > 0 {
        let t = ts.skip(1);
        let u = us.skip(1);
        assert(ts[0].word == us[0].word);
        lemma_same_transfer(
            ts[0],
            us[0],
            reads_in(t),
            reads_in(u),
            answers_in(t),
            answers_in(u),
        );
        assert forall|i: int| 0 <= i < t.len() && i < u.len() implies (#[trigger] t[i]).word == (
        #[trigger] u[i]).word by {
            assert(ts[i + 1].word == us[i + 1].word);
        }
        lemma_same_transfers(t, u);
        assert forall|i: int|
            #![trigger ts[i]]
            #![trigger us[i]]
            0 <= i < ts.len() && i < us.len() implies ts[i] == us[i] by {
            if i > 0 {
                assert(t[i - 1] == u[i - 1]);
            }
        }
    }
}

/// The reads and the answers of one transfer more.
proof fn lemma_one_transfer_more(ts: Seq<Transfer>, t: Transfer)
    ensures
        reads_in(ts.push(t)) == reads_in(ts) + reads_of(t),
        answers_in(ts.push(t)) == answers_in(ts) + answers_of(t),
    decreases ts.len(),
{
    if ts.len() == 0 {
        assert(ts.push(t).skip(1) =~= ts);
        assert(reads_in(ts.push(t)) =~= reads_in(ts) + reads_of(t));
        assert(answers_in(ts.push(t)) =~= answers_in(ts) + answers_of(t));
    } else {
        lemma_one_transfer_more(ts.skip(1), t);
        assert(ts.push(t).skip(1) =~= ts.skip(1).push(t));
        assert(reads_in(ts.push(t)) =~= reads_in(ts) + reads_of(t));
        assert(answers_in(ts.push(t)) =~= answers_in(ts) + answers_of(t));
    }
}

/// The values of two stretches of accesses, one after the other.
proof fn lemma_values_in_turn(a: Seq<RegEvent>, b: Seq<RegEvent>)
    ensures
        read_values(a + b) == read_values(a) + read_values(b),
    decreases b.len(),
{
    if b.len() == 0 {
        assert(a + b =~= a);
        assert(read_values(a) + read_values(b) =~= read_values(a));
    } else {
        lemma_values_in_turn(a, b.drop_last());
        assert((a + b).drop_last() =~= a + b.drop_last());
        assert(read_values(a + b) =~= read_values(a) + read_values(b));
    }
}

/// The answers during two stretches of calls, one after the other.
proof fn lemma_answers_in_turn(a: Seq<WindowEvent>, b: Seq<WindowEvent>)
    ensures
        answers(a + b) == answers(a) + answers(b),
    decreases b.len(),
{
    if b.len() == 0 {
        assert(a + b =~= a);
        assert(answers(a) + answers(b) =~= answers(a));
    } else {
        lemma_answers_in_turn(a, b.drop_last());
        assert((a + b).drop_last() =~= a + b.drop_last());
        assert(answers(a + b) =~= answers(a) + answers(b));
    }
}

/// What a poll reads.
proof fn lemma_values_of_poll(reads: Seq<u32>)
    ensures
        read_values(poll_trace(reads)) == reads,
    decreases reads.len(),
{
    if reads.len() > 0 {
        lemma_values_of_poll(reads.drop_last());
        assert(poll_trace(reads).drop_last() =~= poll_trace(reads.drop_last()));
        assert(read_values(poll_trace(reads)) =~= reads);
    }
}

/// The deadline says "open" as often as it is asked.
proof fn lemma_answers_while_open(n: nat)
    ensures
        answers(Seq::new(n, |i: int| WindowEvent::Asked(false))) == Seq::new(n, |i: int| false),
    decreases n,
{
    let w = Seq::new(n, |i: int| WindowEvent::Asked(false));
    if n > 0 {
        lemma_answers_while_open((n - 1) as nat);
        assert(w.drop_last() =~= Seq::new((n - 1) as nat, |i: int| WindowEvent::Asked(false)));
    }
    assert(answers(w) =~= Seq::new(n, |i: int| false));
}

/// What the deadline says during a poll, from its calls.
proof fn lemma_answers_of_poll(reads: Seq<u32>, want: bool)
    ensures
        answers(poll_windows(reads, want)) == poll_answers(reads, want),
{
    let opened = seq![WindowEvent::Opened];
    let n = (reads.len() - 1) as nat;
    let asked = Seq::new(n, |i: int| WindowEvent::Asked(false));
    reveal_with_fuel(answers, 2);
    assert(opened.drop_last() =~= Seq::<WindowEvent>::empty());
    lemma_answers_in_turn(opened, asked);
    lemma_answers_while_open(n);
    let all = poll_windows(reads, want);
    if waiting(reads.last(), want) {
        assert(all.drop_last() =~= opened + asked);
    } else {
        assert(all =~= opened + asked);
    }
    assert(answers(all) =~= poll_answers(reads, want));
}

/// The values and the answers of one transfer, from its calls.
proof fn lemma_values_of_transfer(t: Transfer, gpo: u32)
    ensures
        read_values(t.trace(gpo)) == reads_of(t),
        answers(t.windows()) == answers_of(t),
{
    let up = seq![RegEvent::Write(gpo), RegEvent::Write(gpo | SSPI_STROBE)];
    let down = seq![RegEvent::Write(gpo)];
    reveal_with_fuel(read_values, 3);
    assert(up.drop_last() =~= down);
    assert(down.drop_last() =~= Seq::<RegEvent>::empty());
    lemma_values_of_poll(t.rise);
    lemma_values_of_poll(t.fall);
    lemma_values_in_turn(up, poll_trace(t.rise));
    lemma_values_in_turn(up + poll_trace(t.rise), down);
    lemma_values_in_turn(up + poll_trace(t.rise) + down, poll_trace(t.fall));
    assert(read_values(t.trace(gpo)) =~= reads_of(t));
    lemma_answers_of_poll(t.rise, true);
    lemma_answers_of_poll(t.fall, false);
    if t.answered() {
        lemma_answers_in_turn(poll_windows(t.rise, true), poll_windows(t.fall, false));
    } else {
        assert(t.windows() =~= poll_windows(t.rise, true));
        assert(answers_of(t) =~= poll_answers(t.rise, true));
    }
}

/// The values and the answers of several transfers, from their calls.
proof fn lemma_values_of_transfers(w: Wire, ts: Seq<Transfer>)
    ensures
        read_values(w.after_all(ts).trace) == read_values(w.trace) + reads_in(ts),
        answers(w.after_all(ts).windows) == answers(w.windows) + answers_in(ts),
    decreases ts.len(),
{
    if ts.len() == 0 {
        assert(read_values(w.trace) + reads_in(ts) =~= read_values(w.trace));
        assert(answers(w.windows) + answers_in(ts) =~= answers(w.windows));
    } else {
        let earlier = w.after_all(ts.drop_last());
        let t = ts.last();
        let gpo = framed(earlier.gpo, t.word);
        lemma_values_of_transfers(w, ts.drop_last());
        lemma_values_of_transfer(t, gpo);
        lemma_values_in_turn(earlier.trace, t.trace(gpo));
        lemma_answers_in_turn(earlier.windows, t.windows());
        lemma_one_transfer_more(ts.drop_last(), t);
        assert(ts.drop_last().push(t) =~= ts);
        assert(read_values(w.after_all(ts).trace) =~= read_values(w.trace) + reads_in(ts));
        assert(answers(w.after_all(ts).windows) =~= answers(w.windows) + answers_in(ts));
    }
}

/// The values and the answers of a command, from its calls.
proof fn lemma_values_of_command(before: Wire, after: Wire, ts: Seq<Transfer>)
    requires
        command_ran(before, after, ts),
    ensures
        read_values(since(before, after).trace) == reads_in(ts),
        answers(since(before, after).windows) == answers_in(ts),
{
    let done = lemma_command_upon(before, after, ts);
    let start = blank(before.gpo);
    let opened = start.wrote(enabled(start.gpo));
    let burst = opened.after_all(ts);
    reveal_with_fuel(read_values, 2);
    assert(opened.trace.drop_last() =~= Seq::<RegEvent>::empty());
    lemma_values_of_transfers(opened, ts);
    assert(done.trace.drop_last() =~= burst.trace);
    assert(read_values(done.trace) =~= reads_in(ts));
    assert(answers(done.windows) =~= answers_in(ts));
}

/// Two commands, one gated and one not, make the same transfers where they are
/// answered alike and have the same words to send.
proof fn lemma_same_command(
    ts: Seq<Transfer>,
    us: Seq<Transfer>,
    opcode: u16,
    payload: Seq<u16>,
    unasked: Seq<u16>,
    r: Result<u16>,
    s: Result<u16>,
)
    requires
        is_burst(ts, opcode, payload, true, r),
        is_burst(us, opcode, unasked, false, s),
        if r == Ok::<u16, Error>(0) {
            unasked.len() == 0
        } else {
            unasked == payload
        },
        agree(reads_in(ts), reads_in(us)),
        agree(answers_in(ts), answers_in(us)),
    ensures
        ts == us,
        r == s,
{
    assert(ts[0].word == us[0].word);
    assert forall|i: int| 0 <= i < ts.len() && i < us.len() implies (#[trigger] ts[i]).word == (
    #[trigger] us[i]).word by {}
    lemma_same_transfers(ts, us);
    let last = if ts.len() < us.len() {
        ts.len() - 1
    } else {
        us.len() - 1
    };
    assert(ts[last] == us[last]);
    assert(ts[0] == us[0]);
    if ts.len() < us.len() {
        assert(us[last].completed());
    }
    if us.len() < ts.len() {
        assert(ts[last].completed());
    }
    assert(ts.len() == us.len());
    assert(ts =~= us);
}

/// A core that does not answer zero is sent the same by a gated command as by one
/// that is not: on two mailboxes in the same state that are answered alike, both
/// return the same, failures included, make the same calls in the same order, and
/// leave the same word on GPO.
pub proof fn a_core_that_asks_is_sent_the_same(
    opcode: u16,
    payload: Seq<u16>,
    a: Wire,
    a2: Wire,
    ts: Seq<Transfer>,
    r: Result<u16>,
    b: Wire,
    b2: Wire,
    us: Seq<Transfer>,
    s: Result<u16>,
)
    requires
        is_burst(ts, opcode, payload, true, r),
        command_ran(a, a2, ts),
        is_burst(us, opcode, payload, false, s),
        command_ran(b, b2, us),
        a.gpo == b.gpo,
        answered_alike(since(a, a2), since(b, b2)),
        r != Ok::<u16, Error>(0),
    ensures
        r == s,
        ts == us,
        since(a, a2) == since(b, b2),
{
    lemma_values_of_command(a, a2, ts);
    lemma_values_of_command(b, b2, us);
    lemma_same_command(ts, us, opcode, payload, payload, r, s);
    let x = lemma_command_upon(a, a2, ts);
    let y = lemma_command_upon(b, b2, us);
}

/// A core that answers zero is sent by a gated command what it is sent by one
/// that is not gated and has no payload: on two mailboxes in the same state that
/// are answered alike, both return the same, make the same calls in the same
/// order, and leave the same word on GPO.
pub proof fn a_core_that_declines_is_sent_the_opcode_alone(
    opcode: u16,
    payload: Seq<u16>,
    a: Wire,
    a2: Wire,
    ts: Seq<Transfer>,
    r: Result<u16>,
    b: Wire,
    b2: Wire,
    us: Seq<Transfer>,
    s: Result<u16>,
)
    requires
        is_burst(ts, opcode, payload, true, r),
        command_ran(a, a2, ts),
        is_burst(us, opcode, Seq::empty(), false, s),
        command_ran(b, b2, us),
        a.gpo == b.gpo,
        answered_alike(since(a, a2), since(b, b2)),
        r == Ok::<u16, Error>(0),
    ensures
        r == s,
        ts == us,
        since(a, a2) == since(b, b2),
{
    lemma_values_of_command(a, a2, ts);
    lemma_values_of_command(b, b2, us);
    lemma_same_command(ts, us, opcode, payload, Seq::empty(), r, s);
    let x = lemma_command_upon(a, a2, ts);
    let y = lemma_command_upon(b, b2, us);
}

/// Only the reply decides which of the two holds: a gated command returns zero
/// exactly where the transfer of its opcode went through with a zero in reply.
pub proof fn only_a_zero_in_reply_declines(
    ts: Seq<Transfer>,
    opcode: u16,
    payload: Seq<u16>,
    r: Result<u16>,
)
    requires
        is_burst(ts, opcode, payload, true, r),
    ensures
        r == Ok::<u16, Error>(0) <==> ts[0].completed() && ts[0].reply() == 0,
{
    if ts.len() > 1 {
        assert(ts[0].completed());
    } else {
        assert(ts.last() == ts[0]);
    }
}

} // verus!
