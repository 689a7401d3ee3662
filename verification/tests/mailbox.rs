//! The mailbox handshake, write by write.

use itsalive::mailbox::{
    Deadline, Mailbox, MonotonicDeadline, Regs, ACK_TIMEOUT_MILLIS, FPGA_MANAGER_BASE, GPI_NOT_READY,
    GPI_OFFSET, GPO_OFFSET, SSPI_ACK, SSPI_EN_BIT31, SSPI_FPGA_EN, SSPI_IO_EN, SSPI_OSD_EN,
    SSPI_STROBE, UIO_LEDS, UIO_SET_FBUF, UIO_SET_VIDEO,
};
use itsalive::Error;
use std::cell::{Cell, RefCell};
use std::rc::Rc;
use std::time::{Duration, Instant};

const EN: u32 = 0x8010_0000;

struct FakeRegs {
    writes: Vec<u32>,
    gpi: Vec<u32>,
    next: Cell<usize>,
    tail: u32,
}

impl FakeRegs {
    fn new(gpi: &[u32], tail: u32) -> Self {
        Self {
            writes: Vec::new(),
            gpi: gpi.to_vec(),
            next: Cell::new(0),
            tail,
        }
    }

    fn acking(words: usize, reply: u16) -> Self {
        let mut gpi = Vec::with_capacity(words * 2);
        for w in 0..words {
            gpi.push(SSPI_ACK);
            gpi.push(if w == 0 { u32::from(reply) } else { 0 });
        }
        Self::new(&gpi, 0)
    }

    fn reads(&self) -> usize {
        self.next.get()
    }
}

impl Regs for FakeRegs {
    fn gpo_write(&mut self, value: u32) {
        self.writes.push(value);
    }

    fn gpi_read(&mut self) -> u32 {
        let i = self.next.get();
        self.next.set(i + 1);
        self.gpi.get(i).copied().unwrap_or(self.tail)
    }
}

const FUSE: u32 = 10_000;

struct FakeDeadline {
    budget: u32,
    left: Cell<u32>,
    starts: Rc<Cell<u32>>,
    polls: Cell<u32>,
}

impl FakeDeadline {
    fn new(budget: u32) -> Self {
        Self {
            budget,
            left: Cell::new(budget),
            starts: Rc::new(Cell::new(0)),
            polls: Cell::new(0),
        }
    }

    fn patient() -> Self {
        Self::new(u32::MAX)
    }

    fn starts(&self) -> Rc<Cell<u32>> {
        Rc::clone(&self.starts)
    }
}

impl Deadline for FakeDeadline {
    fn start(&mut self) {
        self.starts.set(self.starts.get() + 1);
        self.left.set(self.budget);
    }

    fn expired(&mut self) -> bool {
        self.polls.set(self.polls.get() + 1);
        if self.polls.get() > FUSE {
            return true;
        }
        let left = self.left.get();
        if left == 0 {
            return true;
        }
        self.left.set(left - 1);
        false
    }
}

fn mailbox(regs: FakeRegs, deadline: FakeDeadline) -> Mailbox<FakeRegs, FakeDeadline> {
    Mailbox::new(regs, deadline)
}

fn assert_bus_released(writes: &[u32]) {
    let last = *writes.last().expect("at least one GPO write");
    assert_eq!(last & SSPI_IO_EN, 0, "enable still set in {last:#010X}");
    assert_eq!(last & SSPI_STROBE, 0, "strobe still set in {last:#010X}");
    assert_eq!(
        last & SSPI_EN_BIT31,
        SSPI_EN_BIT31,
        "bit 31 cleared in {last:#010X}"
    );
}

#[test]
fn enable_sets_bit31_and_disable_keeps_it() {
    let mut mb = mailbox(FakeRegs::new(&[], 0), FakeDeadline::patient());
    mb.enable_io();
    mb.disable_io();
    assert_eq!(mb.regs().writes, vec![EN, SSPI_EN_BIT31]);
    assert_eq!(mb.shadow(), SSPI_EN_BIT31);
}

#[test]
fn command_writes_the_whole_handshake_in_order() {
    let mut mb = mailbox(FakeRegs::acking(2, 0xABCD), FakeDeadline::patient());
    let reply = mb.command(UIO_SET_VIDEO, &[0x1234]).expect("command");

    assert_eq!(reply, 0xABCD);
    assert_eq!(
        mb.regs().writes,
        vec![
            0x8010_0000,
            0x8010_0020,
            0x8012_0020,
            0x8010_0020,
            0x8010_1234,
            0x8012_1234,
            0x8010_1234,
            0x8000_1234,
        ]
    );
    assert_eq!(mb.regs().reads(), 4);
}

#[test]
fn a_new_word_clears_all_sixteen_data_bits_not_just_the_low_ones() {
    let mut mb = mailbox(FakeRegs::acking(3, 0), FakeDeadline::patient());
    mb.command(UIO_SET_VIDEO, &[0x0500, 0x02D0])
        .expect("command");

    assert_eq!(
        mb.regs().writes,
        vec![
            0x8010_0000,
            0x8010_0020,
            0x8012_0020,
            0x8010_0020,
            0x8010_0500,
            0x8012_0500,
            0x8010_0500,
            0x8010_02D0,
            0x8012_02D0,
            0x8010_02D0,
            0x8000_02D0,
        ]
    );
}

#[test]
fn reply_is_the_low_16_bits_of_the_final_gpi_read() {
    let regs = FakeRegs::new(&[SSPI_ACK, 0x0004_ABCD, SSPI_ACK, 0x0000_5555], 0);
    let mut mb = mailbox(regs, FakeDeadline::patient());
    assert_eq!(
        mb.command(UIO_SET_VIDEO, &[0x1234]).expect("command"),
        0xABCD
    );
}

#[test]
fn poll_loops_wait_for_the_ack_to_rise_and_fall() {
    let regs = FakeRegs::new(&[0, 0, 0, SSPI_ACK, SSPI_ACK, SSPI_ACK, 0x0000_0042], 0);
    let mut mb = mailbox(regs, FakeDeadline::patient());
    assert_eq!(mb.spi_w(0x0007).expect("spi_w"), 0x0042);
    assert_eq!(mb.regs().reads(), 7);
    assert_eq!(
        mb.regs().writes,
        vec![0x0000_0007, 0x0002_0007, 0x0000_0007]
    );
}

#[test]
fn bit31_on_the_first_poll_is_no_bitstream_and_never_spins() {
    let mut mb = mailbox(FakeRegs::new(&[GPI_NOT_READY], 0), FakeDeadline::patient());
    let err = mb
        .command(UIO_SET_VIDEO, &[0x1234])
        .expect_err("no bitstream");

    assert!(matches!(err, Error::NoBitstream), "got {err:?}");
    assert_eq!(err.exit_code(), 10);
    assert_eq!(mb.regs().reads(), 1);
    assert_eq!(
        mb.regs().writes,
        vec![
            0x8010_0000,
            0x8010_0020,
            0x8012_0020,
            0x8010_0020,
            0x8000_0020
        ]
    );
    assert_bus_released(&mb.regs().writes);
}

#[test]
fn bit31_on_the_second_poll_is_no_bitstream_too() {
    let regs = FakeRegs::new(&[SSPI_ACK, GPI_NOT_READY | SSPI_ACK], 0);
    let mut mb = mailbox(regs, FakeDeadline::patient());
    let err = mb
        .command(UIO_SET_VIDEO, &[0x1234])
        .expect_err("no bitstream");

    assert!(matches!(err, Error::NoBitstream), "got {err:?}");
    assert_eq!(mb.regs().reads(), 2);
    assert_eq!(
        mb.regs().writes,
        vec![
            0x8010_0000,
            0x8010_0020,
            0x8012_0020,
            0x8010_0020,
            0x8000_0020
        ]
    );
    assert_bus_released(&mb.regs().writes);
}

#[test]
fn an_all_ones_gpi_aborts_although_the_ack_bit_is_set() {
    let mut mb = mailbox(FakeRegs::new(&[0xFFFF_FFFF], 0), FakeDeadline::patient());
    let err = mb
        .command(UIO_SET_VIDEO, &[0x1234])
        .expect_err("no bitstream");

    assert!(matches!(err, Error::NoBitstream), "got {err:?}");
    assert_eq!(err.exit_code(), 10);
    assert_eq!(mb.regs().reads(), 1);
    assert_bus_released(&mb.regs().writes);
}

#[test]
fn bit31_beats_an_already_clear_ack_in_the_fall_poll() {
    let regs = FakeRegs::new(&[SSPI_ACK, GPI_NOT_READY], 0);
    let mut mb = mailbox(regs, FakeDeadline::patient());
    let err = mb
        .command(UIO_SET_VIDEO, &[0x1234])
        .expect_err("no bitstream");

    assert!(matches!(err, Error::NoBitstream), "got {err:?}");
    assert_eq!(mb.regs().reads(), 2);
    assert_bus_released(&mb.regs().writes);
}

#[test]
fn a_fabric_that_never_acks_times_out_with_the_bus_released() {
    let deadline = FakeDeadline::new(3);
    let starts = deadline.starts();
    let mut mb = mailbox(FakeRegs::new(&[], 0), deadline);
    let err = mb.command(UIO_SET_VIDEO, &[0x1234]).expect_err("timeout");

    assert!(matches!(err, Error::Timeout), "got {err:?}");
    assert_eq!(err.exit_code(), 11);
    assert_eq!(mb.regs().reads(), 4);
    assert_eq!(starts.get(), 1, "one window per poll loop, not per read");
    assert_eq!(
        mb.regs().writes,
        vec![
            0x8010_0000,
            0x8010_0020,
            0x8012_0020,
            0x8010_0020,
            0x8000_0020
        ]
    );
    assert_bus_released(&mb.regs().writes);
}

#[test]
fn an_ack_that_never_clears_times_out_with_the_bus_released() {
    let deadline = FakeDeadline::new(2);
    let starts = deadline.starts();
    let mut mb = mailbox(FakeRegs::new(&[], SSPI_ACK), deadline);
    let err = mb.command(UIO_SET_VIDEO, &[]).expect_err("timeout");

    assert!(matches!(err, Error::Timeout), "got {err:?}");
    assert_eq!(mb.regs().reads(), 4);
    assert_eq!(starts.get(), 2, "one window per poll loop, not per read");
    assert_eq!(
        mb.regs().writes,
        vec![
            0x8010_0000,
            0x8010_0020,
            0x8012_0020,
            0x8010_0020,
            0x8000_0020
        ]
    );
    assert_bus_released(&mb.regs().writes);
}

#[test]
fn a_failed_payload_word_still_releases_the_bus() {
    let regs = FakeRegs::new(&[SSPI_ACK, 0x0000_ABCD], 0);
    let mut mb = mailbox(regs, FakeDeadline::new(0));
    let err = mb
        .command(UIO_SET_VIDEO, &[0x1111, 0x2222])
        .expect_err("timeout");

    assert!(matches!(err, Error::Timeout), "got {err:?}");
    assert_eq!(
        mb.regs().writes,
        vec![
            0x8010_0000,
            0x8010_0020,
            0x8012_0020,
            0x8010_0020,
            0x8010_1111,
            0x8012_1111,
            0x8010_1111,
            0x8000_1111,
        ]
    );
    assert_bus_released(&mb.regs().writes);
    assert_eq!(mb.regs().writes.len(), 8);
}

#[test]
fn the_shadow_carries_the_enable_and_last_word_into_the_next_command() {
    let mut mb = mailbox(FakeRegs::acking(4, 0), FakeDeadline::patient());
    mb.command(UIO_SET_FBUF, &[0x00FF]).expect("first command");
    let before = mb.regs().writes.len();
    mb.command(UIO_LEDS, &[]).expect("second command");

    assert_eq!(mb.regs().writes[before], 0x8010_00FF);
    assert_eq!(
        mb.regs().writes[before + 1..],
        [0x8010_0025, 0x8012_0025, 0x8010_0025, 0x8000_0025]
    );
}

#[test]
fn a_gated_command_sends_its_payload_when_the_core_answers() {
    let mut mb = mailbox(FakeRegs::acking(3, 0x0001), FakeDeadline::patient());
    let reply = mb
        .command_if_supported(UIO_SET_FBUF, &[0x8016, 0x1000])
        .expect("command");

    assert_eq!(reply, 0x0001);
    assert_eq!(
        mb.regs().writes,
        vec![
            0x8010_0000,
            0x8010_002F,
            0x8012_002F,
            0x8010_002F,
            0x8010_8016,
            0x8012_8016,
            0x8010_8016,
            0x8010_1000,
            0x8012_1000,
            0x8010_1000,
            0x8000_1000,
        ]
    );
}

#[test]
fn a_gated_command_sends_no_payload_when_the_core_answers_zero() {
    let mut mb = mailbox(FakeRegs::acking(1, 0), FakeDeadline::patient());
    let reply = mb
        .command_if_supported(UIO_SET_FBUF, &[0x8016, 0x1000])
        .expect("command");

    assert_eq!(reply, 0);
    assert_eq!(mb.regs().reads(), 2);
    assert_eq!(
        mb.regs().writes,
        vec![
            0x8010_0000,
            0x8010_002F,
            0x8012_002F,
            0x8010_002F,
            0x8000_002F
        ]
    );
    assert_bus_released(&mb.regs().writes);
}

#[test]
fn an_ungated_command_sends_its_payload_whatever_the_reply_is() {
    let mut mb = mailbox(FakeRegs::acking(2, 0), FakeDeadline::patient());
    let reply = mb.command(UIO_SET_VIDEO, &[0x1234]).expect("command");

    assert_eq!(reply, 0);
    assert!(mb.regs().writes.contains(&0x8012_1234), "payload not sent");
}

#[test]
fn opcodes_match_user_io_h() {
    assert_eq!(UIO_SET_VIDEO, 0x20);
    assert_eq!(UIO_LEDS, 0x25);
    assert_eq!(UIO_SET_FBUF, 0x2F);
}

#[test]
fn bit_positions_match_the_c() {
    assert_eq!(SSPI_STROBE, 0x0002_0000);
    assert_eq!(SSPI_ACK, SSPI_STROBE);
    assert_eq!(SSPI_FPGA_EN, 0x0004_0000);
    assert_eq!(SSPI_OSD_EN, 0x0008_0000);
    assert_eq!(SSPI_IO_EN, 0x0010_0000);
    assert_eq!(GPI_NOT_READY, 0x8000_0000);
    assert_eq!(FPGA_MANAGER_BASE + GPO_OFFSET, 0xFF70_6010);
    assert_eq!(FPGA_MANAGER_BASE + GPI_OFFSET, 0xFF70_6014);
}

#[test]
fn the_monotonic_deadline_expires_on_its_limit() {
    let mut zero = MonotonicDeadline::new(Duration::ZERO);
    zero.start();
    assert!(zero.expired());

    let mut hour = MonotonicDeadline::new(Duration::from_secs(3600));
    hour.start();
    assert!(!hour.expired());

    assert_eq!(
        MonotonicDeadline::default().limit(),
        Duration::from_millis(10)
    );
    assert_eq!(ACK_TIMEOUT_MILLIS, 10);
}

#[test]
fn a_window_is_measured_from_its_last_start() {
    let mut d = MonotonicDeadline::new(Duration::from_secs(10));
    let long_ago = Instant::now()
        .checked_sub(Duration::from_secs(20))
        .expect("an instant");
    d.open_at(long_ago);
    assert!(d.expired());
    assert!(d.expired(), "being asked moves nothing");
    d.start();
    assert!(!d.expired());
    d.open_at(long_ago);
    assert!(d.clone().expired());
}

#[test]
fn a_window_closes_at_its_limit_to_the_nanosecond() {
    let mut d = MonotonicDeadline::default();
    let opened = Instant::now();
    d.open_at(opened);
    assert!(!d.closed_at(opened));
    assert!(!d.closed_at(opened + Duration::from_nanos(9_999_999)));
    assert!(d.closed_at(opened + Duration::from_nanos(10_000_000)));
    assert!(d.closed_at(opened + Duration::from_secs(1)));

    d.open_at(opened + Duration::from_secs(1));
    assert!(!d.closed_at(opened), "an instant before the window has no age");
    assert!(!d.closed_at(opened + Duration::from_millis(1009)));
    assert!(d.closed_at(opened + Duration::from_millis(1010)));
}

#[derive(Debug, Clone, Copy, PartialEq, Eq)]
enum Seen {
    Write,
    Read,
    Opened,
    Asked,
}

struct LoggedRegs {
    log: Rc<RefCell<Vec<Seen>>>,
    gpi: Vec<u32>,
    next: usize,
}

impl Regs for LoggedRegs {
    fn gpo_write(&mut self, _value: u32) {
        self.log.borrow_mut().push(Seen::Write);
    }

    fn gpi_read(&mut self) -> u32 {
        self.log.borrow_mut().push(Seen::Read);
        self.next += 1;
        self.gpi.get(self.next - 1).copied().unwrap_or(0)
    }
}

struct LoggedDeadline {
    log: Rc<RefCell<Vec<Seen>>>,
    left: u32,
}

impl Deadline for LoggedDeadline {
    fn start(&mut self) {
        self.log.borrow_mut().push(Seen::Opened);
    }

    fn expired(&mut self) -> bool {
        self.log.borrow_mut().push(Seen::Asked);
        if self.left == 0 {
            return true;
        }
        self.left -= 1;
        false
    }
}

#[test]
fn a_window_opens_before_the_first_read_and_is_asked_for_after_a_read() {
    let log = Rc::new(RefCell::new(Vec::new()));
    let regs = LoggedRegs {
        log: Rc::clone(&log),
        gpi: vec![0, SSPI_ACK, SSPI_ACK],
        next: 0,
    };
    let deadline = LoggedDeadline {
        log: Rc::clone(&log),
        left: 2,
    };
    let mut mb = Mailbox::new(regs, deadline);
    assert_eq!(mb.spi_w(7).expect("a reply"), 0);
    assert_eq!(
        *log.borrow(),
        vec![
            Seen::Write,
            Seen::Write,
            Seen::Opened,
            Seen::Read,
            Seen::Asked,
            Seen::Read,
            Seen::Write,
            Seen::Opened,
            Seen::Read,
            Seen::Asked,
            Seen::Read,
        ]
    );
}

fn both_ways(gpi: &[u32], budget: u32, payload: &[u16], unasked: &[u16]) {
    let mut gated = mailbox(FakeRegs::new(gpi, 0), FakeDeadline::new(budget));
    let mut plain = mailbox(FakeRegs::new(gpi, 0), FakeDeadline::new(budget));
    let r = gated.command_if_supported(UIO_SET_FBUF, payload);
    let s = plain.command(UIO_SET_FBUF, unasked);
    match (r, s) {
        (Ok(a), Ok(b)) => assert_eq!(a, b),
        (Err(a), Err(b)) => assert_eq!(a.exit_code(), b.exit_code()),
        (a, b) => panic!("{a:?} is not {b:?}"),
    }
    assert_eq!(gated.regs().writes, plain.regs().writes);
    assert_eq!(gated.regs().reads(), plain.regs().reads());
    assert_eq!(gated.shadow(), plain.shadow());
}

#[test]
fn a_core_that_asks_is_sent_the_same() {
    let answered = [SSPI_ACK, 1, SSPI_ACK, 0, 0, SSPI_ACK, 0];
    both_ways(&answered, 5, &[7, 8], &[7, 8]);
    both_ways(&answered, 0, &[7, 8], &[7, 8]);
    both_ways(&[SSPI_ACK, 1, GPI_NOT_READY], 5, &[7, 8], &[7, 8]);
    both_ways(&[], 3, &[7, 8], &[7, 8]);
    both_ways(&[GPI_NOT_READY], 3, &[7, 8], &[7, 8]);
}

#[test]
fn a_core_that_declines_is_sent_the_opcode_alone() {
    both_ways(&[SSPI_ACK, 0, SSPI_ACK, 0], 5, &[7, 8], &[]);
    both_ways(&[0, SSPI_ACK, SSPI_ACK, 0], 5, &[7, 8], &[]);
}
