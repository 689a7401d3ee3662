//! The sequences, across all devices at once.

use itsalive::hw::{I2cBus, ModeSink, TextSink};
use itsalive::mailbox::{
    Deadline, Mailbox, MonotonicDeadline, Regs, GPI_NOT_READY, SSPI_ACK, SSPI_IO_EN, SSPI_STROBE,
};
use itsalive::narration::narrate;
use itsalive::sequence::{
    fabric_ready, fb_disable, fb_enable, hdmi_off, hdmi_on, solve, up, Entry, Journal, Witness,
};
use itsalive::video::Modeline;
use itsalive::{adv7513, fb, mailbox, say, video, Error, Result};
use std::cell::RefCell;
use std::rc::Rc;

#[derive(Debug, Clone, PartialEq, Eq)]
enum Event {
    I2c(u8, u8),
    EnableIo,
    DisableIo,
    Word(u16),
    ModeLine(String),
    Text(Vec<u8>),
}

type Log = Rc<RefCell<Vec<Event>>>;

fn log_new() -> Log {
    Rc::new(RefCell::new(Vec::new()))
}

fn events(log: &Log) -> Vec<Event> {
    log.borrow().clone()
}

struct FakeRegs {
    log: Log,
    gpo: u32,
    reply: u16,
    ready: bool,
    acks: bool,
}

impl FakeRegs {
    fn new(log: &Log, reply: u16) -> Self {
        Self {
            log: Rc::clone(log),
            gpo: 0,
            reply,
            ready: true,
            acks: true,
        }
    }

    fn push(&self, event: Event) {
        self.log.borrow_mut().push(event);
    }
}

impl Regs for FakeRegs {
    fn gpo_write(&mut self, value: u32) {
        let was = self.gpo;
        self.gpo = value;
        let rose = |bit: u32| value & bit != 0 && was & bit == 0;
        let fell = |bit: u32| value & bit == 0 && was & bit != 0;
        if rose(SSPI_IO_EN) {
            self.push(Event::EnableIo);
        }
        if fell(SSPI_IO_EN) {
            self.push(Event::DisableIo);
        }
        if rose(SSPI_STROBE) {
            self.push(Event::Word((value & 0xFFFF) as u16));
        }
    }

    fn gpi_read(&mut self) -> u32 {
        let mut gpi = u32::from(self.reply);
        if self.acks && self.gpo & SSPI_STROBE != 0 {
            gpi |= SSPI_ACK;
        }
        if !self.ready {
            gpi |= GPI_NOT_READY;
        }
        gpi
    }
}

struct Expired;

impl Deadline for Expired {
    fn start(&mut self) {}
    fn expired(&mut self) -> bool {
        true
    }
}

struct FakeBus {
    log: Log,
    nak: Vec<u8>,
}

impl FakeBus {
    fn new(log: &Log) -> Self {
        Self {
            log: Rc::clone(log),
            nak: Vec::new(),
        }
    }

    fn naking(log: &Log, nak: &[u8]) -> Self {
        Self {
            log: Rc::clone(log),
            nak: nak.to_vec(),
        }
    }
}

impl I2cBus for FakeBus {
    fn write_reg(&mut self, reg: u8, value: u8) -> Result<()> {
        self.log.borrow_mut().push(Event::I2c(reg, value));
        if self.nak.contains(&reg) {
            return Err(Error::io(
                &format!("i2c write {reg:#04X}"),
                std::io::Error::from_raw_os_error(libc::ENXIO),
            ));
        }
        Ok(())
    }
}

struct FakeMode {
    log: Log,
    fail: bool,
}

impl FakeMode {
    fn new(log: &Log) -> Self {
        Self {
            log: Rc::clone(log),
            fail: false,
        }
    }
}

impl ModeSink for FakeMode {
    fn write_mode_line(&mut self, line: &str) -> Result<()> {
        if self.fail {
            return Err(Error::io(
                "open /sys/module/MiSTer_fb/parameters/mode",
                std::io::Error::from_raw_os_error(libc::ENOENT),
            ));
        }
        self.log
            .borrow_mut()
            .push(Event::ModeLine(line.to_string()));
        Ok(())
    }
}

struct FakeTty {
    log: Log,
}

impl TextSink for FakeTty {
    fn write_text(&mut self, bytes: &[u8]) -> Result<()> {
        self.log.borrow_mut().push(Event::Text(bytes.to_vec()));
        Ok(())
    }
}

fn i2c_only(events: &[Event]) -> Vec<(u8, u8)> {
    events
        .iter()
        .filter_map(|e| match e {
            Event::I2c(reg, value) => Some((*reg, *value)),
            _ => None,
        })
        .collect()
}

fn expected_up_720p() -> Vec<Event> {
    let mode = video::mode_720p();
    let pll = video::solve_pll(mode.f_pix_mhz).expect("720p has a PLL solution");
    let geom = fb::FbGeometry::for_mode(mode.hact, mode.vact, false);

    let mut expected = Vec::new();

    expected.extend(
        adv7513::INIT
            .iter()
            .chain(&adv7513::AUDIO)
            .chain(&adv7513::CSC)
            .map(|&(reg, value)| Event::I2c(reg, value)),
    );

    expected.push(Event::EnableIo);
    expected.push(Event::Word(mailbox::UIO_SET_VIDEO));
    expected.extend(
        video::set_video_words(&mode, &pll)
            .iter()
            .map(|&w| Event::Word(w)),
    );
    expected.push(Event::DisableIo);

    expected.extend(
        [(0x17u8, 0x62u8), (0x3B, 0x40), (0x3C, 0x04)]
            .map(|(reg, value)| Event::I2c(reg, value)),
    );

    expected.push(Event::EnableIo);
    expected.push(Event::Word(mailbox::UIO_SET_FBUF));
    expected.extend(fb::enable_words(&geom).iter().map(|&w| Event::Word(w)));
    expected.push(Event::DisableIo);
    expected.push(Event::ModeLine("8888 1 1280 720 5120\n".to_string()));

    expected
}

#[test]
fn up_writes_every_stage_in_the_order_the_spec_fixes() {
    let log = log_new();
    let mut mb = Mailbox::new(FakeRegs::new(&log, 1), MonotonicDeadline::default());
    let mut bus = FakeBus::new(&log);
    let mut sink = FakeMode::new(&log);

    up(&mut mb, &mut bus, &mut sink, &video::mode_720p(), "74.25", &mut Journal::new()).unwrap();

    assert_eq!(events(&log), expected_up_720p());
}

#[test]
fn the_stages_of_up_are_where_they_should_be() {
    let log = log_new();
    let mut mb = Mailbox::new(FakeRegs::new(&log, 1), MonotonicDeadline::default());
    let mut bus = FakeBus::new(&log);
    let mut sink = FakeMode::new(&log);
    up(&mut mb, &mut bus, &mut sink, &video::mode_720p(), "74.25", &mut Journal::new()).unwrap();
    let events = events(&log);

    let i2c = i2c_only(&events);
    assert_eq!(i2c.first().copied(), Some((0x98, 0x03)));
    assert_eq!(
        i2c.get(adv7513::INIT.len().saturating_sub(1)).copied(),
        Some((0xFA, 0x7D)),
        "the INIT table ends where the AUDIO table begins"
    );
    assert_eq!(
        i2c.get(adv7513::INIT.len()).copied(),
        adv7513::AUDIO.first().copied()
    );
    assert_eq!(
        i2c.get(i2c.len().saturating_sub(3)..),
        Some(&[(0x17, 0x62), (0x3B, 0x40), (0x3C, 0x04)][..])
    );

    let words: Vec<u16> = events
        .iter()
        .filter_map(|e| match e {
            Event::Word(w) => Some(*w),
            _ => None,
        })
        .collect();
    assert_eq!(words.first().copied(), Some(0x20), "UIO_SET_VIDEO");
    assert_eq!(words.get(1).copied(), Some(1280), "hact, word 1");
    assert_eq!(words.len(), 1 + 26 + 1 + 10);
    assert_eq!(words.get(27).copied(), Some(0x2F), "UIO_SET_FBUF");
    assert_eq!(words.get(28).copied(), Some(0x8016), "FB_EN | RxB | 8888");

    assert_eq!(
        events.last(),
        Some(&Event::ModeLine("8888 1 1280 720 5120\n".to_string()))
    );
}

#[test]
fn no_word_is_sent_outside_an_enabled_window() {
    let log = log_new();
    let mut mb = Mailbox::new(FakeRegs::new(&log, 1), MonotonicDeadline::default());
    let mut bus = FakeBus::new(&log);
    let mut sink = FakeMode::new(&log);
    up(&mut mb, &mut bus, &mut sink, &video::mode_720p(), "74.25", &mut Journal::new()).unwrap();

    let mut enabled = false;
    for event in events(&log) {
        match event {
            Event::EnableIo => {
                assert!(!enabled, "EnableIO twice with no DisableIO between");
                enabled = true;
            }
            Event::DisableIo => {
                assert!(enabled, "DisableIO with no EnableIO");
                enabled = false;
            }
            Event::Word(w) => assert!(enabled, "word {w:#06X} sent with the bus released"),
            _ => {}
        }
    }
    assert!(!enabled, "the bus was left enabled");
}

#[test]
fn up_480p_carries_the_480p_numbers() {
    let log = log_new();
    let mut mb = Mailbox::new(FakeRegs::new(&log, 1), MonotonicDeadline::default());
    let mut bus = FakeBus::new(&log);
    let mut sink = FakeMode::new(&log);
    up(&mut mb, &mut bus, &mut sink, &video::mode_480p(), "25.175", &mut Journal::new()).unwrap();
    let events = events(&log);

    let i2c = i2c_only(&events);
    assert_eq!(
        i2c.get(i2c.len().saturating_sub(3)..),
        Some(&[(0x17, 0x62), (0x3B, 0x40), (0x3C, 0x01)][..]),
        "VIC 1 for 640x480"
    );
    assert_eq!(
        events.last(),
        Some(&Event::ModeLine("8888 1 640 480 2560\n".to_string()))
    );
}

#[test]
fn hdmi_off_writes_only_the_power_register() {
    let log = log_new();
    let mut bus = FakeBus::new(&log);
    hdmi_off(&mut bus, &mut Journal::new()).unwrap();
    assert_eq!(events(&log), vec![Event::I2c(0x41, 0x50)]);
    assert_eq!(adv7513::POWER_DOWN, (0x41, 0x50));
}

#[test]
fn hdmi_does_not_touch_the_frame_buffer() {
    let log = log_new();
    let mut mb = Mailbox::new(FakeRegs::new(&log, 1), MonotonicDeadline::default());
    let mut bus = FakeBus::new(&log);
    hdmi_on(&mut mb, &mut bus, &video::mode_720p(), "74.25", &mut Journal::new()).unwrap();
    let events = events(&log);
    assert!(
        !events
            .iter()
            .any(|e| matches!(e, Event::Word(0x2F) | Event::ModeLine(_))),
        "hdmi sent UIO_SET_FBUF or wrote sysfs"
    );
    assert_eq!(
        i2c_only(&events).len(),
        adv7513::writes().len().saturating_add(3)
    );
}

#[test]
fn an_unsupported_frame_buffer_sends_no_payload_and_writes_no_sysfs_line() {
    let log = log_new();
    let mut mb = Mailbox::new(FakeRegs::new(&log, 0), MonotonicDeadline::default());
    let mut sink = FakeMode::new(&log);

    fb_enable(&mut mb, &mut sink, &video::mode_720p(), &mut Journal::new()).unwrap();

    assert_eq!(
        events(&log),
        vec![Event::EnableIo, Event::Word(0x2F), Event::DisableIo]
    );
}

#[test]
fn fb_disable_sends_one_zero_word() {
    let log = log_new();
    let mut mb = Mailbox::new(FakeRegs::new(&log, 1), MonotonicDeadline::default());
    fb_disable(&mut mb, &mut Journal::new()).unwrap();
    assert_eq!(
        events(&log),
        vec![
            Event::EnableIo,
            Event::Word(0x2F),
            Event::Word(0),
            Event::DisableIo
        ]
    );
}

#[test]
fn fb_enable_is_idempotent() {
    let log = log_new();
    let mut mb = Mailbox::new(FakeRegs::new(&log, 1), MonotonicDeadline::default());
    let mut sink = FakeMode::new(&log);
    fb_enable(&mut mb, &mut sink, &video::mode_720p(), &mut Journal::new()).unwrap();
    let once = events(&log);
    log.borrow_mut().clear();
    fb_enable(&mut mb, &mut sink, &video::mode_720p(), &mut Journal::new()).unwrap();
    assert_eq!(events(&log), once);
}

#[test]
fn up_is_idempotent() {
    let log = log_new();
    let mut mb = Mailbox::new(FakeRegs::new(&log, 1), MonotonicDeadline::default());
    let mut bus = FakeBus::new(&log);
    let mut sink = FakeMode::new(&log);
    up(&mut mb, &mut bus, &mut sink, &video::mode_720p(), "74.25", &mut Journal::new()).unwrap();
    log.borrow_mut().clear();
    up(&mut mb, &mut bus, &mut sink, &video::mode_720p(), "74.25", &mut Journal::new()).unwrap();
    assert_eq!(events(&log), expected_up_720p());
}

#[test]
fn a_refused_register_does_not_abort_the_run() {
    let log = log_new();
    let mut mb = Mailbox::new(FakeRegs::new(&log, 1), MonotonicDeadline::default());
    let mut bus = FakeBus::naking(&log, &[0x98, 0x3C]);
    let mut sink = FakeMode::new(&log);

    up(&mut mb, &mut bus, &mut sink, &video::mode_720p(), "74.25", &mut Journal::new()).unwrap();

    assert_eq!(events(&log), expected_up_720p());
}

#[test]
fn no_bitstream_is_exit_10_before_anything_is_written() {
    let log = log_new();
    let mut regs = FakeRegs::new(&log, 1);
    regs.ready = false;
    let mut mb = Mailbox::new(regs, MonotonicDeadline::default());
    let mut bus = FakeBus::new(&log);
    let mut sink = FakeMode::new(&log);

    let err = up(&mut mb, &mut bus, &mut sink, &video::mode_720p(), "74.25", &mut Journal::new()).unwrap_err();
    assert_eq!(err.exit_code(), 10);
    assert!(matches!(err, Error::NoBitstream));
    assert!(events(&log).is_empty(), "wrote something with no bitstream");
}

#[test]
fn a_fabric_that_never_acks_is_exit_11() {
    let log = log_new();
    let mut regs = FakeRegs::new(&log, 1);
    regs.acks = false;
    let mut mb = Mailbox::new(regs, Expired);
    let mut bus = FakeBus::new(&log);

    let err = hdmi_on(&mut mb, &mut bus, &video::mode_720p(), "74.25", &mut Journal::new()).unwrap_err();
    assert_eq!(err.exit_code(), 11);
    assert!(matches!(err, Error::Timeout));
    assert_eq!(
        events(&log).last(),
        Some(&Event::DisableIo),
        "the bus was left claimed after a timeout"
    );
}

#[test]
fn an_unwritable_sysfs_knob_is_exit_14() {
    let log = log_new();
    let mut mb = Mailbox::new(FakeRegs::new(&log, 1), MonotonicDeadline::default());
    let mut sink = FakeMode::new(&log);
    sink.fail = true;
    let err = fb_enable(&mut mb, &mut sink, &video::mode_720p(), &mut Journal::new()).unwrap_err();
    assert_eq!(err.exit_code(), 14);
}

#[test]
fn say_writes_the_line_to_the_text_sink() {
    let log = log_new();
    let mut tty = FakeTty {
        log: Rc::clone(&log),
    };
    say::say(
        &mut tty,
        true,
        &["Installing".to_string(), "MiSTer...".to_string()],
    )
    .unwrap();
    assert_eq!(
        events(&log),
        vec![Event::Text(b"\x1b[2J\x1b[HInstalling MiSTer...\n".to_vec())]
    );
}

#[test]
fn the_journal_tells_the_steps_in_order() {
    let log = log_new();
    let mut mb = Mailbox::new(FakeRegs::new(&log, 5), MonotonicDeadline::default());
    let mut bus = FakeBus::naking(&log, &[0x98, 0x3C]);
    let mut sink = FakeMode::new(&log);
    let mut journal = Journal::new();
    up(&mut mb, &mut bus, &mut sink, &video::mode_720p(), "74.25", &mut journal).unwrap();

    let entries = journal.entries();
    assert_eq!(entries.len(), 5);
    match &entries[0] {
        Entry::Registers { rows, refused } => {
            assert_eq!(rows.len(), 92);
            assert_eq!(*refused, 2);
        }
        other => panic!("expected the bulk table, got {other:?}"),
    }
    match &entries[1] {
        Entry::Command {
            opcode,
            payload,
            reply,
        } => {
            assert_eq!(*opcode, 0x20);
            assert_eq!(payload.len(), 26);
            assert_eq!(*reply, Some(5));
        }
        other => panic!("expected the mode, got {other:?}"),
    }
    match &entries[2] {
        Entry::Registers { rows, refused } => {
            assert_eq!(rows, &[(0x17, 0x62), (0x3B, 0x40), (0x3C, 0x04)]);
            assert_eq!(*refused, 1);
        }
        other => panic!("expected the mode registers, got {other:?}"),
    }
    match &entries[3] {
        Entry::Command { opcode, reply, .. } => {
            assert_eq!(*opcode, 0x2F);
            assert_eq!(*reply, Some(5));
        }
        other => panic!("expected the frame buffer, got {other:?}"),
    }
    match &entries[4] {
        Entry::Geometry { line, taken } => {
            assert_eq!(line, "8888 1 1280 720 5120\n");
            assert!(*taken);
        }
        other => panic!("expected the geometry, got {other:?}"),
    }
}

#[test]
fn a_failed_command_leaves_the_mode_registers_alone() {
    let log = log_new();
    let mut regs = FakeRegs::new(&log, 1);
    regs.acks = false;
    let mut mb = Mailbox::new(regs, Expired);
    let mut bus = FakeBus::new(&log);
    let mut sink = FakeMode::new(&log);
    let mut journal = Journal::new();
    let err = up(&mut mb, &mut bus, &mut sink, &video::mode_720p(), "74.25", &mut journal).unwrap_err();
    assert_eq!(err.exit_code(), 11);
    assert_eq!(i2c_only(&events(&log)), adv7513::writes());
    assert_eq!(journal.entries().len(), 2);
    assert!(matches!(
        journal.entries()[1],
        Entry::Command { reply: None, .. }
    ));
}

#[test]
fn a_mode_without_a_pll_setting_is_refused_before_anything_is_written() {
    let log = log_new();
    let mut mb = Mailbox::new(FakeRegs::new(&log, 1), MonotonicDeadline::default());
    let mut bus = FakeBus::new(&log);
    let mode = Modeline {
        f_pix_mhz: 0,
        ..video::mode_720p()
    };
    let err = hdmi_on(&mut mb, &mut bus, &mode, "0", &mut Journal::new()).unwrap_err();
    assert_eq!(err.exit_code(), 2);
    assert_eq!(
        err.message(),
        Error::Usage("no PLL solution for 0 MHz: not a clock this tool can program".to_string()).message()
    );
    assert!(events(&log).is_empty());
}

#[test]
fn a_preset_is_solved_whatever_its_clock_is_called() {
    let block = solve(&video::mode_720p(), "74.25").unwrap();
    assert_eq!((block.c, block.m, block.k), (6, 8, 0xE8F5_C28F));
}

#[test]
fn a_ready_fabric_has_bit_31_clear() {
    assert!(fabric_ready(0x7FFF_FFFF));
    assert!(!fabric_ready(0x8000_0000));
    assert!(!fabric_ready(0xFFFF_FFFF));
}

#[test]
fn fb_disable_without_a_frame_buffer_sends_the_opcode_alone() {
    let log = log_new();
    let mut mb = Mailbox::new(FakeRegs::new(&log, 0), MonotonicDeadline::default());
    fb_disable(&mut mb, &mut Journal::new()).unwrap();
    assert_eq!(
        events(&log),
        vec![Event::EnableIo, Event::Word(0x2F), Event::DisableIo]
    );
}

fn told(journal: &Journal, mode: &Modeline) -> Vec<Option<String>> {
    let mhz = f64::from_bits(mode.f_pix_mhz).to_string();
    journal
        .entries()
        .iter()
        .map(|entry| narrate(entry, mode, &mhz))
        .collect()
}

fn line(text: &str) -> Option<String> {
    Some(text.to_string())
}

#[test]
fn every_step_has_its_line() {
    let log = log_new();
    let mode = video::mode_720p();
    let mut mb = Mailbox::new(FakeRegs::new(&log, 1), MonotonicDeadline::default());
    let mut bus = FakeBus::naking(&log, &[0x98, 0x41, 0x3C]);
    let mut sink = FakeMode::new(&log);
    let mut journal = Journal::new();
    up(&mut mb, &mut bus, &mut sink, &mode, "74.25", &mut journal).unwrap();
    hdmi_off(&mut bus, &mut journal).unwrap();
    fb_disable(&mut mb, &mut journal).unwrap();
    assert_eq!(
        told(&journal, &mode),
        vec![
            line("adv7513: 92 registers written, 3 refused"),
            line("video: 1280x720 @ 74.25 MHz, vic 4, PLL C=6 M=8 K=0xE8F5C28F"),
            line("adv7513: 3 mode registers written, 1 refused"),
            None,
            line("frame buffer: 1280x720, stride 5120 bytes"),
            line("adv7513: power down (0x41 = 0x50), 1 refused"),
            line("display handed back to the core"),
        ]
    );
}

#[test]
fn what_did_not_happen_is_not_told() {
    let log = log_new();
    let mode = video::mode_480p();
    let mut mb = Mailbox::new(FakeRegs::new(&log, 0), MonotonicDeadline::default());
    let mut sink = FakeMode::new(&log);
    let mut journal = Journal::new();
    fb_enable(&mut mb, &mut sink, &mode, &mut journal).unwrap();
    fb_disable(&mut mb, &mut journal).unwrap();
    assert_eq!(
        told(&journal, &mode),
        vec![
            line("core doesn't support HPS frame buffer; /dev/fb0 not switched in"),
            line("core doesn't support HPS frame buffer; nothing to disable"),
        ]
    );

    let mut mb = Mailbox::new(FakeRegs::new(&log, 1), MonotonicDeadline::default());
    sink.fail = true;
    let mut journal = Journal::new();
    fb_enable(&mut mb, &mut sink, &mode, &mut journal).unwrap_err();
    assert_eq!(told(&journal, &mode), vec![None, None]);
}

struct Told {
    log: Log,
}

impl Witness for Told {
    fn refused(&mut self, reg: u8, value: u8, _why: &Error) {
        let what = format!("refused {reg} {value}");
        self.log.borrow_mut().push(Event::Text(what.into_bytes()));
    }

    fn saw(&mut self, entry: &Entry) {
        let what = match entry {
            Entry::Registers { rows, .. } => format!("{} registers", rows.len()),
            Entry::Command { opcode, .. } => format!("command {opcode}"),
            Entry::Geometry { line, .. } => line.clone(),
        };
        self.log.borrow_mut().push(Event::Text(what.into_bytes()));
    }
}

#[test]
fn a_witness_sees_each_step_as_it_is_made() {
    let log = log_new();
    let mut mb = Mailbox::new(FakeRegs::new(&log, 1), MonotonicDeadline::default());
    let mut bus = FakeBus::new(&log);
    let mut sink = FakeMode::new(&log);
    let mut journal = Journal::watched(Told {
        log: Rc::clone(&log),
    });
    up(&mut mb, &mut bus, &mut sink, &video::mode_720p(), "74.25", &mut journal).unwrap();
    assert_eq!(journal.entries().len(), 5);

    let told = |text: &str| Event::Text(text.as_bytes().to_vec());
    let seen = events(&log);
    assert_eq!(seen[92], told("92 registers"));
    assert_eq!(seen[93], Event::EnableIo);
    assert_eq!(seen[121], Event::DisableIo);
    assert_eq!(seen[122], told("command 32"));
    assert_eq!(seen[126], told("3 registers"));
    assert_eq!(seen[139], Event::DisableIo);
    assert_eq!(seen[140], told("command 47"));
    assert_eq!(seen[142], told("8888 1 1280 720 5120\n"));
    assert_eq!(seen.len(), 143);
}

#[test]
fn a_refusal_is_told_before_its_step() {
    let log = log_new();
    let mut bus = FakeBus::naking(&log, &[0x41]);
    let mut journal = Journal::watched(Told {
        log: Rc::clone(&log),
    });
    hdmi_off(&mut bus, &mut journal).unwrap();
    assert_eq!(
        events(&log),
        vec![
            Event::I2c(0x41, 0x50),
            Event::Text(b"refused 65 80".to_vec()),
            Event::Text(b"1 registers".to_vec()),
        ]
    );
}
