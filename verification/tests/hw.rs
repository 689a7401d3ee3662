//! Discovery, tables and the sorting of operating-system errors.

use itsalive::adv7513::{mode_regs, writes, CSC, POWER_DOWN};
use itsalive::error::io_line;
use itsalive::hw::{
    after_open, after_receive, bus_is_absent, bus_path, discover_bus, log_to, no_one_answered,
    refusal_line, refused_because, search, settle, step_failed, write_failed, write_table,
    write_table_before, I2cBus, ModeFile, ModeSink,
    ModeSource, OpenStep, PixelSink, TextSink, Transaction, FB_DEV_PATH, FB_MODE_PATH, I2C_BUSES,
    I2C_SLAVE, I2C_SMBUS, I2C_SMBUS_BLOCK_MAX, I2C_SMBUS_BYTE, I2C_SMBUS_BYTE_DATA, I2C_SMBUS_READ,
    I2C_SMBUS_WRITE,
};
use itsalive::journal::{Entry, Witness};
use itsalive::scan::Scan;
use itsalive::{Error, Result};

struct FakeBus {
    writes: Vec<(u8, u8)>,
    nak: Vec<u8>,
}

impl FakeBus {
    fn new(nak: &[u8]) -> Self {
        Self {
            writes: Vec::new(),
            nak: nak.to_vec(),
        }
    }
}

impl I2cBus for FakeBus {
    fn write_reg(&mut self, reg: u8, value: u8) -> Result<()> {
        self.writes.push((reg, value));
        if self.nak.contains(&reg) {
            return Err(Error::io(
                &format!("i2c write {reg:#04X}"),
                std::io::Error::from_raw_os_error(libc::ENXIO),
            ));
        }
        Ok(())
    }
}

#[test]
fn bus_paths_are_the_c_sprintf() {
    assert_eq!(bus_path(0), "/dev/i2c-0");
    assert_eq!(bus_path(1), "/dev/i2c-1");
    assert_eq!(bus_path(2), "/dev/i2c-2");
    assert_eq!(I2C_BUSES, [0, 1, 2]);
}

#[test]
fn discovery_probes_every_bus_in_order() {
    let mut seen = Vec::new();
    let _ = discover_bus(|bus| {
        seen.push(bus);
        Ok(None::<u8>)
    });
    assert_eq!(seen, vec![0, 1, 2]);
}

#[test]
fn a_search_goes_on_past_answers_and_errors() {
    let mut seen = Vec::new();
    let mut scan = Scan::new(|bus: u8| {
        seen.push(bus);
        match bus {
            0 => Err(Error::Timeout),
            _ => Ok(Some(bus)),
        }
    });
    let err = search(&mut scan).unwrap_err();
    assert!(matches!(&err, Error::AmbiguousBus(b) if *b == vec![1, 2]), "got {err:?}");
    drop(scan);
    assert_eq!(seen, vec![0, 1, 2]);
}

#[test]
fn one_answer_is_the_bus() {
    let got = discover_bus(|bus| Ok((bus == 1).then_some(bus)));
    assert_eq!(got.ok(), Some(1));
}

#[test]
fn no_answer_is_no_adv7513() {
    let err = discover_bus(|_| Ok(None::<u8>)).unwrap_err();
    assert!(matches!(err, Error::NoAdv7513));
    assert_eq!(err.exit_code(), 12);
}

#[test]
fn two_answers_are_ambiguous_and_name_the_buses() {
    let err = discover_bus(|bus| Ok((bus != 1).then_some(bus))).unwrap_err();
    match &err {
        Error::AmbiguousBus(buses) => assert_eq!(buses, &[0, 2]),
        other => panic!("expected AmbiguousBus, got {other:?}"),
    }
    assert_eq!(err.exit_code(), 13);
}

#[test]
fn three_answers_are_ambiguous_too() {
    let err = discover_bus(|bus| Ok(Some(bus))).unwrap_err();
    match err {
        Error::AmbiguousBus(buses) => assert_eq!(buses, vec![0, 1, 2]),
        other => panic!("expected AmbiguousBus, got {other:?}"),
    }
}

#[test]
fn a_bus_that_refuses_us_is_exit_14() {
    let err = discover_bus(|bus| {
        if bus == 0 {
            Err(Error::io(
                "open /dev/i2c-0",
                std::io::Error::from_raw_os_error(libc::EACCES),
            ))
        } else {
            Ok(None::<u8>)
        }
    })
    .unwrap_err();
    assert_eq!(err.exit_code(), 14);
    match err {
        Error::Io { source, .. } => assert_eq!(source.raw_os_error(), Some(libc::EACCES)),
        other => panic!("expected Io, got {other:?}"),
    }
}

#[test]
fn an_unusable_bus_does_not_hide_the_one_that_answers() {
    let got = discover_bus(|bus| match bus {
        0 => Err(Error::io(
            "open /dev/i2c-0",
            std::io::Error::from_raw_os_error(libc::EBUSY),
        )),
        2 => Ok(Some(2)),
        _ => Ok(None),
    });
    assert_eq!(got.ok(), Some(2));
}

#[test]
fn ambiguity_outranks_an_unusable_bus() {
    let err = discover_bus(|bus| match bus {
        0 => Err(Error::io(
            "open /dev/i2c-0",
            std::io::Error::from_raw_os_error(libc::EACCES),
        )),
        _ => Ok(Some(bus)),
    })
    .unwrap_err();
    assert_eq!(err.exit_code(), 13);
    match err {
        Error::AmbiguousBus(buses) => assert_eq!(buses, vec![1, 2]),
        other => panic!("expected AmbiguousBus, got {other:?}"),
    }
}

#[test]
fn the_first_unusable_bus_is_the_one_reported() {
    let err = discover_bus(|bus| {
        Err::<Option<u8>, _>(Error::io(
            &format!("open /dev/i2c-{bus}"),
            std::io::Error::from_raw_os_error(libc::EACCES),
        ))
    })
    .unwrap_err();
    match err {
        Error::Io { what, source } => {
            assert_eq!(what, "open /dev/i2c-0");
            assert_eq!(source.raw_os_error(), Some(libc::EACCES));
        }
        other => panic!("expected Io, got {other:?}"),
    }
}

#[test]
fn a_nak_does_not_stop_the_table() {
    let table = [(0x98, 0x03), (0x41, 0x10), (0xFA, 0x7D)];
    let mut bus = FakeBus::new(&[0x41]);
    let failed = write_table(&mut bus, &table);
    assert_eq!(failed, 1);
    assert_eq!(bus.writes, table);
}

#[test]
fn a_table_that_all_works_reports_no_failures() {
    let mut bus = FakeBus::new(&[]);
    assert_eq!(write_table(&mut bus, &writes()), 0);
    assert_eq!(bus.writes.len(), writes().len());
}

#[test]
fn write_table_preserves_order() {
    let mut bus = FakeBus::new(&[]);
    write_table(&mut bus, &writes());
    assert_eq!(bus.writes.first().copied(), Some((0x98, 0x03)));
    assert_eq!(
        bus.writes.last().copied(),
        CSC.last().copied()
    );
}

#[test]
fn the_mode_and_power_registers_go_through_the_tolerant_path() {
    let mut bus = FakeBus::new(&[0x3C, 0x41]);
    assert_eq!(
        write_table(&mut bus, &mode_regs(0, 0, 4, 0)),
        1
    );
    assert_eq!(write_table(&mut bus, &[POWER_DOWN]), 1);
    assert_eq!(
        bus.writes,
        vec![(0x17, 0x62), (0x3B, 0x40), (0x3C, 0x04), (0x41, 0x50)]
    );
}

#[test]
fn mode_file_defaults_to_the_kernel_knob() {
    assert_eq!(ModeFile::new().path(), FB_MODE_PATH);
    assert_eq!(
        ModeFile::default().path(),
        "/sys/module/MiSTer_fb/parameters/mode"
    );
}

#[test]
fn the_traits_are_object_safe() {
    let mut bus = FakeBus::new(&[]);
    let erased: &mut dyn I2cBus = &mut bus;
    erased.write_reg(0x41, 0x10).unwrap();
    let _: Option<&dyn ModeSink> = None;
    let _: Option<&dyn TextSink> = None;
    assert_eq!(bus.writes, vec![(0x41, 0x10)]);
}

#[test]
fn write_table_accepts_a_trait_object() {
    let mut bus = FakeBus::new(&[]);
    let erased: &mut dyn I2cBus = &mut bus;
    assert_eq!(write_table(erased, &[(0x17, 0x62), (0x3B, 0x40)]), 0);
    assert_eq!(bus.writes, vec![(0x17, 0x62), (0x3B, 0x40)]);
}

#[test]
fn clearing_zeroes_exactly_the_length_asked_for() {
    struct Recording {
        buf: Vec<u8>,
        writes: Vec<(u64, usize)>,
    }

    impl PixelSink for Recording {
        fn write_at(&mut self, offset: u64, bytes: &[u8]) -> Result<()> {
            self.writes.push((offset, bytes.len()));
            let at = usize::try_from(offset).unwrap();
            self.buf
                .splice(at..at.saturating_add(bytes.len()), bytes.iter().copied());
            Ok(())
        }
    }

    let mut sink = Recording {
        buf: vec![0xFFu8; 100],
        writes: Vec::new(),
    };
    sink.clear(64).unwrap();
    assert_eq!(sink.writes, vec![(0, 64)]);
    assert_eq!(sink.buf.get(..64), Some(&[0u8; 64][..]));
    assert_eq!(sink.buf.get(64), Some(&0xFF), "one byte past `len`");

    let mut sink = Recording {
        buf: vec![0xFFu8; 10_000],
        writes: Vec::new(),
    };
    sink.clear(9000).unwrap();
    assert_eq!(sink.writes, vec![(0, 4096), (4096, 4096), (8192, 808)]);
    assert_eq!(sink.buf.get(..9000), Some(&vec![0u8; 9000][..]));
    assert_eq!(sink.buf.get(9000), Some(&0xFF));

    let mut sink = Recording {
        buf: vec![0xFFu8; 8],
        writes: Vec::new(),
    };
    sink.clear(0).unwrap();
    assert!(sink.writes.is_empty());
}

#[test]
fn the_framebuffer_defaults_to_dev_fb0() {
    assert_eq!(FB_DEV_PATH, "/dev/fb0");
}

#[test]
fn the_new_traits_are_object_safe_too() {
    let _: Option<&dyn ModeSource> = None;
    let _: Option<&mut dyn PixelSink> = None;
}

#[test]
fn i2c_constants_match_the_uapi_headers() {
    assert_eq!(I2C_SLAVE, 0x0703);
    assert_eq!(I2C_SMBUS, 0x0720);
    assert_eq!(I2C_SMBUS_READ, 1);
    assert_eq!(I2C_SMBUS_WRITE, 0);
    assert_eq!(I2C_SMBUS_BYTE, 1);
    assert_eq!(I2C_SMBUS_BYTE_DATA, 2);
    assert_eq!(I2C_SMBUS_BLOCK_MAX, 32);
}

#[test]
fn transaction_fields_match_the_c_helpers() {
    let write = Transaction::write_byte_data(0x41, 0x5A);
    assert_eq!(write.read_write, 0);
    assert_eq!(write.command, 0x41);
    assert_eq!(write.size, 2);
    assert_eq!(write.byte, 0x5A);

    let read = Transaction::receive_byte();
    assert_eq!(read.read_write, 1);
    assert_eq!(read.command, 0);
    assert_eq!(read.size, 1);
}

#[test]
fn only_a_missing_node_means_the_bus_is_absent() {
    for errno in [libc::ENOENT, libc::ENODEV] {
        assert!(bus_is_absent(&std::io::Error::from_raw_os_error(errno)));
    }
    for errno in [libc::EACCES, libc::EPERM, libc::EBUSY, libc::ENOMEM] {
        assert!(!bus_is_absent(&std::io::Error::from_raw_os_error(errno)));
    }
    assert!(!bus_is_absent(&std::io::Error::new(
        std::io::ErrorKind::NotFound,
        "no number"
    )));
}

#[test]
fn only_a_nak_means_nobody_answered() {
    for errno in [libc::ENXIO, libc::EREMOTEIO, libc::ETIMEDOUT] {
        assert!(no_one_answered(&std::io::Error::from_raw_os_error(errno)));
    }
    for errno in [libc::EACCES, libc::EBADF, libc::ENOTTY, libc::EOPNOTSUPP] {
        assert!(!no_one_answered(&std::io::Error::from_raw_os_error(errno)));
    }
    assert!(!no_one_answered(&std::io::Error::new(
        std::io::ErrorKind::TimedOut,
        "no number"
    )));
}

struct Lines {
    bytes: Vec<u8>,
    full: bool,
    calls: usize,
}

impl TextSink for Lines {
    fn write_text(&mut self, bytes: &[u8]) -> Result<()> {
        self.calls += 1;
        if self.full {
            return Err(Error::io(
                "write",
                std::io::Error::from_raw_os_error(libc::ENOSPC),
            ));
        }
        self.bytes.extend_from_slice(bytes);
        Ok(())
    }
}

#[test]
fn logging_survives_a_sink_that_refuses_the_line() {
    let mut full = Lines {
        bytes: Vec::new(),
        full: true,
        calls: 0,
    };
    log_to(&mut full, &format!("i2c: write error (41 50): {}", 6));
    assert_eq!(full.calls, 1);
}

#[test]
fn logging_writes_one_line() {
    let mut sink = Lines {
        bytes: Vec::new(),
        full: false,
        calls: 0,
    };
    log_to(
        &mut sink,
        &format!("i2c: write error ({:02X} {:02X}): x", 0x41, 0x50),
    );
    assert_eq!(sink.bytes, b"i2c: write error (41 50): x\n");
    assert_eq!(sink.calls, 1);
}

#[test]
fn a_refused_write_is_named_with_its_register_and_value() {
    assert_eq!(
        refusal_line(0x41, 0x0A, &Error::Timeout),
        "i2c: write error (41 0A): mailbox timeout: the fabric never acked"
    );
}

#[test]
fn a_refusal_names_the_reason() {
    assert_eq!(
        refused_because(0x41, 0x0A, "no such device"),
        "i2c: write error (41 0A): no such device"
    );
    assert_eq!(io_line("open /dev/fb0", "gone"), "open /dev/fb0: gone");

    let nak = |code: i32| Error::io("i2c write", std::io::Error::from_raw_os_error(code));
    let line = refusal_line(0x41, 0x50, &nak(libc::ENXIO));
    let words = std::io::Error::from_raw_os_error(libc::ENXIO).to_string();
    assert_eq!(line, format!("i2c: write error (41 50): i2c write: {words}"));
    assert_ne!(line, refusal_line(0x41, 0x50, &nak(libc::EBADF)));
}

struct Heard(Vec<String>);

impl Witness for Heard {
    fn refused(&mut self, reg: u8, value: u8, why: &Error) {
        self.0.push(refusal_line(reg, value, why));
    }

    fn saw(&mut self, _entry: &Entry) {
        self.0.push("a step".to_string());
    }
}

#[test]
fn a_witness_hears_of_every_refused_write() {
    let mut bus = FakeBus::new(&[0x02, 0x03]);
    let mut heard = Heard(Vec::new());
    let table = [(0x01, 0x11), (0x02, 0x22), (0x03, 0x33), (0x04, 0x44)];
    assert_eq!(write_table_before(&mut bus, &table, &mut heard), 2);
    assert_eq!(heard.0.len(), 2);
    assert!(heard.0[0].starts_with("i2c: write error (02 22): "));
    assert!(heard.0[1].starts_with("i2c: write error (03 33): "));
}

#[test]
fn failed_steps_say_what_was_touched() {
    assert_eq!(step_failed(OpenStep::Open, 2, 0x39), "open /dev/i2c-2");
    assert_eq!(
        step_failed(OpenStep::SetSlave, 10, 0x39),
        "ioctl I2C_SLAVE 0x39 on /dev/i2c-10"
    );
    assert_eq!(
        write_failed(1, 0x39, 0x41, 0x5F),
        "i2c write 0x41=0x5F to 0x39 on /dev/i2c-1"
    );
}

fn os_error(errno: i32) -> std::io::Error {
    std::io::Error::from_raw_os_error(errno)
}

#[test]
fn opening_a_bus_is_sorted_by_step_and_error() {
    assert_eq!(after_open(0, 0x39, Ok(7u8)).ok(), Some(Some(7)));
    let absent: std::result::Result<u8, _> = Err((OpenStep::Open, os_error(libc::ENOENT)));
    assert_eq!(after_open(2, 0x39, absent).ok(), Some(None));
    let refused: std::result::Result<u8, _> = Err((OpenStep::Open, os_error(libc::EACCES)));
    match after_open(1, 0x39, refused) {
        Err(Error::Io { what, source }) => {
            assert_eq!(what, "open /dev/i2c-1");
            assert_eq!(source.raw_os_error(), Some(libc::EACCES));
        }
        other => panic!("expected Io, got {other:?}"),
    }
    let claimed: std::result::Result<u8, _> = Err((OpenStep::SetSlave, os_error(libc::ENODEV)));
    match after_open(0, 0x39, claimed) {
        Err(Error::Io { what, .. }) => assert_eq!(what, "ioctl I2C_SLAVE 0x39 on /dev/i2c-0"),
        other => panic!("expected Io, got {other:?}"),
    }
}

#[test]
fn the_presence_probe_is_sorted_by_its_error() {
    assert_eq!(after_receive(0, 0x39, "h", Ok(0xFF)).ok(), Some(Some("h")));
    let silent = after_receive(0, 0x39, "h", Err(os_error(libc::ENXIO)));
    assert_eq!(silent.ok(), Some(None));
    match after_receive(1, 0x39, "h", Err(os_error(libc::EBADF))) {
        Err(Error::Io { what, source }) => {
            assert_eq!(what, "i2c probe 0x39 on /dev/i2c-1");
            assert_eq!(source.raw_os_error(), Some(libc::EBADF));
        }
        other => panic!("expected Io, got {other:?}"),
    }
}

#[test]
fn settling_needs_no_probe() {
    assert_eq!(settle(vec![Ok(None), Ok(Some('b')), Ok(None)]).ok(), Some('b'));
    assert!(matches!(
        settle::<u8>(Vec::new()),
        Err(Error::NoAdv7513)
    ));
}

#[test]
fn a_failed_clear_stops_at_the_page_that_failed() {
    struct Short {
        offsets: Vec<u64>,
    }
    impl PixelSink for Short {
        fn write_at(&mut self, offset: u64, _bytes: &[u8]) -> Result<()> {
            self.offsets.push(offset);
            if offset >= 4096 {
                return Err(Error::io("write", os_error(libc::ENOSPC)));
            }
            Ok(())
        }
    }
    let mut sink = Short {
        offsets: Vec::new(),
    };
    let err = sink.clear(3 * 4096).unwrap_err();
    assert_eq!(err.exit_code(), 14);
    assert_eq!(sink.offsets, vec![0, 4096]);
}
