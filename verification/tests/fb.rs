//! The frame buffer: burst, geometry knob and images.

use itsalive::fb::{
    disable_words, enable_words, fb_addr, mode_param_line, parse_mode_line, plan_image, BlitPlan,
    FbGeometry, FbMode, BAD_GEOMETRY, FB_ADDR, FB_EN, FB_FMT_8888, FB_FMT_RXB, FB_FORMAT_WORD,
    FB_SIZE, NOT_ENABLED,
};
use itsalive::hw::{ModeSource, PixelSink};
use itsalive::{Error, Result};

fn p720() -> FbGeometry {
    FbGeometry::for_mode(1280, 720, false)
}

fn p480() -> FbGeometry {
    FbGeometry::for_mode(640, 480, false)
}

fn downscaled() -> FbGeometry {
    FbGeometry::for_mode(1920, 1440, false)
}

fn pixel_repeat() -> FbGeometry {
    FbGeometry::for_mode(1280, 1440, true)
}

fn shape(g: &FbGeometry) -> (u16, u16, u16, u16) {
    (g.width(), g.height(), g.hact(), g.vact())
}

#[test]
fn format_word_is_derived_not_pasted() {
    assert_eq!(FB_FMT_8888, 0x06);
    assert_eq!(FB_FMT_RXB, 0x10);
    assert_eq!(FB_EN, 0x8000);
    assert_eq!(FB_FORMAT_WORD, 0x8016);

    assert_eq!(FB_FORMAT_WORD & 0b111, 0b110);
    assert_eq!(FB_FORMAT_WORD & (1 << 3), 0);
    assert_eq!(FB_FORMAT_WORD & (1 << 4), 1 << 4);
    assert_eq!(FB_FORMAT_WORD & (1 << 5), 0);
    assert_eq!(FB_FORMAT_WORD & 0x8000, 0x8000);
}

#[test]
fn base_address_skips_one_page_for_buffer_zero_only() {
    assert_eq!(FB_ADDR, 0x2200_0000);
    assert_eq!(FB_SIZE, 2_073_600);
    assert_eq!(FB_SIZE * 4, 0x7E_9000);

    assert_eq!(fb_addr(0), 0x2200_1000);
    assert_eq!(fb_addr(1), 0x2200_0000 + 0x7E_9000);
    assert_eq!(fb_addr(2), 0x2200_0000 + 0xFD_2000);

    assert_eq!(fb_addr(0) & 0xFFFF, 0x1000);
    assert_eq!(fb_addr(0) >> 16, 0x2200);
}

#[test]
fn geometry_follows_video_fb_config() {
    assert_eq!(shape(&p720()), (1280, 720, 1280, 720));
    assert_eq!(shape(&p480()), (640, 480, 640, 480));

    assert!(1920 * 1080 == FB_SIZE);
    assert_eq!(shape(&FbGeometry::for_mode(1920, 1080, false)), (1920, 1080, 1920, 1080));

    assert!(1920 * 1440 > FB_SIZE);
    assert_eq!(shape(&downscaled()), (960, 720, 1920, 1440));

    assert!(1280 * 1440 <= FB_SIZE);
    assert_eq!(shape(&pixel_repeat()), (1280, 720, 1280, 1440));
}

#[test]
fn enable_burst_720p_word_by_word() {
    let w = enable_words(&p720());

    assert_eq!(w[0], 0x8016);
    assert_eq!(w[1], 0x1000);
    assert_eq!(w[2], 0x2200);
    assert_eq!(w[3], 1280);
    assert_eq!(w[4], 720);
    assert_eq!(w[5], 0);
    assert_eq!(w[6], 1279);
    assert_eq!(w[7], 0);
    assert_eq!(w[8], 719);
    assert_eq!(w[9], 5120);

    assert_eq!(
        w,
        [0x8016, 0x1000, 0x2200, 1280, 720, 0, 1279, 0, 719, 5120]
    );
}

#[test]
fn enable_burst_480p_word_by_word() {
    let w = enable_words(&p480());

    assert_eq!(w[0], 0x8016);
    assert_eq!(w[1], 0x1000);
    assert_eq!(w[2], 0x2200);
    assert_eq!(w[3], 640);
    assert_eq!(w[4], 480);
    assert_eq!(w[5], 0);
    assert_eq!(w[6], 639);
    assert_eq!(w[7], 0);
    assert_eq!(w[8], 479);
    assert_eq!(w[9], 2560);

    assert_eq!(w, [0x8016, 0x1000, 0x2200, 640, 480, 0, 639, 0, 479, 2560]);
}

#[test]
fn framebuffer_words_and_active_area_words_are_not_the_same_numbers() {

    let w = enable_words(&downscaled());
    assert_eq!(w[3], 960);
    assert_eq!(w[4], 720);
    assert_eq!(w[6], 1919);
    assert_eq!(w[8], 1439);
    assert_eq!(w[9], 3840);
    assert_eq!(
        w,
        [0x8016, 0x1000, 0x2200, 960, 720, 0, 1919, 0, 1439, 3840]
    );

    let w = enable_words(&pixel_repeat());
    assert_eq!(w[3], 1280);
    assert_eq!(w[4], 720);
    assert_eq!(w[6], 1279);
    assert_eq!(w[8], 1439);
    assert_eq!(w[9], 5120);
    assert_eq!(
        w,
        [0x8016, 0x1000, 0x2200, 1280, 720, 0, 1279, 0, 1439, 5120]
    );
}

#[test]
fn disable_is_a_single_zero_word() {
    assert_eq!(disable_words(), [0]);
    assert_eq!(disable_words()[0] & FB_EN, 0);
    assert_eq!(disable_words().len(), 1);
}

#[test]
fn mode_param_line_720p() {
    assert_eq!(mode_param_line(&p720()), "8888 1 1280 720 5120\n");
}

#[test]
fn mode_param_line_480p() {
    assert_eq!(mode_param_line(&p480()), "8888 1 640 480 2560\n");
}

#[test]
fn mode_param_line_takes_the_framebuffers_size_not_the_modes() {
    assert_eq!(mode_param_line(&downscaled()), "8888 1 960 720 3840\n");
    assert_eq!(mode_param_line(&pixel_repeat()), "8888 1 1280 720 5120\n");
}

#[test]
fn mode_param_line_agrees_with_the_burst() {
    for geom in [p720(), p480(), downscaled(), pixel_repeat()] {
        let w = enable_words(&geom);
        let line = mode_param_line(&geom);
        assert_eq!(line, format!("8888 1 {} {} {}\n", w[3], w[4], w[9]));
        assert!(line.ends_with('\n'));
        assert_eq!(geom.width(), w[3]);
        assert_eq!(geom.height(), w[4]);
    }
}

#[test]
fn words_wrap_as_sixteen_bits_do() {
    let w = enable_words(&FbGeometry::for_mode(0, 0, false));
    assert_eq!(w, [0x8016, 0x1000, 0x2200, 0, 0, 0, 0xFFFF, 0, 0xFFFF, 0]);
    let wide = FbGeometry::for_mode(20_000, 1, false);
    assert_eq!(enable_words(&wide)[9], (80_000u32 & 0xFFFF) as u16);
    assert_eq!(mode_param_line(&wide), "8888 1 20000 1 80000\n");
}

fn usage_of<T: std::fmt::Debug>(r: Result<T>) -> String {
    match r {
        Err(Error::Usage(msg)) => msg,
        other => panic!("expected a usage error, got {other:?}"),
    }
}

#[test]
fn the_knob_is_read_back() {
    for (hact, vact) in [(1280, 720), (640, 480), (1920, 1440), (1, 1), (65535, 3)] {
        let g = FbGeometry::for_mode(hact, vact, false);
        let mode = parse_mode_line(&mode_param_line(&g)).unwrap();
        assert_eq!(
            mode,
            FbMode {
                format: 8888,
                rb: 1,
                width: u32::from(g.width()),
                height: u32::from(g.height()),
                stride: u32::from(g.width()) * 4,
            }
        );
    }
    assert_eq!(
        parse_mode_line("\t8888  0 640\r\n480 2816").unwrap(),
        FbMode {
            format: 8888,
            rb: 0,
            width: 640,
            height: 480,
            stride: 2816
        }
    );
}

#[test]
fn a_knob_without_a_geometry_is_a_usage_error() {
    assert!(parse_mode_line("").is_err());
    assert_eq!(usage_of(parse_mode_line("")), NOT_ENABLED);
    assert_eq!(usage_of(parse_mode_line(" \n")), NOT_ENABLED);
    assert!(NOT_ENABLED.contains("itsalive fb enable"));
    for text in [
        "8888 1 640 480",
        "8888 1 640 480 2560 0",
        "8888 1 640 480 2559",
        "8888 1 -640 480 2560",
        "8888 1 640 480 4294967296",
        "8888 1 640x480 480 2560",
        "\u{FFFD}",
    ] {
        assert_eq!(usage_of(parse_mode_line(text)), BAD_GEOMETRY, "{text:?}");
        assert_eq!(parse_mode_line(text).unwrap_err().exit_code(), 2);
    }
}

const HD: FbMode = FbMode {
    format: 8888,
    rb: 1,
    width: 1280,
    height: 720,
    stride: 5120,
};

#[test]
fn an_image_defaults_to_the_whole_frame_buffer() {
    let plan = BlitPlan::new(HD, None).unwrap();
    assert_eq!((plan.x(), plan.y()), (0, 0));
    assert_eq!(
        plan.describe(),
        "1280x720 image at (0, 0) in a 1280x720 frame buffer, stride 5120 bytes"
    );
    assert!(plan.check_source_len(1280 * 720 * 4).is_ok());
    assert_eq!(
        usage_of(plan.check_source_len(1280 * 720 * 3)),
        "a 1280x720 image has 3686400 bytes, not 2764800"
    );
}

#[test]
fn a_smaller_image_is_centred_with_the_odd_pixel_right_and_down() {
    let plan = BlitPlan::new(HD, Some((321, 201))).unwrap();
    assert_eq!((plan.x(), plan.y()), (479, 259));
    assert!(1280 - 479 - 321 == 480 && 720 - 259 - 201 == 260);
}

#[test]
fn a_larger_image_is_refused() {
    assert_eq!(
        usage_of(BlitPlan::new(HD, Some((1281, 1)))),
        "the 1281x1 image does not fit the 1280x720 frame buffer"
    );
    assert!(BlitPlan::new(HD, Some((1, 721))).is_err());
    assert!(BlitPlan::new(HD, Some((u32::MAX, u32::MAX))).is_err());
}

struct Screen {
    bytes: Vec<u8>,
    writes: Vec<(u64, usize)>,
    fail_at: Option<usize>,
}

impl PixelSink for Screen {
    fn write_at(&mut self, offset: u64, bytes: &[u8]) -> Result<()> {
        if self.fail_at == Some(self.writes.len()) {
            self.writes.push((offset, bytes.len()));
            return Err(Error::io(
                "write /dev/fb0",
                std::io::Error::from_raw_os_error(libc::ENOSPC),
            ));
        }
        self.writes.push((offset, bytes.len()));
        let at = offset as usize;
        self.bytes[at..at + bytes.len()].copy_from_slice(bytes);
        Ok(())
    }
}

fn screen() -> Screen {
    Screen {
        bytes: vec![0xAA; 64 * 5],
        writes: Vec::new(),
        fail_at: None,
    }
}

const SMALL: FbMode = FbMode {
    format: 8888,
    rb: 1,
    width: 7,
    height: 5,
    stride: 64,
};

#[test]
fn rows_land_where_they_belong() {
    let plan = BlitPlan::new(SMALL, Some((2, 2))).unwrap();
    let source: Vec<u8> = (1..=16).collect();
    let mut s = screen();
    plan.blit(&mut s, &source, false).unwrap();
    assert_eq!(s.writes, vec![(64 + 8, 8), (128 + 8, 8)]);
    assert_eq!(&s.bytes[72..80], &source[..8]);
    assert_eq!(&s.bytes[136..144], &source[8..]);
    assert_eq!(s.bytes.iter().filter(|&&b| b == 0xAA).count(), 320 - 16);

    let mut s = screen();
    plan.blit(&mut s, &source, true).unwrap();
    assert_eq!(s.writes, vec![(0, 320), (72, 8), (136, 8)]);
    assert_eq!(s.bytes.iter().filter(|&&b| b == 0).count(), 320 - 16);
}

#[test]
fn a_wrong_length_writes_nothing_and_a_failed_row_stops() {
    let plan = BlitPlan::new(SMALL, Some((2, 2))).unwrap();
    let mut s = screen();
    assert_eq!(
        usage_of(plan.blit(&mut s, &[0; 15], true)),
        "a 2x2 image has 16 bytes, not 15"
    );
    assert!(s.writes.is_empty());

    let mut s = screen();
    s.fail_at = Some(1);
    let err = plan.blit(&mut s, &[7; 16], true).unwrap_err();
    assert_eq!(err.exit_code(), 14);
    assert_eq!(s.writes, vec![(0, 320), (72, 8)]);
}

struct Knob(Vec<Result<String>>);

impl ModeSource for Knob {
    fn read_mode_line(&mut self) -> Result<String> {
        self.0.remove(0)
    }
}

#[test]
fn an_image_is_planned_from_what_the_kernel_says() {
    let mut knob = Knob(vec![Ok("8888 1 640 480 2560\n".to_string())]);
    let plan = plan_image(&mut knob, Some((320, 200))).unwrap();
    assert_eq!((plan.x(), plan.y()), (160, 140));

    let mut knob = Knob(vec![Ok(String::new())]);
    assert_eq!(usage_of(plan_image(&mut knob, None)), NOT_ENABLED);

    let mut knob = Knob(vec![Err(Error::io(
        "read",
        std::io::Error::from_raw_os_error(libc::EACCES),
    ))]);
    assert_eq!(plan_image(&mut knob, None).unwrap_err().exit_code(), 14);
}

#[test]
fn a_frame_buffer_fits_its_buffer_up_to_four_times_the_pixels() {
    for (hact, vact) in [(1920, 1080), (1921, 1080), (3840, 2160), (2880, 2880), (65535, 126)] {
        for repeat in [false, true] {
            let g = FbGeometry::for_mode(hact, vact, repeat);
            assert!(u32::from(g.width()) * u32::from(g.height()) <= FB_SIZE);
        }
    }
    let g = FbGeometry::for_mode(65535, 65535, false);
    assert!(u32::from(g.width()) * u32::from(g.height()) > FB_SIZE);
}
