//! Modes, the PLL solver and the words of the video burst.

use itsalive::video::{
    get_pll_div, mode_480p, mode_720p, mode_by_name, set_video_words, solve_pll, timing_word,
    Modeline, PllBlock, KO_HIGH, KO_LOW, SET_VIDEO_WORDS,
};

/// A frequency in units of 2^-60 MHz as a floating-point number of MHz.
fn mhz(units: u128) -> f64 {
    units as f64 / (1u64 << 60) as f64
}

#[test]
fn float_literals_are_the_promoted_float_ones() {
    assert!(mhz(KO_LOW) > 0.05_f64, "0.05f promotes to more than 0.05");
    assert!(mhz(KO_HIGH) < 0.95_f64, "0.95f promotes to less than 0.95");
    assert_eq!(mhz(KO_LOW).to_bits(), 0x3FA9_9999_A000_0000);
    assert_eq!(mhz(KO_HIGH).to_bits(), 0x3FEE_6666_6000_0000);
    assert_eq!(mhz(KO_LOW), 0.05_f32 as f64);
    assert_eq!(mhz(KO_HIGH), 0.95_f32 as f64);
}

#[test]
fn the_preset_clocks_are_the_decimal_ones() {
    assert_eq!(mode_720p().f_pix_mhz, 74.25_f64.to_bits());
    assert_eq!(mode_480p().f_pix_mhz, 25.175_f64.to_bits());
}

#[test]
fn get_pll_div_matches_the_c() {
    assert_eq!(get_pll_div(8), 0x0404);
    assert_eq!(get_pll_div(6), 0x0303);
    assert_eq!(get_pll_div(16), 0x0808);
    assert_eq!(get_pll_div(4), 0x0202);
    assert_eq!(get_pll_div(3), 0x2_0201);
    assert_eq!(get_pll_div(7), 0x2_0403);
    assert_eq!(get_pll_div(9), 0x2_0504);
    assert_eq!(get_pll_div(15), 0x2_0807);
}

#[test]
fn solve_pll_720p() {
    let pll = solve_pll(mode_720p().f_pix_mhz).expect("720p has a real clock");
    assert_eq!(pll.c, 6);
    assert_eq!(pll.m, 8);
    assert_eq!(pll.k, 3_908_420_239);
    assert_eq!(f64::from_bits(pll.f_pix_mhz), 74.25);
    assert_eq!(
        pll.item,
        [
            4,
            0x0404,
            3,
            0x10000,
            5,
            0x0303,
            9,
            2,
            8,
            7,
            7,
            3_908_420_239
        ]
    );
}

#[test]
fn solve_pll_480p() {
    let pll = solve_pll(mode_480p().f_pix_mhz).expect("480p has a real clock");
    assert_eq!(pll.c, 16);
    assert_eq!(pll.m, 8);
    assert_eq!(pll.k, 240_518_168);
    assert_eq!(
        pll.item,
        [4, 0x0404, 3, 0x10000, 5, 0x0808, 9, 2, 8, 7, 7, 240_518_168]
    );
}

#[test]
fn solve_pll_refuses_what_the_c_would_spin_on() {
    assert_eq!(solve_pll(f64::to_bits(0.0)), None);
    assert_eq!(solve_pll(f64::to_bits(-74.25)), None);
    assert_eq!(solve_pll(f64::to_bits(f64::NAN)), None);
    assert_eq!(solve_pll(f64::to_bits(f64::INFINITY)), None);
    assert_eq!(solve_pll(f64::to_bits(f64::NEG_INFINITY)), None);
    assert_eq!(solve_pll(f64::to_bits(1e-9)), None);
}

#[test]
fn the_c_max_bound_refuses_nothing_a_real_clock_needs() {
    let pll = solve_pll(f64::to_bits(1.0)).expect("1 MHz is inside the bound");
    assert_eq!((pll.c, pll.m, pll.k), (400, 8, 1));
    assert_eq!(pll.item[5], 0xC8C8);
    assert_eq!(f64::from_bits(pll.f_pix_mhz), 1.0);
}

#[test]
fn c_item_indexes_in_c_coordinates() {
    let pll = solve_pll(mode_720p().f_pix_mhz).expect("720p has a real clock");
    assert_eq!(pll.c_item(9), 4);
    assert_eq!(pll.c_item(10), 0x0404);
    assert_eq!(pll.c_item(14), 0x0303);
    assert_eq!(pll.c_item(20), pll.k);
}

#[test]
fn set_video_burst_720p_word_by_word() {
    let pll = solve_pll(mode_720p().f_pix_mhz).expect("720p has a real clock");
    let w = set_video_words(&mode_720p(), &pll);

    let k_lo = 0xC28F;
    let k_hi = 0xE8F5;

        let expected: [u16; SET_VIDEO_WORDS] = [
        1280, 110, 40, 220, 720, 5, 5, 20,
        0x4004,
        0x0404, 0x0000,
        0x4003,
        0x0000, 0x0001,
        0x4005,
        0x0303, 0x0000,
        0x4009,
        0x0002, 0x0000,
        0x4008,
        0x0007, 0x0000,
        0x4007,
        k_lo, k_hi,
    ];
    assert_eq!(w, expected);

    assert_eq!(w.len(), 26);
    for (n, i) in (9..21usize).filter(|i| i & 1 != 0).enumerate() {
        let at = 8 + n * 3;
        assert_eq!(
            w[at] & 0x4000,
            0x4000,
            "word for item[{i}] (burst index {at}) must have 0x4000 set"
        );
    }
    assert_eq!(w[8] & 0x8000, 0, "0x8000 must never be set on item[9]");
    assert_eq!(w[2] & 0x8000, 0, "hpol bit must be clear for a preset");
    assert_eq!(w[6] & 0x8000, 0, "vpol bit must be clear for a preset");
    assert_eq!(w[0], 1280);
}

#[test]
fn set_video_burst_480p_word_by_word() {
    let pll = solve_pll(mode_480p().f_pix_mhz).expect("480p has a real clock");
    let w = set_video_words(&mode_480p(), &pll);

        let expected: [u16; SET_VIDEO_WORDS] = [
        640, 16, 96, 48, 480, 10, 2, 33,
        0x4004,
        0x0404, 0x0000,
        0x4003,
        0x0000, 0x0001,
        0x4005,
        0x0808, 0x0000,
        0x4009,
        0x0002, 0x0000,
        0x4008,
        0x0007, 0x0000,
        0x4007,
        0x0418, 0x0E56,
    ];
    assert_eq!(w, expected);
    assert_eq!(w[8] & 0x8000, 0);
}

#[test]
fn polarity_and_pr_bits_go_where_the_c_puts_them() {
    let mode = Modeline {
        pr: 1,
        hpol: 1,
        vpol: 1,
        ..mode_720p()
    };
    let pll = solve_pll(mode.f_pix_mhz).expect("720p has a real clock");
    let w = set_video_words(&mode, &pll);
    assert_eq!(w[0], 0x8000 | 1280);
    assert_eq!(w[2], 0x8000 | 40);
    assert_eq!(w[6], 0x8000 | 5);
    assert_eq!(w[1], 110);
    assert_eq!(w[4], 720);
}

#[test]
fn mode_lookup() {
    assert_eq!(mode_by_name("720p"), Some(mode_720p()));
    assert_eq!(mode_by_name("480p"), Some(mode_480p()));
    assert_eq!(mode_by_name("1080p"), None);
    assert_eq!(mode_by_name(""), None);
    assert_eq!(mode_by_name("720P"), None, "names are lowercase");
}

#[test]
fn preset_rows_match_vmodes() {
    assert_eq!(
        (
            mode_720p().hact,
            mode_720p().hfp,
            mode_720p().hs,
            mode_720p().hbp,
            mode_720p().vact,
            mode_720p().vfp,
            mode_720p().vs,
            mode_720p().vbp
        ),
        (1280, 110, 40, 220, 720, 5, 5, 20)
    );
    assert_eq!(mode_720p().vic, 4);
    assert_eq!(mode_720p().pr, 0);
    assert_eq!(
        (
            mode_480p().hact,
            mode_480p().hfp,
            mode_480p().hs,
            mode_480p().hbp,
            mode_480p().vact,
            mode_480p().vfp,
            mode_480p().vs,
            mode_480p().vbp
        ),
        (640, 16, 96, 48, 480, 10, 2, 33)
    );
    assert_eq!(mode_480p().vic, 1);
    assert_eq!(mode_480p().pr, 0);
    for mode in [mode_720p(), mode_480p()] {
        assert_eq!(mode.hpol, 0, "a preset carries no polarity");
        assert_eq!(mode.vpol, 0, "a preset carries no polarity");
    }
}

/// The search in floating point.
fn float_search(f: f64) -> Option<(u32, u32, u32, f64)> {
    let low = 0.05_f32 as f64;
    let high = 0.95_f32 as f64;
    if !f.is_finite() || f <= 0.0 {
        return None;
    }
    let mut c0: u32 = 1;
    while f * f64::from(c0) < 400.0 {
        c0 += 1;
        if c0 > 510 {
            return None;
        }
    }
    let mut c = c0;
    let mut found = None;
    loop {
        let x = f * f64::from(c) / 50.0;
        let m = x as u32;
        let ko = x - f64::from(m);
        if ko != 0.0 && (ko <= low || ko >= high) {
            if (ko + f64::from(m)) * 50.0 > 1500.0 {
                break;
            }
            c += 1;
        } else {
            found = Some((c, m, ko));
            break;
        }
    }
    let (c, m, ko) = match found {
        Some(found) => found,
        None => {
            let x = f * f64::from(c0) / 50.0;
            let m = x as u32;
            let ko = x - f64::from(m);
            if ko <= low {
                (c0, m, 0.0)
            } else {
                (c0, m.checked_add(1)?, 0.0)
            }
        }
    };
    let k = if ko != 0.0 { (ko * 4294967296.0) as u32 } else { 1 };
    Some((c, m, k, (ko + f64::from(m)) * 50.0 / f64::from(c)))
}

fn assert_as_in_floating_point(f: f64) {
    let got = solve_pll(f.to_bits()).map(|b| (b.c, b.m, b.k, b.f_pix_mhz));
    let want = float_search(f).map(|(c, m, k, pix)| (c, m, k, pix.to_bits()));
    assert_eq!(got, want, "{f} MHz");
}

#[test]
fn the_solver_rounds_as_floating_point_does() {
    // A fixed-seed generator, so every run meets the same clocks.
    let mut seed: u64 = 0x9E37_79B9_7F4A_7C15;
    for _ in 0..20_000 {
        seed ^= seed << 13;
        seed ^= seed >> 7;
        seed ^= seed << 17;
        // Mantissas of all kinds, exponents from a quarter to 2^39 MHz.
        let exponent = 1021 + (seed >> 58) % 41;
        let bits = (exponent << 52) | (seed & 0xF_FFFF_FFFF_FFFF);
        assert_as_in_floating_point(f64::from_bits(bits));
    }
    for i in 0..40_000u32 {
        assert_as_in_floating_point(0.7 + f64::from(i) * 0.01);
    }
    for f in [
        0.784, 0.7843137254901961, 0.5, 0.49999, 400.0, 399.99999999999994, 1500.0, 1502.5,
        214_748_364_750.0, 214_748_364_800.0, 214_748_364_797.0, 214_748_364_799.9, 1e300,
    ] {
        assert_as_in_floating_point(f);
    }
}

#[test]
fn the_multiplier_must_fit_its_word() {
    // Fifty times 2^32 MHz, and the largest whole multiplier below it.
    assert_eq!(solve_pll(214_748_364_800.0_f64.to_bits()), None);
    let top = solve_pll(214_748_364_750.0_f64.to_bits()).expect("the largest multiplier");
    assert_eq!((top.c, top.m, top.k), (1, u32::MAX, 1));
}

fn solved(mhz: f64) -> PllBlock {
    solve_pll(mhz.to_bits()).expect("a clock that can be programmed")
}

#[test]
fn pll_golden_golden_json_itself_is_sane() {
    let r = solved(74.25);
    assert_eq!(r.c, 6, "74.25 * 6 = 445.5 is the first Fvco >= 400");
    assert_eq!(r.m, 8, "trunc(445.5 / 50) = 8");
    assert_eq!(r.item[1], 0x0404);
    assert_eq!(r.item[5], 0x0303);
    assert_eq!(r.item[11], r.k);
    assert_eq!(f64::from_bits(r.f_pix_mhz), 74.25);
    assert_eq!(r.item[0], 4);
    assert_eq!(r.item[2], 3);
    assert_eq!(r.item[3], 0x10000);
    assert_eq!(r.item[4], 5);
    assert_eq!(r.item[6], 9);
    assert_eq!(r.item[7], 2);
    assert_eq!(r.item[8], 8);
    assert_eq!(r.item[9], 7);
    assert_eq!(r.item[10], 7);

    let r = solved(25.175);
    assert_eq!(r.c, 16, "25.175 * 16 = 402.8 is the first Fvco >= 400");
    assert_eq!(r.m, 8, "trunc(402.8 / 50) = 8");
    assert_eq!(r.item[1], 0x0404);
    assert_eq!(r.item[5], 0x0808);

    let r = solved(65.0);
    assert_eq!(r.c, 7);
    assert_eq!(r.m, 9);
    assert_eq!(r.item[1], 0x2_0504);
    assert_eq!(r.item[5], 0x2_0403);

    let r = solved(40.0);
    assert_eq!(r.c, 10, "40 * 10 = 400 is the first Fvco >= 400");
    assert_eq!(r.m, 8, "400 / 50 = 8 exactly");
    assert_eq!(r.k, 1);
    assert_eq!(r.item[11], 1);
    assert_eq!(r.item[5], 0x0505);
    assert_eq!(f64::from_bits(r.f_pix_mhz), 40.0);

    let r = solved(20.001);
    assert_eq!(r.c, 21, "one retry past the first candidate, C = 20");
    assert_eq!(r.m, 8, "20.001 * 21 = 420.021, trunc(/50) = 8");
    assert_eq!(r.item[5], 0x2_0B0A);

    let r = solved(49.92);
    assert_eq!(r.c, 9, "49.92 * 9 = 449.28 is the first Fvco >= 400");
    assert_eq!(r.m, 9, "the fallback carries into M");
    assert_eq!(r.k, 1);
    assert_eq!(r.item[1], 0x2_0504);
    assert_eq!(r.item[5], 0x2_0504);
    assert_eq!(f64::from_bits(r.f_pix_mhz), 50.0);
}

#[test]
fn fpix_is_not_silently_rounded() {
    assert_ne!(solved(25.175).f_pix_mhz, 25.175_f64.to_bits());
    assert_as_in_floating_point(25.175);
}

#[test]
fn packed_dividers_come_apart_again() {
    for div in 0..=510u32 {
        let packed = get_pll_div(div);
        assert_eq!((packed & 0xFF) + ((packed >> 8) & 0xFF), div);
        assert_eq!(packed & 0x20000 != 0, div % 2 == 1);
    }
    assert_ne!(
        (get_pll_div(511) & 0xFF) + ((get_pll_div(511) >> 8) & 0xFF),
        511
    );
}

#[test]
fn timing_words_carry_their_flags() {
    assert_eq!(timing_word(1, 1280, 1, 1, 0, 0), 0xC000 | 1280);
    assert_eq!(timing_word(3, 40, 1, 1, 7, 0), 0x8000 | 40);
    assert_eq!(timing_word(7, 5, 1, 1, 0, 2), 0x8000 | 5);
    assert_eq!(timing_word(2, 110, 1, 1, 1, 1), 110);
    assert_eq!(timing_word(5, 720, 1, 1, 1, 1), 720);
}

#[test]
fn a_found_setting_is_exact_to_the_last_bits() {
    for i in 0..5_000u32 {
        let f = 20.0 + f64::from(i) * 0.0371;
        let block = solved(f);
        if block.k != 1 {
            let got = f64::from_bits(block.f_pix_mhz);
            assert!((got - f).abs() <= f / (1u64 << 49) as f64, "{f} MHz");
        }
        assert_ne!(block.k, 0);
    }
}

#[test]
fn pll_entries_come_back_from_the_burst() {
    let block = solved(25.175);
    let words = set_video_words(&mode_480p(), &block);
    for j in 0..6 {
        assert_eq!(u32::from(words[8 + 3 * j]), block.item[2 * j] + 0x4000);
        assert_eq!(
            u32::from(words[9 + 3 * j]) | u32::from(words[10 + 3 * j]) << 16,
            block.item[2 * j + 1]
        );
    }
    assert_eq!(&words[..8], &[640, 16, 96, 48, 480, 10, 2, 33]);
}
