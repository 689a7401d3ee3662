//! Video modes, the PLL solver and the words of a `UIO_SET_VIDEO` burst.
//!
//! A pixel clock is a number of MHz in binary64. It is carried as the bits of
//! its encoding, and the solver works on it in whole units of 2^-60 MHz with
//! the roundings of [`rounding`](crate::rounding), so that every comparison of
//! the search falls as it does in floating point.

use vstd::prelude::*;

use crate::rounding::{
    exact, lemma_rounded_is_close, lemma_rounded_is_exact, lemma_rounded_is_same,
    lemma_rounded_keeps_powers, round, rounded, to_bits, to_units, units, ONE, PRECISION,
};
use crate::text::same;

verus! {

/// Number of payload words in a `UIO_SET_VIDEO` burst, opcode excluded: eight
/// timing words, six PLL entries of one word and six of two.
pub const SET_VIDEO_WORDS: usize = 26;

/// One video mode: timings, pixel clock, VIC and flags.
///
/// The two presets carry no sync polarity: it is zero on the wire, and the
/// transmitter's sync-invert bits fix what the monitor sees.
#[derive(Debug, Clone, Copy, PartialEq, Eq, Structural)]
pub struct Modeline {
    /// Horizontal active pixels.
    pub hact: u16,
    /// Horizontal front porch.
    pub hfp: u16,
    /// Horizontal sync width.
    pub hs: u16,
    /// Horizontal back porch.
    pub hbp: u16,
    /// Vertical active lines.
    pub vact: u16,
    /// Vertical front porch.
    pub vfp: u16,
    /// Vertical sync width.
    pub vs: u16,
    /// Vertical back porch.
    pub vbp: u16,
    /// Pixel clock in MHz, as the bits of a binary64 value.
    pub f_pix_mhz: u64,
    /// CEA VIC, for the transmitter.
    pub vic: u8,
    /// Pixel repetition flag.
    pub pr: u8,
    /// Hsync polarity.
    pub hpol: u8,
    /// Vsync polarity.
    pub vpol: u8,
}

/// 74.25 MHz.
pub const CLOCK_720P: u64 = 0x4052_9000_0000_0000;

/// 25.175 MHz.
pub const CLOCK_480P: u64 = 0x4039_2CCC_CCCC_CCCD;

/// 1280x720 at 60 Hz.
pub open spec fn hd_mode() -> Modeline {
    Modeline {
        hact: 1280,
        hfp: 110,
        hs: 40,
        hbp: 220,
        vact: 720,
        vfp: 5,
        vs: 5,
        vbp: 20,
        f_pix_mhz: CLOCK_720P,
        vic: 4,
        pr: 0,
        hpol: 0,
        vpol: 0,
    }
}

/// 640x480 at 60 Hz.
pub open spec fn sd_mode() -> Modeline {
    Modeline {
        hact: 640,
        hfp: 16,
        hs: 96,
        hbp: 48,
        vact: 480,
        vfp: 10,
        vs: 2,
        vbp: 33,
        f_pix_mhz: CLOCK_480P,
        vic: 1,
        pr: 0,
        hpol: 0,
        vpol: 0,
    }
}

/// 1280x720 at 60 Hz, the default.
pub fn mode_720p() -> (mode: Modeline)
    ensures
        mode == hd_mode(),
{
    Modeline {
        hact: 1280,
        hfp: 110,
        hs: 40,
        hbp: 220,
        vact: 720,
        vfp: 5,
        vs: 5,
        vbp: 20,
        f_pix_mhz: CLOCK_720P,
        vic: 4,
        pr: 0,
        hpol: 0,
        vpol: 0,
    }
}

/// 640x480 at 60 Hz, for sinks that dislike 720p.
pub fn mode_480p() -> (mode: Modeline)
    ensures
        mode == sd_mode(),
{
    Modeline {
        hact: 640,
        hfp: 16,
        hs: 96,
        hbp: 48,
        vact: 480,
        vfp: 10,
        vs: 2,
        vbp: 33,
        f_pix_mhz: CLOCK_480P,
        vic: 1,
        pr: 0,
        hpol: 0,
        vpol: 0,
    }
}

/// The mode that a `--mode` name stands for.
pub open spec fn mode_named(name: Seq<char>) -> Option<Modeline> {
    if name == "720p"@ {
        Some(hd_mode())
    } else if name == "480p"@ {
        Some(sd_mode())
    } else {
        None
    }
}

/// Look a mode up by its `--mode` name, e.g. `"720p"`.
pub fn mode_by_name(name: &str) -> (mode: Option<Modeline>)
    ensures
        mode == mode_named(name@),
{
    if same(name, "720p") {
        Some(mode_720p())
    } else if same(name, "480p") {
        Some(mode_480p())
    } else {
        None
    }
}

/// The lower end of the fractions that the PLL accepts, exclusive: the
/// single-precision value next to 0.05, which is a little more.
pub const KO_LOW: u128 = 0xCC_CCCD_0000_0000;

/// The upper end, exclusive: the single-precision value next to 0.95, which is
/// a little less.
pub const KO_HIGH: u128 = 0xF33_3330_0000_0000;

/// The VCO may not run below this many MHz.
pub const FVCO_MIN: u128 = 400;

/// The search gives up once the VCO runs above this many MHz.
pub const FVCO_MAX: u128 = 1500;

/// The PLL reference clock, in MHz.
pub const F_REF_MHZ: u128 = 50;

/// The largest C that the search may open with. A divider is packed into two
/// 8-bit half-counts, and 511 is the first whose upper half-count does not fit.
pub const C_MAX: u32 = 510;

/// The first multiplier that does not fit its 32 bits.
pub const M_END: u128 = 0x1_0000_0000;

/// The VCO frequency that the divider `c` needs for the pixel clock `f`.
pub open spec fn fvco(f: nat, c: nat) -> nat {
    rounded(f * c, 1)
}

/// That VCO frequency as a multiple of the reference clock.
pub open spec fn ratio(f: nat, c: nat) -> nat {
    rounded(fvco(f, c), F_REF_MHZ as nat)
}

/// The VCO frequency that a multiple of the reference clock gives.
pub open spec fn vco(x: nat) -> nat {
    rounded(x * F_REF_MHZ as nat, 1)
}

/// Can the PLL multiply by `x`? Its whole part must fit M, and its fraction
/// must vanish or stay clear of both ends.
pub open spec fn usable(x: nat) -> bool {
    let ko = x % (ONE as nat);
    &&& x < M_END * ONE
    &&& ko == 0 || KO_LOW < ko < KO_HIGH
}

/// Does the search open with the divider `c0`, the least that lifts the VCO to
/// 400 MHz?
pub open spec fn opens_at(f: nat, c0: nat) -> bool {
    &&& 1 <= c0 <= C_MAX
    &&& fvco(f, c0) >= FVCO_MIN * ONE
    &&& forall|c: nat| 1 <= c < c0 ==> #[trigger] fvco(f, c) < FVCO_MIN * ONE
}

/// Does the search go on from the divider `c` to the next one?
pub open spec fn passed_over(f: nat, c: nat) -> bool {
    !usable(ratio(f, c)) && vco(ratio(f, c)) <= FVCO_MAX * ONE
}

/// Does the search from `c0` end with `c` as its answer?
pub open spec fn found(f: nat, c0: nat, c: nat) -> bool {
    &&& c0 <= c
    &&& forall|b: nat| c0 <= b < c ==> #[trigger] passed_over(f, b)
    &&& usable(ratio(f, c))
}

/// Does the search from `c0` end at `c` without an answer, the VCO being too
/// fast already?
pub open spec fn gave_up(f: nat, c0: nat, c: nat) -> bool {
    &&& c0 <= c
    &&& forall|b: nat| c0 <= b < c ==> #[trigger] passed_over(f, b)
    &&& !usable(ratio(f, c))
    &&& vco(ratio(f, c)) > FVCO_MAX * ONE
}

/// A setting of the PLL: divider, multiplier, and the fraction of the
/// multiplier in units of 2^-60.
pub struct Tuning {
    /// The divider.
    pub c: nat,
    /// The whole part of the multiplier.
    pub m: nat,
    /// The fraction of the multiplier.
    pub ko: nat,
}

/// The setting that multiplies by `x` and divides by `c`.
pub open spec fn tuned(c: nat, x: nat) -> Tuning {
    Tuning { c, m: x / (ONE as nat), ko: x % (ONE as nat) }
}

/// The setting that multiplies by the whole number next to `x`.
pub open spec fn snapped(c: nat, x: nat) -> Tuning {
    Tuning {
        c,
        m: if x % (ONE as nat) <= KO_LOW {
            x / (ONE as nat)
        } else {
            x / (ONE as nat) + 1
        },
        ko: 0,
    }
}

/// Is `t` the setting for the pixel clock `f`: the one the search finds or,
/// where it gives up, the opening divider with a whole multiplier?
pub open spec fn tunes(f: nat, t: Tuning) -> bool {
    exists|c0: nat, c: nat| #[trigger] tunes_from(f, c0, c, t)
}

/// As [`tunes`], with the dividers that the search opens with and ends at.
pub open spec fn tunes_from(f: nat, c0: nat, c: nat, t: Tuning) -> bool {
    &&& opens_at(f, c0)
    &&& {
        ||| found(f, c0, c) && t == tuned(c, ratio(f, c))
        ||| gave_up(f, c0, c) && t == snapped(c0, ratio(f, c0)) && t.m < M_END
    }
}

/// Is there no setting for the pixel clock `f`: no divider lifts the VCO to 400
/// MHz, or the multiplier does not fit?
pub open spec fn untunable(f: nat) -> bool {
    ||| forall|c: nat| 1 <= c <= C_MAX ==> #[trigger] fvco(f, c) < FVCO_MIN * ONE
    ||| exists|c0: nat, c: nat| #[trigger]
        gave_up(f, c0, c) && opens_at(f, c0) && snapped(c0, ratio(f, c0)).m >= M_END
}

/// The fraction as the PLL takes it, in units of 2^-32. A fraction of zero
/// would switch the fractional path off, so a whole multiplier has 1 here.
pub open spec fn fraction_word(ko: nat) -> nat {
    if ko == 0 {
        1
    } else {
        ko / 0x1000_0000
    }
}

/// The pixel clock that a setting produces.
pub open spec fn produced(t: Tuning) -> nat {
    rounded(vco(t.m * ONE as nat + t.ko), t.c)
}

/// A divider in the counter form of the PLL: the half-counts in the low two
/// bytes, the upper one larger by one where the divider is odd, and bit 17 set
/// there.
pub open spec fn pll_div(div: u32) -> u32 {
    if div & 1 != 0 {
        0x20000 | ((((div / 2) + 1) as u32) << 8) | (div / 2)
    } else {
        ((div / 2) << 8) | (div / 2)
    }
}

/// The twelve PLL entries for a multiplier, a divider and a fraction word.
pub open spec fn pll_items(m: u32, c: u32, k: u32) -> Seq<u32> {
    seq![4, pll_div(m), 3, 0x10000, 5, pll_div(c), 9, 2, 8, 7, 7, k]
}

/// The twelve-entry PLL reconfiguration block.
///
/// Only [`PllBlock::item`] goes on the wire; the rest is there to be logged.
#[derive(Debug, Clone, Copy, PartialEq)]
pub struct PllBlock {
    /// The entries, in order.
    pub item: [u32; 12],
    /// The divider.
    pub c: u32,
    /// The multiplier.
    pub m: u32,
    /// The fraction word.
    pub k: u32,
    /// The pixel clock that the setting produces, in MHz, as the bits of a
    /// binary64 value.
    pub f_pix_mhz: u64,
}

impl PllBlock {
    /// Is this the block for a setting?
    pub open spec fn encodes(&self, t: Tuning) -> bool {
        &&& self.c == t.c
        &&& self.m == t.m
        &&& self.k == fraction_word(t.ko)
        &&& self.item@ == pll_items(self.m, self.c, self.k)
        &&& units(self.f_pix_mhz) == Some(produced(t))
    }

    /// The entry with the number `i` in the numbering that starts behind the
    /// eight timing words, from 9 to 20.
    pub fn c_item(&self, i: usize) -> (value: u32)
        requires
            9 <= i <= 20,
        ensures
            value == self.item@[i - 9],
    {
        self.item[i - 9]
    }
}

/// Pack a divider into the counter form of the PLL.
pub fn get_pll_div(div: u32) -> (packed: u32)
    ensures
        packed == pll_div(div),
{
    if div & 1 != 0 {
        return 0x20000 | (((div / 2) + 1) << 8) | (div / 2);
    }
    ((div / 2) << 8) | (div / 2)
}

/// The roundings of one candidate stay close to the exact values.
proof fn lemma_candidate(f: nat, c: nat)
    requires
        ONE <= 2 * f,
        f < ONE * 0x40_0000_0000,
        1 <= c <= 4000,
    ensures
        f <= f * c < ONE * 0x40_0000_0000 * 4001,
        fvco(f, c) * 0x10_0000_0000_0001 >= f * c * 0x10_0000_0000_0000,
        fvco(f, c) * 0x10_0000_0000_0000 <= f * c * 0x10_0000_0000_0001,
        ratio(f, c) * 50 * 0x10_0000_0000_0001 >= fvco(f, c) * 0x10_0000_0000_0000,
        ratio(f, c) * 50 * 0x10_0000_0000_0000 <= fvco(f, c) * 0x10_0000_0000_0001,
        vco(ratio(f, c)) * 0x10_0000_0000_0001 >= ratio(f, c) * 50 * 0x10_0000_0000_0000,
        vco(ratio(f, c)) * 0x10_0000_0000_0000 <= ratio(f, c) * 50 * 0x10_0000_0000_0001,
{
    assert(f <= f * c && f * c <= (ONE * 0x40_0000_0000) * 4000) by (nonlinear_arith)
        requires
            1 <= c <= 4000,
            f < ONE * 0x40_0000_0000,
    ;
    lemma_rounded_is_close(f * c, 1);
    lemma_rounded_is_close(fvco(f, c), 50);
    lemma_rounded_is_close(ratio(f, c) * 50, 1);
}

/// A search does not pass over a divider beyond 3020.
proof fn lemma_search_is_short(f: nat, c: nat)
    requires
        ONE <= 2 * f,
        f < ONE * 0x40_0000_0000,
        1 <= c <= 4000,
        passed_over(f, c),
    ensures
        c <= 3020,
{
    lemma_candidate(f, c);
    assert(f * c * 2 >= ONE * c) by (nonlinear_arith)
        requires
            ONE <= 2 * f,
    ;
}

/// The least divider that lifts the VCO to 400 MHz.
fn opening_c(f: u128) -> (r: Option<u32>)
    requires
        ONE <= 2 * f,
        f < ONE * 0x40_0000_0000,
    ensures
        match r {
            Some(c) => opens_at(f as nat, c as nat),
            None => forall|c: nat| 1 <= c <= C_MAX ==> #[trigger] fvco(f as nat, c) < FVCO_MIN * ONE,
        },
{
    let mut c: u32 = 1;
    proof {
        lemma_candidate(f as nat, c as nat);
    }
    while round(f * (c as u128), 1) < FVCO_MIN * ONE
        invariant
            ONE <= 2 * f,
            f < ONE * 0x40_0000_0000,
            1 <= c <= C_MAX,
            f * c < ONE * 0x40_0000_0000 * 4001,
            forall|b: nat| 1 <= b < c ==> #[trigger] fvco(f as nat, b) < FVCO_MIN * ONE,
        decreases C_MAX - c,
    {
        c = c + 1;
        if c > C_MAX {
            return None;
        }
        proof {
            lemma_candidate(f as nat, c as nat);
        }
    }
    Some(c)
}

/// Search upward from the divider `c0` for a multiplier that the PLL can take.
///
/// The upper limit is tested against the VCO frequency that the rounded
/// multiplier gives, not against the one that was asked for.
fn find_pll_par(f: u128, c0: u32) -> (r: Option<(u32, u32, u128)>)
    requires
        ONE <= 2 * f,
        f < ONE * 0x40_0000_0000,
        opens_at(f as nat, c0 as nat),
    ensures
        match r {
            Some((c, m, ko)) => {
                &&& found(f as nat, c0 as nat, c as nat)
                &&& c <= 3021
                &&& (Tuning { c: c as nat, m: m as nat, ko: ko as nat }) == tuned(
                    c as nat,
                    ratio(f as nat, c as nat),
                )
            },
            None => exists|c: nat| #[trigger] gave_up(f as nat, c0 as nat, c),
        },
{
    let mut c: u32 = c0;
    loop
        invariant
            ONE <= 2 * f,
            f < ONE * 0x40_0000_0000,
            opens_at(f as nat, c0 as nat),
            c0 <= c <= 3021,
            forall|b: nat| c0 <= b < c ==> #[trigger] passed_over(f as nat, b),
        decreases 3021 - c,
    {
        proof {
            lemma_candidate(f as nat, c as nat);
        }
        let x: u128 = round(round(f * (c as u128), 1), F_REF_MHZ);
        let ko: u128 = x % ONE;
        if x < M_END * ONE && (ko == 0 || (ko > KO_LOW && ko < KO_HIGH)) {
            let m: u32 = (x / ONE) as u32;
            return Some((c, m, ko));
        }
        if round(x * F_REF_MHZ, 1) > FVCO_MAX * ONE {
            assert(gave_up(f as nat, c0 as nat, c as nat));
            return None;
        }
        proof {
            assert(passed_over(f as nat, c as nat));
            lemma_search_is_short(f as nat, c as nat);
        }
        c = c + 1;
    }
}

/// The clock that a setting produces can be encoded again.
proof fn lemma_produced(f: nat, c0: nat, c: nat, t: Tuning)
    requires
        ONE <= 2 * f,
        f < ONE * 0x40_0000_0000,
        tunes_from(f, c0, c, t),
        t.c <= 3021,
    ensures
        t.m < M_END,
        t.ko < ONE,
        t.c >= 1,
        vco(t.m * ONE as nat + t.ko) < ONE * 0x40_0000_0000,
        exact(produced(t)),
        ONE <= 2 * produced(t),
        produced(t) < ONE * 0x40_0000_0000,
        found(f, c0, c) && t == tuned(c, ratio(f, c)) ==> {
            &&& produced(t) * 0x2_0000_0000_0000 >= f * 0x1_FFFF_FFFF_FFFF
            &&& produced(t) * 0x2_0000_0000_0000 <= f * 0x2_0000_0000_0001
        },
{
    let x = (t.m * ONE + t.ko) as nat;
    lemma_candidate(f, c0);
    lemma_candidate(f, t.c);
    assert(f * c0 <= f * 510) by (nonlinear_arith)
        requires
            c0 <= 510,
    ;
    vstd::arithmetic::power2::lemma2_to64();
    vstd::arithmetic::power2::lemma_pow2_unfold(64);
    if found(f, c0, c) && t == tuned(c, ratio(f, c)) {
        assert(x == ratio(f, c));
        assert(f * c * 2 >= ONE * c) by (nonlinear_arith)
            requires
                ONE <= 2 * f,
        ;
    } else {
        lemma_rounded_keeps_powers(fvco(f, c0), 50, 63);
    }
    lemma_rounded_is_close(x * F_REF_MHZ as nat, 1);
    lemma_rounded_is_close(vco(x), t.c);
    lemma_rounded_is_exact(vco(x), t.c);
    let v = produced(t);
    assert(v * t.c >= v) by (nonlinear_arith)
        requires
            t.c >= 1,
    ;
    if found(f, c0, c) && t == tuned(c, ratio(f, c)) {
        assert(v * 0x2_0000_0000_0000 >= f * 0x1_FFFF_FFFF_FFFF) by (nonlinear_arith)
            requires
                v * t.c * 0x2_0000_0000_0000 >= f * t.c * 0x1_FFFF_FFFF_FFFF,
                t.c >= 1,
        ;
        assert(v * 0x2_0000_0000_0000 <= f * 0x2_0000_0000_0001) by (nonlinear_arith)
            requires
                v * t.c * 0x2_0000_0000_0000 <= f * t.c * 0x2_0000_0000_0001,
                t.c >= 1,
        ;
    } else {
        assert(v * t.c <= v * 510) by (nonlinear_arith)
            requires
                t.c <= 510,
        ;
    }
}

/// Solve for the PLL block that produces a pixel clock from the 50 MHz
/// reference. The clock is in MHz, as the bits of a binary64 value.
///
/// Where the search gives up, the opening divider is used with a whole
/// multiplier, which costs exactness but always ends. There is no solution for
/// a clock that is zero, negative, infinite or not a number, nor for one so
/// small that no divider lifts the VCO to 400 MHz or so large that the
/// multiplier does not fit.
pub fn solve_pll(f_out_mhz: u64) -> (r: Option<PllBlock>)
    ensures
        match r {
            Some(block) => {
                &&& units(f_out_mhz) is Some
                &&& exists|t: Tuning| #[trigger]
                    tunes(units(f_out_mhz)->0, t) && block.encodes(t)
            },
            None => units(f_out_mhz) matches Some(f) ==> untunable(f),
        },
{
    let f: u128 = match to_units(f_out_mhz) {
        Some(f) => f,
        None => {
            return None;
        },
    };
    let c0: u32 = match opening_c(f) {
        Some(c0) => c0,
        None => {
            return None;
        },
    };
    let ghost mut end: nat = 0;
    let (c, m, ko): (u32, u32, u128) = match find_pll_par(f, c0) {
        Some(found) => {
            proof {
                end = found.0 as nat;
            }
            found
        },
        None => {
            proof {
                end = choose|c: nat| #[trigger] gave_up(f as nat, c0 as nat, c);
                lemma_candidate(f as nat, c0 as nat);
                if end > c0 {
                    assert(passed_over(f as nat, c0 as nat));
                }
            }
            let x: u128 = round(round(f * (c0 as u128), 1), F_REF_MHZ);
            let whole: u128 = if x % ONE <= KO_LOW {
                x / ONE
            } else {
                x / ONE + 1
            };
            if whole >= M_END {
                assert(gave_up(f as nat, c0 as nat, end));
                return None;
            }
            (c0, whole as u32, 0)
        },
    };
    let ghost t = Tuning { c: c as nat, m: m as nat, ko: ko as nat };
    proof {
        assert(tunes_from(f as nat, c0 as nat, end, t));
        lemma_produced(f as nat, c0 as nat, end, t);
    }
    let k: u32 = if ko != 0 {
        (ko / 0x1000_0000) as u32
    } else {
        1
    };
    let f_pix: u128 = round(round(((m as u128) * ONE + ko) * F_REF_MHZ, 1), c as u128);
    let item: [u32; 12] = [4, get_pll_div(m), 3, 0x10000, 5, get_pll_div(c), 9, 2, 8, 7, 7, k];
    let block = PllBlock { item, c, m, k, f_pix_mhz: to_bits(f_pix) };
    assert(block.item@ =~= pll_items(m, c, k));
    assert(tunes(f as nat, t) && block.encodes(t));
    Some(block)
}

/// Variable refresh rate, bit 14 of the first timing word: never on, since a
/// fixed preset is sent.
pub const VRR: u8 = 0;

/// A timing word as it goes on the wire: `value` with the flags that belong to
/// timing number `i`, from 1 to 8.
pub open spec fn flagged(i: int, value: u16, pr: u8, vrr: u8, hpol: u8, vpol: u8) -> u16 {
    if i == 1 {
        ((pr as u16) << 15) | ((vrr as u16) << 14) | value
    } else if i == 3 && hpol != 0 {
        0x8000 | value
    } else if i == 7 && vpol != 0 {
        0x8000 | value
    } else {
        value
    }
}

/// The eight timings of a mode, in the order of the wire.
pub open spec fn timings(mode: Modeline) -> Seq<u16> {
    seq![mode.hact, mode.hfp, mode.hs, mode.hbp, mode.vact, mode.vfp, mode.vs, mode.vbp]
}

/// The payload of a `UIO_SET_VIDEO` burst: the timings with their flags, and
/// then the PLL entries, by turns one as a single word with bit 14 set and one
/// as its low half and its high half.
pub open spec fn video_words(mode: Modeline, item: Seq<u32>) -> Seq<u16> {
    Seq::new(
        SET_VIDEO_WORDS as nat,
        |n: int|
            if n < 8 {
                flagged(n + 1, timings(mode)[n], mode.pr, VRR, mode.hpol, mode.vpol)
            } else if (n - 8) % 3 == 0 {
                (item[2 * ((n - 8) / 3)] as u16) | 0x4000
            } else if (n - 8) % 3 == 1 {
                item[2 * ((n - 8) / 3) + 1] as u16
            } else {
                (item[2 * ((n - 8) / 3) + 1] >> 16) as u16
            },
    )
}

/// Build one timing word; `i` is the number of the timing, from 1 to 8.
pub fn timing_word(i: usize, value: u16, pr: u8, vrr: u8, hpol: u8, vpol: u8) -> (word: u16)
    ensures
        word == flagged(i as int, value, pr, vrr, hpol, vpol),
{
    match i {
        1 => ((pr as u16) << 15) | ((vrr as u16) << 14) | value,
        3 => if hpol != 0 {
            0x8000 | value
        } else {
            value
        },
        7 => if vpol != 0 {
            0x8000 | value
        } else {
            value
        },
        _ => value,
    }
}

/// Compose the 26 payload words of a `UIO_SET_VIDEO` burst, opcode excluded.
pub fn set_video_words(mode: &Modeline, pll: &PllBlock) -> (out: [u16; SET_VIDEO_WORDS])
    ensures
        out@ == video_words(*mode, pll.item@),
{
    let mut out: [u16; SET_VIDEO_WORDS] = [0u16; 26];
    let times: [u16; 8] = [
        mode.hact,
        mode.hfp,
        mode.hs,
        mode.hbp,
        mode.vact,
        mode.vfp,
        mode.vs,
        mode.vbp,
    ];
    let mut n: usize = 0;
    while n < 8
        invariant
            n <= 8,
            times@ == timings(*mode),
            forall|j: int| 0 <= j < n ==> out@[j] == video_words(*mode, pll.item@)[j],
        decreases 8 - n,
    {
        out[n] = timing_word(n + 1, times[n], mode.pr, VRR, mode.hpol, mode.vpol);
        n = n + 1;
    }
    let mut i: usize = 9;
    while i < 21
        invariant
            9 <= i <= 21,
            i % 2 == 1,
            n == 8 + 3 * ((i - 9) / 2),
            forall|j: int| 0 <= j < n ==> out@[j] == video_words(*mode, pll.item@)[j],
        decreases 21 - i,
    {
        let single: u32 = pll.c_item(i);
        let double: u32 = pll.c_item(i + 1);
        out[n] = (single as u16) | 0x4000;
        out[n + 1] = double as u16;
        out[n + 2] = (double >> 16) as u16;
        n = n + 3;
        i = i + 2;
    }
    assert(out@ =~= video_words(*mode, pll.item@));
    out
}

/// A pixel clock has one setting or none, never two and never both: the
/// solver's answer is determined by the clock.
pub proof fn a_clock_has_one_setting(f: nat, t: Tuning, u: Tuning)
    requires
        tunes(f, t),
    ensures
        !untunable(f),
        tunes(f, u) ==> t == u,
{
    let (c0, c) = choose|c0: nat, c: nat| #[trigger] tunes_from(f, c0, c, t);
    assert(fvco(f, c0) >= FVCO_MIN * ONE);
    if untunable(f) {
        let (d0, d) = choose|d0: nat, d: nat| #[trigger]
            gave_up(f, d0, d) && opens_at(f, d0) && snapped(d0, ratio(f, d0)).m >= M_END;
        lemma_one_opening(f, c0, d0);
        lemma_one_end(f, c0, c, d);
    }
    if tunes(f, u) {
        let (d0, d) = choose|d0: nat, d: nat| #[trigger] tunes_from(f, d0, d, u);
        lemma_one_opening(f, c0, d0);
        lemma_one_end(f, c0, c, d);
    }
}

/// A search has one opening divider.
proof fn lemma_one_opening(f: nat, a: nat, b: nat)
    requires
        opens_at(f, a),
        opens_at(f, b),
    ensures
        a == b,
{
    if a < b {
        assert(fvco(f, a) < FVCO_MIN * ONE);
    } else if b < a {
        assert(fvco(f, b) < FVCO_MIN * ONE);
    }
}

/// A search ends at one divider.
proof fn lemma_one_end(f: nat, c0: nat, a: nat, b: nat)
    requires
        found(f, c0, a) || gave_up(f, c0, a),
        found(f, c0, b) || gave_up(f, c0, b),
    ensures
        a == b,
{
    if a < b {
        assert(passed_over(f, a));
    } else if b < a {
        assert(passed_over(f, b));
    }
}

/// A search ends within 3021 dividers.
proof fn lemma_search_ends(f: nat, c0: nat, c: nat)
    requires
        ONE <= 2 * f,
        f < ONE * 0x40_0000_0000,
        opens_at(f, c0),
        found(f, c0, c),
    ensures
        c <= 3021,
{
    if c > 3021 {
        assert(passed_over(f, 3021));
        lemma_search_is_short(f, 3021);
    }
}

/// Where the search finds a multiplier that the PLL can take, the clock that
/// the setting produces is the one asked for to within one part in 2^49.
pub proof fn a_found_setting_produces_the_clock(bits: u64, c0: nat, c: nat)
    requires
        units(bits) is Some,
        opens_at(units(bits)->0, c0),
        found(units(bits)->0, c0, c),
    ensures
        ({
            let f = units(bits)->0;
            let got = produced(tuned(c, ratio(f, c)));
            &&& (f - got) * 0x2_0000_0000_0000 <= f
            &&& (got - f) * 0x2_0000_0000_0000 <= f
        }),
{
    let f = units(bits)->0;
    crate::rounding::lemma_units_in_range(bits);
    lemma_search_ends(f, c0, c);
    let t = tuned(c, ratio(f, c));
    assert(tunes_from(f, c0, c, t));
    lemma_produced(f, c0, c, t);
}

/// The fraction word of a setting is never zero, which would switch the
/// fractional path off, and fits its 32 bits.
pub proof fn the_fraction_word_is_never_zero(f: nat, t: Tuning)
    requires
        tunes(f, t),
    ensures
        1 <= fraction_word(t.ko) <= u32::MAX,
{
}

/// A divider of at most 510 comes back from its packed form: the two half-counts
/// add up to it, and bit 17 tells whether it is odd.
pub proof fn half_counts_add_up(div: u32)
    requires
        div <= C_MAX,
    ensures
        (pll_div(div) & 0xFF) + ((pll_div(div) >> 8) & 0xFF) == div,
        (pll_div(div) & 0x20000 != 0) == (div % 2 == 1),
        pll_div(div) <= 0x2_FFFF,
{
    assert(div <= 510 ==> {
        let odd = 0x20000 | ((((div / 2) + 1) as u32) << 8) | (div / 2);
        let even = ((div / 2) << 8) | (div / 2);
        &&& (div & 1 != 0) == (div % 2 == 1)
        &&& div & 1 != 0 ==> (odd & 0xFF) + ((odd >> 8) & 0xFF) == div && odd & 0x20000 != 0 && odd
            <= 0x2_FFFF
        &&& div & 1 == 0 ==> (even & 0xFF) + ((even >> 8) & 0xFF) == div && even & 0x20000 == 0
            && even <= 0x2_FFFF
    }) by (bit_vector);
}

/// The PLL entries come back from the words of a burst: those sent as two
/// halves in full, and those sent as a single word where they have 14 bits.
pub proof fn a_burst_carries_its_pll_block(mode: Modeline, item: Seq<u32>, j: int)
    requires
        item.len() == 12,
        0 <= j < 6,
    ensures
        ({
            let words = video_words(mode, item);
            let low = words[9 + 3 * j];
            let high = words[10 + 3 * j];
            &&& item[2 * j + 1] == low as u32 | ((high as u32) << 16)
            &&& item[2 * j] < 0x4000 ==> words[8 + 3 * j] == item[2 * j] + 0x4000
        }),
{
    let wide = item[2 * j + 1];
    let narrow = item[2 * j];
    assert(wide == (wide as u16) as u32 | (((wide >> 16) as u16) as u32) << 16) by (bit_vector);
    assert(narrow < 0x4000 ==> (narrow as u16) | 0x4000 == narrow + 0x4000) by (bit_vector);
}

/// Both presets have a PLL setting, which the search finds at its opening
/// divider: 6 for 720p and 16 for 480p, each with the multiplier 8.
pub proof fn the_presets_can_be_tuned()
    ensures
        units(CLOCK_720P) is Some,
        units(CLOCK_480P) is Some,
        forall|t: Tuning| #[trigger] tunes(units(CLOCK_720P)->0, t) ==> t.c == 6 && t.m == 8,
        forall|t: Tuning| #[trigger] tunes(units(CLOCK_480P)->0, t) ==> t.c == 16 && t.m == 8,
        !untunable(units(CLOCK_720P)->0),
        !untunable(units(CLOCK_480P)->0),
{
    vstd::arithmetic::power2::lemma2_to64();
    let f = units(CLOCK_720P)->0;
    let g = units(CLOCK_480P)->0;
    assert(CLOCK_720P as nat / 0x10_0000_0000_0000 == 1029);
    assert(CLOCK_480P as nat / 0x10_0000_0000_0000 == 1027);
    assert(f == 0x12_9000_0000_0000 * 0x4000);
    assert(g == 0x19_2CCC_CCCC_CCCD * 0x1000);
    assert forall|c: nat| 1 <= c < 6 implies #[trigger] fvco(f, c) < FVCO_MIN * ONE by {
        lemma_candidate(f, c);
        assert(f * c <= f * 5) by (nonlinear_arith)
            requires
                c <= 5,
        ;
    }
    assert forall|c: nat| 1 <= c < 16 implies #[trigger] fvco(g, c) < FVCO_MIN * ONE by {
        lemma_candidate(g, c);
        assert(g * c <= g * 15) by (nonlinear_arith)
            requires
                c <= 15,
        ;
    }
    lemma_candidate(f, 6);
    lemma_candidate(g, 16);
    let t = tuned(6, ratio(f, 6));
    let u = tuned(16, ratio(g, 16));
    assert(found(f, 6, 6));
    assert(found(g, 16, 16));
    assert(tunes_from(f, 6, 6, t));
    assert(tunes_from(g, 16, 16, u));
    assert forall|v: Tuning| #[trigger] tunes(f, v) implies v.c == 6 && v.m == 8 by {
        a_clock_has_one_setting(f, t, v);
    }
    assert forall|v: Tuning| #[trigger] tunes(g, v) implies v.c == 16 && v.m == 8 by {
        a_clock_has_one_setting(g, u, v);
    }
    a_clock_has_one_setting(f, t, t);
    a_clock_has_one_setting(g, u, u);
}

/// There is no PLL setting for a clock below half a megahertz, nor for one of
/// 2^38 MHz or more: the first lifts the VCO to 400 MHz with no divider, and the
/// second needs a multiplier that does not fit.
pub proof fn a_clock_out_of_range_cannot_be_tuned(f: nat)
    requires
        2 * f < ONE || f >= ONE * 0x40_0000_0000,
    ensures
        untunable(f),
{
    if 2 * f < ONE {
        assert forall|c: nat| 1 <= c <= C_MAX implies #[trigger] fvco(f, c) < FVCO_MIN * ONE by {
            assert(2 * (f * c) <= ONE * 510) by (nonlinear_arith)
                requires
                    2 * f < ONE,
                    c <= 510,
            ;
            if f * c < PRECISION {
                lemma_rounded_is_same(f * c);
            } else {
                lemma_rounded_is_close(f * c, 1);
            }
        }
    } else {
        assert(f * 1 == f);
        lemma_rounded_is_close(f, 1);
        lemma_rounded_is_close(fvco(f, 1), 50);
        lemma_rounded_is_close(ratio(f, 1) * 50, 1);
        assert(opens_at(f, 1));
        assert(ratio(f, 1) >= M_END * ONE);
        assert(gave_up(f, 1, 1));
        assert(snapped(1, ratio(f, 1)).m >= M_END);
    }
}

/// A mode without pixel repetition and without sync polarity, as the presets
/// are, goes out with its bare timings.
pub proof fn a_mode_without_flags_goes_out_bare(mode: Modeline, item: Seq<u32>)
    requires
        mode.pr == 0,
        mode.hpol == 0,
        mode.vpol == 0,
    ensures
        video_words(mode, item).take(8) == timings(mode),
{
    let hact = mode.hact;
    assert(((0u8 as u16) << 15) | ((0u8 as u16) << 14) | hact == hact) by (bit_vector);
    assert(video_words(mode, item).take(8) =~= timings(mode));
}

/// The first PLL word is the same for every setting, with bit 15 clear: the
/// vertical sync is never adjusted.
pub proof fn the_vertical_sync_is_never_adjusted(mode: Modeline, block: PllBlock, t: Tuning)
    requires
        block.encodes(t),
    ensures
        video_words(mode, block.item@)[8] == 0x4004,
{
    assert(block.item@[0] == 4);
    assert((4u32 as u16) | 0x4000 == 0x4004) by (bit_vector);
}

/// The divider that a counter entry sets: the sum of its two half-counts.
pub open spec fn divides_by(entry: u32) -> int {
    (entry & 0xFF) + ((entry >> 8) & 0xFF)
}

/// The block on the wire sets what was solved for. Decoded, the counter entries
/// divide by the setting's multiplier and divider, with half-counts that differ by
/// one where the divider is odd, which bit 17 tells; and the last entry is the
/// fraction cut down to units of 2^-32, or 1 where there is none. Everything else
/// is the same for every setting.
pub proof fn the_block_sets_what_was_solved_for(block: PllBlock, t: Tuning)
    requires
        block.encodes(t),
        t.c <= 510,
        t.m <= 510,
    ensures
        block.item@.len() == 12,
        divides_by(block.item@[1]) == t.m,
        divides_by(block.item@[5]) == t.c,
        (block.item@[1] >> 8) & 0xFF == (t.m + 1) / 2,
        (block.item@[5] >> 8) & 0xFF == (t.c + 1) / 2,
        (block.item@[1] & 0x20000 != 0) == (t.m % 2 == 1),
        (block.item@[5] & 0x20000 != 0) == (t.c % 2 == 1),
        block.item@[1] <= 0x2_FFFF,
        block.item@[5] <= 0x2_FFFF,
        t.ko == 0 ==> block.item@[11] == 1,
        t.ko > 0 ==> block.item@[11] * 0x1000_0000 <= t.ko < (block.item@[11] + 1) * 0x1000_0000,
        block.item@[0] == 4 && block.item@[2] == 3 && block.item@[3] == 0x10000,
        block.item@[4] == 5 && block.item@[6] == 9 && block.item@[7] == 2,
        block.item@[8] == 8 && block.item@[9] == 7 && block.item@[10] == 7,
{
    half_counts_add_up(block.m);
    half_counts_add_up(block.c);
    lemma_upper_half_count(block.m);
    lemma_upper_half_count(block.c);
}

/// The upper half-count is the larger one.
proof fn lemma_upper_half_count(div: u32)
    requires
        div <= C_MAX,
    ensures
        (pll_div(div) >> 8) & 0xFF == (div + 1) as int / 2,
{
    assert(div <= 510 ==> {
        let odd = 0x20000 | ((((div / 2) + 1) as u32) << 8) | (div / 2);
        let even = ((div / 2) << 8) | (div / 2);
        &&& div & 1 != 0 ==> (odd >> 8) & 0xFF == (div / 2) + 1 && div % 2 == 1
        &&& div & 1 == 0 ==> (even >> 8) & 0xFF == div / 2 && div % 2 == 0
    }) by (bit_vector);
}

/// What the entries of a block multiply the reference clock by, before the
/// division, in units of 2^-32.
pub open spec fn multiplies_by(item: Seq<u32>) -> int {
    divides_by(item[1]) * 0x1_0000_0000 + item[11]
}

/// The clock that the fabric makes of the entries alone is the one asked for:
/// the reference clock of 50 MHz, multiplied by M + K/2^32 and divided by C, all
/// three of them decoded from the entries. At the VCO it is off by one step of the
/// fraction at most, and by the last bits of the arithmetic, where the search
/// finds a multiplier with a fraction that the PLL can take. Where the multiplier
/// has to be whole, it is off by 3 MHz there at most.
pub proof fn the_entries_produce_the_clock(bits: u64, block: PllBlock, t: Tuning)
    requires
        units(bits) is Some,
        tunes(units(bits)->0, t),
        block.encodes(t),
        t.c <= 510,
        t.m <= 510,
    ensures
        ({
            // In units of 2^-60 MHz, at the VCO.
            let asked = units(bits)->0 * divides_by(block.item@[5]);
            let got = multiplies_by(block.item@) * 50 * 0x1000_0000;
            &&& block.item@[11] != 1 ==> {
                &&& (got - asked) * 0x4_0000_0000_0000 <= asked + 50 * 0x1000_0000 * 0x4_0000_0000_0000
                &&& (asked - got) * 0x4_0000_0000_0000 <= asked + 50 * 0x1000_0000 * 0x4_0000_0000_0000
            }
            &&& -3 * ONE <= got - asked <= 3 * ONE
            &&& got >= 397 * ONE
        }),
{
    let f = units(bits)->0;
    crate::rounding::lemma_units_in_range(bits);
    the_block_sets_what_was_solved_for(block, t);
    let (c0, c) = choose|c0: nat, c: nat| #[trigger] tunes_from(f, c0, c, t);
    let item = block.item@;
    let got = multiplies_by(item) * 50 * 0x1000_0000;
    lemma_candidate(f, t.c);
    let x = ratio(f, t.c);
    let asked = f * t.c;
    assert(f * divides_by(item[5]) == asked) by (nonlinear_arith)
        requires
            divides_by(item[5]) == t.c,
            asked == f * t.c,
    ;
    assert(asked >= 1);
    if found(f, c0, c) && t == tuned(c, ratio(f, c)) {
        assert(x == t.m * ONE + t.ko);
        lemma_vco_is_high_enough(f, c0, c);
    } else {
        assert(t == snapped(c0, ratio(f, c0)));
        assert(t.c == c0);
        assert(x / (ONE as nat) <= t.m);
        if c > c0 {
            assert(passed_over(f, c0));
        }
        assert(!usable(ratio(f, c0)));
        lemma_vco_is_high_enough(f, c0, c0);
    }
}

/// From the opening divider on, the VCO runs at 400 MHz.
proof fn lemma_vco_is_high_enough(f: nat, c0: nat, c: nat)
    requires
        ONE <= 2 * f,
        f < ONE * 0x40_0000_0000,
        opens_at(f, c0),
        c0 <= c <= 4000,
    ensures
        f * c * 0x10_0000_0000_0001 >= 400 * ONE * 0x10_0000_0000_0000,
{
    lemma_candidate(f, c0);
    assert(f * c0 <= f * c) by (nonlinear_arith)
        requires
            c0 <= c,
    ;
}

/// The timings of a mode come back from the first eight words of its burst, each
/// in its place, where they have 14 bits; the flag bits tell of the pixel
/// repetition and of the two sync polarities; and there are 26 words in all.
pub proof fn a_burst_carries_its_timings(mode: Modeline, item: Seq<u32>)
    requires
        mode.hact < 0x4000,
        mode.hs < 0x8000,
        mode.vs < 0x8000,
    ensures
        ({
            let words = video_words(mode, item);
            &&& words.len() == 26
            &&& words[0] & 0x3FFF == mode.hact
            &&& (words[0] & 0x8000 != 0) == (mode.pr % 2 == 1)
            &&& words[0] & 0x4000 == 0
            &&& words[1] == mode.hfp
            &&& words[2] & 0x7FFF == mode.hs
            &&& (words[2] & 0x8000 != 0) == (mode.hpol != 0)
            &&& words[3] == mode.hbp
            &&& words[4] == mode.vact
            &&& words[5] == mode.vfp
            &&& words[6] & 0x7FFF == mode.vs
            &&& (words[6] & 0x8000 != 0) == (mode.vpol != 0)
            &&& words[7] == mode.vbp
        }),
{
    let hact = mode.hact;
    let pr = mode.pr;
    let hs = mode.hs;
    let vs = mode.vs;
    assert(hact < 0x4000 ==> {
        let w = ((pr as u16) << 15) | ((0u8 as u16) << 14) | hact;
        &&& w & 0x3FFF == hact
        &&& (w & 0x8000 != 0) == (pr % 2 == 1)
        &&& w & 0x4000 == 0
    }) by (bit_vector);
    assert(hs < 0x8000 ==> (0x8000u16 | hs) & 0x7FFF == hs && (0x8000u16 | hs) & 0x8000 != 0 && hs
        & 0x7FFF == hs && hs & 0x8000 == 0) by (bit_vector);
    assert(vs < 0x8000 ==> (0x8000u16 | vs) & 0x7FFF == vs && (0x8000u16 | vs) & 0x8000 != 0 && vs
        & 0x7FFF == vs && vs & 0x8000 == 0) by (bit_vector);
}

/// What a block reports besides its entries is what the entries say: the divider,
/// the multiplier and the fraction, and the clock that they produce, to within one
/// step of the fraction at the VCO and the last bits of the arithmetic.
pub proof fn a_block_reports_what_its_entries_say(bits: u64, block: PllBlock, t: Tuning)
    requires
        units(bits) is Some,
        tunes(units(bits)->0, t),
        block.encodes(t),
        t.c <= 510,
        t.m <= 510,
    ensures
        block.c == divides_by(block.item@[5]),
        block.m == divides_by(block.item@[1]),
        block.k == block.item@[11],
        units(block.f_pix_mhz) is Some,
        ({
            // In units of 2^-60 MHz, at the VCO.
            let said = units(block.f_pix_mhz)->0 * block.c;
            let got = multiplies_by(block.item@) * 50 * 0x1000_0000;
            &&& (got - said) * 0x4_0000_0000_0000 <= said + 50 * 0x1000_0000 * 0x4_0000_0000_0000
            &&& (said - got) * 0x4_0000_0000_0000 <= said + 50 * 0x1000_0000 * 0x4_0000_0000_0000
        }),
{
    let f = units(bits)->0;
    crate::rounding::lemma_units_in_range(bits);
    the_block_sets_what_was_solved_for(block, t);
    let (c0, c) = choose|c0: nat, c: nat| #[trigger] tunes_from(f, c0, c, t);
    lemma_produced(f, c0, c, t);
    let x = (t.m * ONE + t.ko) as nat;
    the_entries_produce_the_clock(bits, block, t);
    assert(x * 50 * 2 >= PRECISION);
    lemma_rounded_is_close(x * F_REF_MHZ as nat, 1);
    assert(vco(x) * 2 >= t.c * PRECISION) by (nonlinear_arith)
        requires
            vco(x) >= 1024 * PRECISION,
            t.c <= 510,
    ;
    lemma_rounded_is_close(vco(x), t.c);
}

/// Every clock from 400/510 MHz on has a setting, up to the largest multiplier
/// that fits: one that a divider of 510 lifts to 400 MHz at the VCO, to the last
/// bits of the arithmetic, and that does not need more than 2^32 - 2 times the
/// reference clock.
pub proof fn every_clock_in_range_can_be_tuned(bits: u64)
    requires
        units(bits) is Some,
        units(bits)->0 * 510 * 0x10_0000_0000_0000 >= 400 * ONE * 0x10_0000_0000_0001,
        units(bits)->0 <= 50 * ONE * 0xFFFF_FFFE,
    ensures
        !untunable(units(bits)->0),
{
    let f = units(bits)->0;
    crate::rounding::lemma_units_in_range(bits);
    lemma_candidate(f, 510);
    assert(fvco(f, 510) >= FVCO_MIN * ONE);
    if untunable(f) {
        let (c0, c) = choose|c0: nat, c: nat| #[trigger]
            gave_up(f, c0, c) && opens_at(f, c0) && snapped(c0, ratio(f, c0)).m >= M_END;
        lemma_candidate(f, c0);
        let x = ratio(f, c0);
        if c0 > 1 {
            let b = (c0 - 1) as nat;
            lemma_candidate(f, b);
            assert(fvco(f, b) < FVCO_MIN * ONE);
            assert(f * c0 <= 2 * (f * b)) by (nonlinear_arith)
                requires
                    c0 == b + 1,
                    b >= 1,
            ;
        } else {
            assert(f * c0 == f);
        }
        assert(x >= (M_END - 1) * ONE);
    }
}

/// No clock that a divider of 510 does not lift to 400 MHz at the VCO has a
/// setting.
pub proof fn a_clock_below_the_range_cannot_be_tuned(bits: u64)
    requires
        units(bits) is Some,
        units(bits)->0 * 510 * 0x10_0000_0000_0001 < 400 * ONE * 0x10_0000_0000_0000,
    ensures
        untunable(units(bits)->0),
{
    let f = units(bits)->0;
    crate::rounding::lemma_units_in_range(bits);
    assert forall|c: nat| 1 <= c <= C_MAX implies #[trigger] fvco(f, c) < FVCO_MIN * ONE by {
        lemma_candidate(f, c);
        assert(f * c <= f * 510) by (nonlinear_arith)
            requires
                c <= 510,
        ;
    }
}

/// A counter entry is the two halves of its divider, the larger one in front of the
/// smaller by a byte, with bit 17 for an odd divider, also where a half does not
/// fit its byte; and the two counter entries of a block are those of the multiplier
/// and of the divider that were solved for.
pub proof fn a_counter_entry_is_the_two_halves_of_its_divider(block: PllBlock, t: Tuning)
    requires
        block.encodes(t),
        t.c < 0x1_0000,
        t.m < 0x1_0000,
    ensures
        block.item@[1] == packed_halves(t.m as u32),
        block.item@[5] == packed_halves(t.c as u32),
{
    let m = block.m;
    let c = block.c;
    assert(forall|d: u32|
        d < 0x1_0000 ==> (if d & 1 != 0 {
            0x20000 | ((((d / 2) + 1) as u32) << 8) | (d / 2)
        } else {
            ((d / 2) << 8) | (d / 2)
        }) == #[trigger] (((d & 1) << 17) | ((((d + 1) as u32) >> 1) << 8) | (d >> 1))) by (bit_vector);
    assert(pll_div(m) == packed_halves(m));
    assert(pll_div(c) == packed_halves(c));
}

/// The two halves of a divider, packed.
pub open spec fn packed_halves(div: u32) -> u32 {
    ((div & 1) << 17) | ((((div + 1) as u32) >> 1) << 8) | (div >> 1)
}

} // verus!
