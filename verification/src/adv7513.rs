//! ADV7513 HDMI transmitter: the register tables.
//!
//! Each table is written to the chip at [`CHIP_ADDR`] from top to bottom, one
//! byte per register.

use vstd::prelude::*;

verus! {

/// The transmitter's main register map answers at this I2C chip address.
pub const CHIP_ADDR: u8 = 0x39;

/// The bulk table. It powers the chip up part-way through.
///
/// Registers `0x17`, `0x3B` and `0x3C` are written again later by the mode
/// registers, see [`mode_regs`].
pub const INIT: [(u8, u8); 51] = [
    (0x98, 0x03),
    (0xD6, 0xC0),  // hot-plug detect always high
    (0x41, 0x10),  // powered up
    (0x9A, 0x70),
    (0x9C, 0x30),
    (0x9D, 0x61),  // input clock not divided
    (0xA2, 0xA4),
    (0xA3, 0xA4),
    (0xE0, 0xD0),
    (0x35, 0x40),
    (0x36, 0xD9),
    (0x37, 0x0A),
    (0x38, 0x00),
    (0x39, 0x2D),
    (0x3A, 0x00),
    (0x16, 0x38),  // 4:4:4 RGB out, 8-bit input, style 1
    (0x17, 0x62),  // 16:9, both sync polarities inverted
    (0x3B, 0x80),  // automatic pixel repetition and VIC detection
    (0x3C, 0x00),  // VIC, until the mode registers set it
    (0x48, 0x08),  // normal bus order, data right justified
    (0x49, 0xA8),
    (0x40, 0x00),
    (0x4A, 0x80),  // SPD checksum calculated by the chip
    (0x4C, 0x00),
    (0x55, 0x10),  // RGB 4:4:4 in the AVI InfoFrame
    (0x56, 0x08),  // active portion as the picture
    (0x57, 0x08),  // full RGB quantization range
    (0x59, 0x00),  // no IT content
    (0x73, 0x01),
    (0x96, 0xFF),  // clear all pending interrupts
    (0x94, 0x00),  // arm no interrupt: nothing services one
    (0xC9, 0x00),  // clear the EDID request
    (0x99, 0x02),
    (0x9B, 0x18),
    (0x9F, 0x00),
    (0xA1, 0x00),  // monitor sense may power down
    (0xA4, 0x08),
    (0xA5, 0x04),
    (0xA6, 0x00),
    (0xA7, 0x00),
    (0xA8, 0x00),
    (0xA9, 0x00),
    (0xAA, 0x00),
    (0xAB, 0x40),
    (0xB9, 0x00),
    (0xBA, 0x60),  // no input clock delay
    (0xBB, 0x00),
    (0xDE, 0x9C),
    (0xE2, 0x01),  // power down the CEC block
    (0xE4, 0x60),
    (0xFA, 0x7D),  // searches for a good phase
];

/// The audio table, which follows [`INIT`].
///
/// No audio is driven, but the table is not optional: it puts the transmitter
/// in HDMI rather than DVI mode and keeps the packet engine consistent with the
/// TMDS clock.
pub const AUDIO: [(u8, u8); 13] = [
    (0xAF, 0x06),  // HDMI, not DVI; HDCP off
    (0x0A, 0x00),  // audio from I2S
    (0x0B, 0x0E),
    (0x0C, 0x04),  // I2S0 enabled, standard format
    (0x0D, 0x10),
    (0x14, 0x02),  // 16-bit words
    (0x15, 0x20),  // 48 kHz; 24-bit RGB 4:4:4 with separate syncs
    (0x01, 0x00),
    (0x02, 0x18),  // N = 6144
    (0x03, 0x00),
    (0x07, 0x01),
    (0x08, 0x22),  // CTS = 74250
    (0x09, 0x0A),
];

/// The colour space conversion, which follows [`AUDIO`]: an unscaled
/// pass-through with the output clamps wide open.
pub const CSC: [(u8, u8); 28] = [
    (0x18, 0xA8),  // channel A gain 1.0, coefficient range -2 to 2
    (0x19, 0x00),
    (0x1A, 0x00),
    (0x1B, 0x00),
    (0x1C, 0x00),
    (0x1D, 0x00),
    (0x1E, 0x00),
    (0x1F, 0x00),
    (0x20, 0x00),
    (0x21, 0x00),
    (0x22, 0x08),  // channel B gain 1.0
    (0x23, 0x00),
    (0x24, 0x00),
    (0x25, 0x00),
    (0x26, 0x00),
    (0x27, 0x00),
    (0x28, 0x00),
    (0x29, 0x00),
    (0x2A, 0x00),
    (0x2B, 0x00),
    (0x2C, 0x08),  // channel C gain 1.0
    (0x2D, 0x00),
    (0x2E, 0x00),
    (0x2F, 0x00),
    (0xC0, 0x00),
    (0xC1, 0x00),
    (0xC2, 0x0F),  // clamp at the 12-bit maximum
    (0xC3, 0xFF),
];

/// Power the TMDS output up.
pub const POWER_UP: (u8, u8) = (0x41, 0x10);

/// Power the TMDS output down. This is the only write of `hdmi --off`.
pub const POWER_DOWN: (u8, u8) = (0x41, 0x50);

/// Manual pixel repetition.
pub const PR_FLAGS_MANUAL: u8 = 0x40;

/// Manual pixel repetition with a doubled clock.
pub const PR_FLAGS_MANUAL_2X: u8 = 0x48;

/// Every bulk write, in order: [`INIT`], then [`AUDIO`], then [`CSC`].
pub open spec fn bulk_writes() -> Seq<(u8, u8)> {
    INIT@ + AUDIO@ + CSC@
}

/// The registers of a mode: 16:9 with the sync polarities that the mode does
/// not have inverted, the pixel repetition, and the VIC.
pub open spec fn mode_writes(hpol: u8, vpol: u8, vic: u8, pr: u8) -> Seq<(u8, u8)> {
    let invert: int = 0x02 + (if hpol == 0 {
        0x20int
    } else {
        0
    }) + (if vpol == 0 {
        0x40int
    } else {
        0
    });
    let repetition = if pr != 0 {
        PR_FLAGS_MANUAL_2X
    } else {
        PR_FLAGS_MANUAL
    };
    seq![(0x17, invert as u8), (0x3B, repetition), (0x3C, vic)]
}

/// The three registers that follow a mode change.
///
/// `hpol` and `vpol` are the mode's sync polarities, `vic` its CEA VIC and `pr`
/// its pixel-repetition flag. The presets have no polarity on the wire; the
/// polarity the monitor sees comes from here.
pub fn mode_regs(hpol: u8, vpol: u8, vic: u8, pr: u8) -> (regs: [(u8, u8); 3])
    ensures
        regs@ == mode_writes(hpol, vpol, vic, pr),
{
    let pr_flags: u8 = if pr != 0 {
        PR_FLAGS_MANUAL_2X
    } else {
        PR_FLAGS_MANUAL
    };
    let mut sync_invert: u8 = 0x02;
    if hpol == 0 {
        sync_invert = sync_invert + 0x20;
    }
    if vpol == 0 {
        sync_invert = sync_invert + 0x40;
    }
    let regs: [(u8, u8); 3] = [(0x17, sync_invert), (0x3B, pr_flags), (0x3C, vic)];
    assert(regs@ =~= mode_writes(hpol, vpol, vic, pr));
    regs
}

/// Append a table to a list of writes.
fn push_table(out: &mut Vec<(u8, u8)>, table: &[(u8, u8)])
    ensures
        final(out)@ == old(out)@ + table@,
{
    let mut i: usize = 0;
    while i < table.len()
        invariant
            i <= table.len(),
            out@ == old(out)@ + table@.take(i as int),
        decreases table.len() - i,
    {
        out.push(table[i]);
        i = i + 1;
        assert(table@.take(i as int) =~= table@.take(i - 1).push(table@[i - 1]));
    }
    assert(table@.take(i as int) =~= table@);
}

/// Every bulk write, in the order in which the chip needs them. The registers
/// are order-sensitive: do not reorder or deduplicate.
pub fn writes() -> (all: Vec<(u8, u8)>)
    ensures
        all@ == bulk_writes(),
{
    let mut all: Vec<(u8, u8)> = Vec::new();
    push_table(&mut all, &INIT);
    push_table(&mut all, &AUDIO);
    push_table(&mut all, &CSC);
    assert(all@ =~= bulk_writes());
    all
}

/// Is no register written twice by a table?
pub open spec fn no_register_twice(table: Seq<(u8, u8)>) -> bool {
    forall|i: int, j: int|
        0 <= i < j < table.len() ==> (#[trigger] table[i]).0 != (#[trigger] table[j]).0
}

/// No table writes a register twice, so no row of it is silently undone by a
/// later one.
pub proof fn no_table_writes_a_register_twice()
    ensures
        no_register_twice(INIT@),
        no_register_twice(AUDIO@),
        no_register_twice(CSC@),
{
}

/// The bulk writes power the chip up, with one write, and never down.
pub proof fn the_bulk_writes_power_up_once()
    ensures
        bulk_writes()[2] == POWER_UP,
        forall|i: int|
            0 <= i < bulk_writes().len() && i != 2 ==> (#[trigger] bulk_writes()[i]).0 != POWER_UP.0,
{
}

/// The mode registers, bit by bit: a sync polarity that the mode does not have is
/// inverted, the clock is doubled for a mode that repeats pixels, and the VIC is
/// the mode's own.
pub proof fn the_mode_registers_tell_of_the_mode(hpol: u8, vpol: u8, vic: u8, pr: u8)
    ensures
        ({
            let regs = mode_writes(hpol, vpol, vic, pr);
            &&& regs.len() == 3
            &&& regs[0].0 == 0x17 && regs[1].0 == 0x3B && regs[2].0 == 0x3C
            &&& (regs[0].1 & 0x20 != 0) == (hpol == 0)
            &&& (regs[0].1 & 0x40 != 0) == (vpol == 0)
            &&& regs[0].1 & 0x9F == 0x02
            &&& (regs[1].1 & 0x08 != 0) == (pr != 0)
            &&& regs[1].1 & 0xF7 == 0x40
            &&& regs[2].1 == vic
        }),
{
    assert(0x02u8 & 0x20 == 0 && 0x02u8 & 0x40 == 0 && 0x02u8 & 0x9F == 0x02 && 0x22u8 & 0x20 != 0
        && 0x22u8 & 0x40 == 0 && 0x22u8 & 0x9F == 0x02 && 0x42u8 & 0x20 == 0 && 0x42u8 & 0x40 != 0
        && 0x42u8 & 0x9F == 0x02 && 0x62u8 & 0x20 != 0 && 0x62u8 & 0x40 != 0 && 0x62u8 & 0x9F
        == 0x02 && 0x40u8 & 0x08 == 0 && 0x48u8 & 0x08 != 0 && 0x40u8 & 0xF7 == 0x40 && 0x48u8
        & 0xF7 == 0x40) by (bit_vector);
}

/// The bulk writes are the rows of the three tables, one table after the other: 92
/// in all, no two of them to one register.
pub proof fn the_bulk_writes_are_the_three_tables()
    ensures
        bulk_writes().len() == 92,
        forall|i: int| 0 <= i < 51 ==> bulk_writes()[i] == #[trigger] INIT@[i],
        forall|i: int| 0 <= i < 13 ==> bulk_writes()[51 + i] == #[trigger] AUDIO@[i],
        forall|i: int| 0 <= i < 28 ==> bulk_writes()[64 + i] == #[trigger] CSC@[i],
        no_register_twice(bulk_writes()),
{
}

/// Is a register set to a value by a table?
pub open spec fn sets(table: Seq<(u8, u8)>, reg: u8, value: u8) -> bool {
    exists|i: int| 0 <= i < table.len() && #[trigger] table[i] == (reg, value)
}

/// The values that the chip needs in its fixed registers, whatever it is to show.
pub proof fn the_fixed_registers_have_their_values()
    ensures
        sets(bulk_writes(), 0x98, 0x03),
        sets(bulk_writes(), 0x9A, 0x70),
        sets(bulk_writes(), 0x9C, 0x30),
        sets(bulk_writes(), 0xA2, 0xA4),
        sets(bulk_writes(), 0xA3, 0xA4),
        sets(bulk_writes(), 0xE0, 0xD0),
        sets(bulk_writes(), 0x35, 0x40),
        sets(bulk_writes(), 0x36, 0xD9),
        sets(bulk_writes(), 0x37, 0x0A),
        sets(bulk_writes(), 0x38, 0x00),
        sets(bulk_writes(), 0x39, 0x2D),
        sets(bulk_writes(), 0x3A, 0x00),
        sets(bulk_writes(), 0x49, 0xA8),
        sets(bulk_writes(), 0x40, 0x00),
        sets(bulk_writes(), 0x4C, 0x00),
        sets(bulk_writes(), 0x73, 0x01),
        sets(bulk_writes(), 0x99, 0x02),
        sets(bulk_writes(), 0x9B, 0x18),
        sets(bulk_writes(), 0x9F, 0x00),
        sets(bulk_writes(), 0xA4, 0x08),
        sets(bulk_writes(), 0xA5, 0x04),
        sets(bulk_writes(), 0xA6, 0x00),
        sets(bulk_writes(), 0xA7, 0x00),
        sets(bulk_writes(), 0xA8, 0x00),
        sets(bulk_writes(), 0xA9, 0x00),
        sets(bulk_writes(), 0xAA, 0x00),
        sets(bulk_writes(), 0xAB, 0x40),
        sets(bulk_writes(), 0xB9, 0x00),
        sets(bulk_writes(), 0xBB, 0x00),
        sets(bulk_writes(), 0xDE, 0x9C),
        sets(bulk_writes(), 0xE4, 0x60),
        sets(bulk_writes(), 0xFA, 0x7D),
{
    let all = bulk_writes();
    assert(all[0] == (0x98u8, 0x03u8));
    assert(all[3] == (0x9Au8, 0x70u8));
    assert(all[4] == (0x9Cu8, 0x30u8));
    assert(all[6] == (0xA2u8, 0xA4u8));
    assert(all[7] == (0xA3u8, 0xA4u8));
    assert(all[8] == (0xE0u8, 0xD0u8));
    assert(all[9] == (0x35u8, 0x40u8));
    assert(all[10] == (0x36u8, 0xD9u8));
    assert(all[11] == (0x37u8, 0x0Au8));
    assert(all[12] == (0x38u8, 0x00u8));
    assert(all[13] == (0x39u8, 0x2Du8));
    assert(all[14] == (0x3Au8, 0x00u8));
    assert(all[20] == (0x49u8, 0xA8u8));
    assert(all[21] == (0x40u8, 0x00u8));
    assert(all[23] == (0x4Cu8, 0x00u8));
    assert(all[28] == (0x73u8, 0x01u8));
    assert(all[32] == (0x99u8, 0x02u8));
    assert(all[33] == (0x9Bu8, 0x18u8));
    assert(all[34] == (0x9Fu8, 0x00u8));
    assert(all[36] == (0xA4u8, 0x08u8));
    assert(all[37] == (0xA5u8, 0x04u8));
    assert(all[38] == (0xA6u8, 0x00u8));
    assert(all[39] == (0xA7u8, 0x00u8));
    assert(all[40] == (0xA8u8, 0x00u8));
    assert(all[41] == (0xA9u8, 0x00u8));
    assert(all[42] == (0xAAu8, 0x00u8));
    assert(all[43] == (0xABu8, 0x40u8));
    assert(all[44] == (0xB9u8, 0x00u8));
    assert(all[46] == (0xBBu8, 0x00u8));
    assert(all[47] == (0xDEu8, 0x9Cu8));
    assert(all[49] == (0xE4u8, 0x60u8));
    assert(all[50] == (0xFAu8, 0x7Du8));
}

/// What the chip is told of the picture: hot-plug is not waited for, the input is
/// RGB with eight bits a channel, right justified and on an undivided and undelayed
/// clock, it goes out as full-range RGB 4:4:4, and nothing interrupts.
pub proof fn the_picture_goes_out_as_it_comes_in()
    ensures
        sets(bulk_writes(), 0xD6, 0xC0),
        sets(bulk_writes(), 0x9D, 0x61),
        sets(bulk_writes(), 0x16, 0x38),
        sets(bulk_writes(), 0x17, 0x62),
        sets(bulk_writes(), 0x3B, 0x80),
        sets(bulk_writes(), 0x3C, 0x00),
        sets(bulk_writes(), 0x48, 0x08),
        sets(bulk_writes(), 0x4A, 0x80),
        sets(bulk_writes(), 0x55, 0x10),
        sets(bulk_writes(), 0x56, 0x08),
        sets(bulk_writes(), 0x57, 0x08),
        sets(bulk_writes(), 0x59, 0x00),
        sets(bulk_writes(), 0x96, 0xFF),
        sets(bulk_writes(), 0x94, 0x00),
        sets(bulk_writes(), 0xC9, 0x00),
        sets(bulk_writes(), 0xA1, 0x00),
        sets(bulk_writes(), 0xBA, 0x60),
        sets(bulk_writes(), 0xE2, 0x01),
{
    let all = bulk_writes();
    assert(all[1] == (0xD6u8, 0xC0u8));
    assert(all[5] == (0x9Du8, 0x61u8));
    assert(all[15] == (0x16u8, 0x38u8));
    assert(all[16] == (0x17u8, 0x62u8));
    assert(all[17] == (0x3Bu8, 0x80u8));
    assert(all[18] == (0x3Cu8, 0x00u8));
    assert(all[19] == (0x48u8, 0x08u8));
    assert(all[22] == (0x4Au8, 0x80u8));
    assert(all[24] == (0x55u8, 0x10u8));
    assert(all[25] == (0x56u8, 0x08u8));
    assert(all[26] == (0x57u8, 0x08u8));
    assert(all[27] == (0x59u8, 0x00u8));
    assert(all[29] == (0x96u8, 0xFFu8));
    assert(all[30] == (0x94u8, 0x00u8));
    assert(all[31] == (0xC9u8, 0x00u8));
    assert(all[35] == (0xA1u8, 0x00u8));
    assert(all[45] == (0xBAu8, 0x60u8));
    assert(all[48] == (0xE2u8, 0x01u8));
}

/// What the chip is told of the sound: HDMI rather than DVI, and I2S in words of 16
/// bits at 48 kHz.
pub proof fn the_sound_is_i2s_at_48_khz()
    ensures
        sets(bulk_writes(), 0xAF, 0x06),
        sets(bulk_writes(), 0x0A, 0x00),
        sets(bulk_writes(), 0x0B, 0x0E),
        sets(bulk_writes(), 0x0C, 0x04),
        sets(bulk_writes(), 0x0D, 0x10),
        sets(bulk_writes(), 0x14, 0x02),
        sets(bulk_writes(), 0x15, 0x20),
{
    let all = bulk_writes();
    assert(all[51] == (0xAFu8, 0x06u8));
    assert(all[52] == (0x0Au8, 0x00u8));
    assert(all[53] == (0x0Bu8, 0x0Eu8));
    assert(all[54] == (0x0Cu8, 0x04u8));
    assert(all[55] == (0x0Du8, 0x10u8));
    assert(all[56] == (0x14u8, 0x02u8));
    assert(all[57] == (0x15u8, 0x20u8));
}

/// The audio clock is regenerated right for the pixel clock of 720p: with N and CTS
/// read from their three registers each, 128 times the sample rate is the pixel
/// clock times N over CTS.
pub proof fn the_audio_clock_fits_the_pixel_clock(
    n2: u8,
    n1: u8,
    n0: u8,
    cts2: u8,
    cts1: u8,
    cts0: u8,
)
    requires
        sets(bulk_writes(), 0x01, n2),
        sets(bulk_writes(), 0x02, n1),
        sets(bulk_writes(), 0x03, n0),
        sets(bulk_writes(), 0x07, cts2),
        sets(bulk_writes(), 0x08, cts1),
        sets(bulk_writes(), 0x09, cts0),
    ensures
        ({
            let n = n2 * 0x1_0000 + n1 * 0x100 + n0;
            let cts = cts2 * 0x1_0000 + cts1 * 0x100 + cts0;
            &&& n == 6144
            &&& 128 * (48_000 * cts) == 74_250_000 * n
        }),
{
    the_bulk_writes_are_the_three_tables();
    let all = bulk_writes();
    assert(all[58] == (0x01u8, 0x00u8) && all[59] == (0x02u8, 0x18u8) && all[60] == (0x03u8, 0x00u8));
    assert(all[61] == (0x07u8, 0x01u8) && all[62] == (0x08u8, 0x22u8) && all[63] == (0x09u8, 0x0Au8));
    lemma_one_value(0x01, n2, 58);
    lemma_one_value(0x02, n1, 59);
    lemma_one_value(0x03, n0, 60);
    lemma_one_value(0x07, cts2, 61);
    lemma_one_value(0x08, cts1, 62);
    lemma_one_value(0x09, cts0, 63);
    let n = n2 * 0x1_0000 + n1 * 0x100 + n0;
    let cts = cts2 * 0x1_0000 + cts1 * 0x100 + cts0;
    assert(n2 == 0 && n1 == 0x18 && n0 == 0 && cts2 == 0x01 && cts1 == 0x22 && cts0 == 0x0A);
    assert(n == 6144 && cts == 74_250);
}

/// A register that the bulk writes set has one value.
proof fn lemma_one_value(reg: u8, value: u8, k: int)
    requires
        0 <= k < bulk_writes().len(),
        bulk_writes()[k].0 == reg,
        sets(bulk_writes(), reg, value),
    ensures
        bulk_writes()[k].1 == value,
{
    the_bulk_writes_are_the_three_tables();
    let all = bulk_writes();
    let i = choose|i: int| 0 <= i < all.len() && #[trigger] all[i] == (reg, value);
    if i < k {
        assert(all[i].0 != all[k].0);
    } else if k < i {
        assert(all[k].0 != all[i].0);
    }
}

/// The colours go through as they are: of the twelve coefficients, which stand in
/// two registers each from 0x18 on, the three on the diagonal are one, which is
/// 0x0800, and all the others are zero; the output is clamped to 0 and 0xFFF; and
/// the top bits of the first register switch the conversion on, in the range of -2
/// to 2.
pub proof fn the_colours_go_through_as_they_are(i: int)
    requires
        0 <= i < 12,
    ensures
        CSC@[2 * i].0 == 0x18 + 2 * i,
        CSC@[2 * i + 1].0 == 0x19 + 2 * i,
        (CSC@[2 * i].1 as int % 0x20) * 0x100 + CSC@[2 * i + 1].1 == if i % 5 == 0 && i < 11 {
            0x800int
        } else {
            0
        },
        CSC@[2 * i].1 as int / 0x20 == if i == 0 {
            5int
        } else {
            0
        },
        CSC@[24] == (0xC0u8, 0u8) && CSC@[25] == (0xC1u8, 0u8),
        CSC@[26] == (0xC2u8, 0x0Fu8) && CSC@[27] == (0xC3u8, 0xFFu8),
{
    assert(i == 0 || i == 1 || i == 2 || i == 3 || i == 4 || i == 5 || i == 6 || i == 7 || i == 8 || i
        == 9 || i == 10 || i == 11);
}

} // verus!
