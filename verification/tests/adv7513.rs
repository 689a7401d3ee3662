//! The register tables of the transmitter.

use itsalive::adv7513::{
    mode_regs, writes, AUDIO, CHIP_ADDR, CSC, INIT, POWER_DOWN, POWER_UP, PR_FLAGS_MANUAL,
    PR_FLAGS_MANUAL_2X,
};

fn duplicate_regs(table: &[(u8, u8)]) -> Vec<(u8, u8, u8)> {
    let mut dups = Vec::new();
    for (i, &(reg, val)) in table.iter().enumerate() {
        for &(other_reg, other_val) in &table[i + 1..] {
            if other_reg == reg {
                dups.push((reg, val, other_val));
            }
        }
    }
    dups
}

#[test]
fn init_table_matches_source() {
    assert_eq!(INIT.len(), 51);
    assert_eq!(INIT[0], (0x98, 0x03));
    assert_eq!(INIT[INIT.len() - 1], (0xFA, 0x7D));
}

#[test]
fn audio_table_matches_source() {
    assert_eq!(AUDIO.len(), 13);
    assert_eq!(AUDIO[0], (0xAF, 0x06));
    assert_eq!(AUDIO[AUDIO.len() - 1], (0x09, 0x0A));
}

#[test]
fn csc_table_matches_source() {
    assert_eq!(CSC.len(), 28);
    assert_eq!(CSC[0], (0x18, 0xA8));
    assert_eq!(CSC[CSC.len() - 1], (0xC3, 0xFF));
}

#[test]
fn csc_is_an_unscaled_pass_through() {
    assert_eq!(CSC[0], (0x18, 0xA0 | 0x08));
    assert_eq!(CSC[10], (0x22, 0x08));
    assert_eq!(CSC[20], (0x2C, 0x08));

    let non_zero: Vec<u8> = CSC
        .iter()
        .filter(|&&(reg, val)| (0x18..=0x2F).contains(&reg) && val != 0)
        .map(|&(reg, _)| reg)
        .collect();
    assert_eq!(non_zero, vec![0x18, 0x22, 0x2C]);

    assert_eq!(
        &CSC[24..],
        &[(0xC0, 0x00), (0xC1, 0x00), (0xC2, 0x0F), (0xC3, 0xFF)]
    );
}

#[test]
fn init_powers_the_chip_up_exactly_once() {
    let power_rows: Vec<(u8, u8)> = INIT
        .iter()
        .copied()
        .filter(|&(reg, _)| reg == 0x41)
        .collect();
    assert_eq!(power_rows, vec![(0x41, 0x10)]);
    assert_eq!(power_rows[0], POWER_UP);
}

#[test]
fn init_arms_no_interrupts() {
    assert!(INIT.contains(&(0x94, 0x00)));
    assert!(!INIT.contains(&(0x94, 0xC0)));
}

#[test]
fn power_constants_match_tmds_power() {
    assert_eq!(POWER_UP, (0x41, 0x10));
    assert_eq!(POWER_DOWN, (0x41, 0x50));
    assert_eq!(POWER_UP.0, POWER_DOWN.0);
}

#[test]
fn no_register_is_written_twice_within_a_table() {
    assert_eq!(duplicate_regs(&INIT), vec![]);
    assert_eq!(duplicate_regs(&AUDIO), vec![]);
    assert_eq!(duplicate_regs(&CSC), vec![]);
}

#[test]
fn mode_regs_for_720p() {
    assert_eq!(
        mode_regs(0, 0, 4, 0),
        [(0x17, 0x62), (0x3B, 0x40), (0x3C, 4)]
    );
}

#[test]
fn mode_regs_for_480p() {
    let regs = mode_regs(0, 0, 1, 0);
    assert_eq!(regs[2], (0x3C, 1));
    assert_eq!(regs[0], (0x17, 0x62));
    assert_eq!(regs[1], (0x3B, 0x40));
}

#[test]
fn mode_regs_sync_invert_bits_follow_polarity() {
    assert_eq!(mode_regs(1, 1, 4, 0)[0], (0x17, 0b0000_0010));
    assert_eq!(mode_regs(0, 1, 4, 0)[0], (0x17, 0b0010_0010));
    assert_eq!(mode_regs(1, 0, 4, 0)[0], (0x17, 0b0100_0010));
    assert_eq!(mode_regs(0, 0, 4, 0)[0], (0x17, 0b0110_0010));
}

#[test]
fn mode_regs_pixel_repetition_is_the_manual_branch() {
    assert_eq!(PR_FLAGS_MANUAL, 0b0100_0000);
    for vic in [1u8, 4u8] {
        assert_eq!(mode_regs(0, 0, vic, 0)[1], (0x3B, 0b0100_0000));
    }
}

#[test]
fn mode_regs_takes_the_2x_clock_branch_for_a_pixel_repeat_mode() {
    assert_eq!(PR_FLAGS_MANUAL_2X, 0b0100_1000);
    assert_eq!(mode_regs(0, 0, 4, 1)[1], (0x3B, 0x48));

    let with_pr = mode_regs(0, 0, 4, 1);
    let without = mode_regs(0, 0, 4, 0);
    assert_eq!(with_pr[0], without[0]);
    assert_eq!(with_pr[2], without[2]);

    assert_eq!(mode_regs(0, 0, 4, 2)[1], (0x3B, 0x48));
}

#[test]
fn writes_yields_the_three_tables_in_mains_order() {
    let all: Vec<(u8, u8)> = writes();
    assert_eq!(all.len(), INIT.len() + AUDIO.len() + CSC.len());
    assert_eq!(all.len(), 51 + 13 + 28);

    assert_eq!(&all[..INIT.len()], &INIT[..]);
    assert_eq!(&all[INIT.len()..INIT.len() + AUDIO.len()], &AUDIO[..]);
    assert_eq!(&all[INIT.len() + AUDIO.len()..], &CSC[..]);

    assert_eq!(all[0], (0x98, 0x03));
    assert_eq!(all[50], (0xFA, 0x7D));
    assert_eq!(all[51], (0xAF, 0x06));
    assert_eq!(all[63], (0x09, 0x0A));
    assert_eq!(all[64], (0x18, 0xA8));
    assert_eq!(all[91], (0xC3, 0xFF));
}

#[test]
fn mode_regs_override_the_bulk_tables_values() {
    assert!(INIT.contains(&(0x3B, 0x80)));
    assert!(INIT.contains(&(0x3C, 0x00)));
    assert_eq!(mode_regs(0, 0, 4, 0)[1], (0x3B, 0x40));
    assert_eq!(mode_regs(0, 0, 4, 0)[2], (0x3C, 0x04));

    assert!(INIT.contains(&(0x17, 0x62)));
    assert_eq!(mode_regs(0, 0, 4, 0)[0], (0x17, 0x62));
}

#[test]
fn adv7513_chip_address_is_the_main_register_map() {
    assert_eq!(CHIP_ADDR, 0x39);
}

#[test]
fn adv7513_golden_golden_json_itself_is_sane() {
    assert_eq!(INIT.len(), 51);
    assert_eq!(AUDIO.len(), 13);
    assert_eq!(CSC.len(), 28);
    assert_eq!(writes().len(), 92);

    assert_eq!(INIT[0], (0x98, 0x03));
    assert_eq!(INIT[50], (0xFA, 0x7D));
    assert_eq!(AUDIO[0].0, 0xAF);
    assert_eq!(AUDIO[12], (0x09, 0x0A));
    assert_eq!(CSC[0].0, 0x18);
    assert_eq!(CSC[27], (0xC3, 0xFF));

    assert!(AUDIO.contains(&(0x02, 0x18)), "N must be 6144 (48 kHz)");
    assert!(CSC.contains(&(0xC2, 0x0F)), "the clamp is wide open");
    assert!(INIT.contains(&(0x94, 0x00)));

    let regs: Vec<u8> = mode_regs(0, 0, 4, 0).iter().map(|&(reg, _)| reg).collect();
    assert_eq!(regs, vec![0x17, 0x3B, 0x3C]);
}

#[test]
fn adv7513_golden_chip_address_is_the_main_register_map() {
    assert_eq!(CHIP_ADDR, 0x39);
}
