//! The log: one line for each step that was made.

use vstd::prelude::*;

use crate::fb::{
    a_mode_line_is_read_back, mode_in, mode_line, parse_mode_line, push_size, size_text, FbMode,
};
use crate::mailbox::{UIO_SET_FBUF, UIO_SET_VIDEO};
use crate::sequence::{cannot_be_tuned, tuned, Entry};
use crate::text::{
    a_byte_comes_back_from_its_digits, decimal, hex_byte, hex_value_of, hexadecimal, push_decimal,
    push_hex_byte, push_hexadecimal,
};
use crate::video::{solve_pll, Modeline, PllBlock};

verus! {

/// The line for a table: the power register alone, the mode registers, or the
/// bulk registers.
pub open spec fn registers_line(rows: Seq<(u8, u8)>, refused: nat) -> Seq<char> {
    (if rows.len() == 1 {
        "adv7513: power down (0x"@ + hex_byte(rows[0].0) + " = 0x"@ + hex_byte(rows[0].1) + ")"@
    } else if rows.len() == 3 {
        "adv7513: 3 mode registers written"@
    } else {
        "adv7513: "@ + decimal(rows.len()) + " registers written"@
    }) + ", "@ + decimal(refused) + " refused"@
}

/// The line for a mode that was set. The pixel clock comes as text.
pub open spec fn video_line(mode: Modeline, mhz: Seq<char>, block: PllBlock) -> Seq<char> {
    "video: "@ + size_text(mode.hact as u32, mode.vact as u32) + " @ "@ + mhz + " MHz, vic "@
        + decimal(mode.vic as nat) + ", PLL C="@ + decimal(block.c as nat) + " M="@ + decimal(
        block.m as nat,
    ) + " K=0x"@ + hexadecimal(block.k as nat)
}

/// The line for a geometry that the kernel was told.
pub open spec fn geometry_line(mode: FbMode) -> Seq<char> {
    "frame buffer: "@ + size_text(mode.width, mode.height) + ", stride "@ + decimal(
        mode.stride as nat,
    ) + " bytes"@
}

/// Said of a core that has no frame buffer to switch to.
pub const NOT_SWITCHED: &'static str = "core doesn't support HPS frame buffer; /dev/fb0 not switched in";

/// Said of a core that has no frame buffer to switch away from.
pub const NOT_DISABLED: &'static str = "core doesn't support HPS frame buffer; nothing to disable";

/// Said of a display that was handed back.
pub const HANDED_BACK: &'static str = "display handed back to the core";

/// Is `line` what is said of a step? Nothing is said of a step that failed, nor
/// of a frame buffer before the kernel was told of it.
pub open spec fn narrated(
    entry: Entry,
    mode: Modeline,
    mhz: Seq<char>,
    line: Option<String>,
) -> bool {
    match entry {
        Entry::Registers { rows, refused } => line matches Some(t) && t@ == registers_line(
            rows@,
            refused as nat,
        ),
        Entry::Command { opcode, payload, reply } => match reply {
            None => line is None,
            Some(n) => if opcode == UIO_SET_VIDEO {
                match line {
                    Some(t) => exists|block: PllBlock| #[trigger]
                        tuned(mode, block) && t@ == video_line(mode, mhz, block),
                    None => cannot_be_tuned(mode),
                }
            } else if opcode == UIO_SET_FBUF && payload@.len() == 1 {
                line matches Some(t) && t@ == if n == 0 {
                    NOT_DISABLED@
                } else {
                    HANDED_BACK@
                }
            } else if opcode == UIO_SET_FBUF && n == 0 {
                line matches Some(t) && t@ == NOT_SWITCHED@
            } else {
                line is None
            },
        },
        Entry::Geometry { line: text, taken } => match mode_in(text@) {
            Some(frame) => if taken {
                line matches Some(t) && t@ == geometry_line(frame)
            } else {
                line is None
            },
            None => line is None,
        },
    }
}

/// The line for a step, if there is anything to say of it. The mode is the one
/// that was brought up, with its pixel clock as text.
pub fn narrate(entry: &Entry, mode: &Modeline, mhz: &str) -> (line: Option<String>)
    ensures
        narrated(*entry, *mode, mhz@, line),
{
    match entry {
        Entry::Registers { rows, refused } => {
            let mut line = "adv7513: ".to_owned();
            if rows.len() == 1 {
                line = "adv7513: power down (0x".to_owned();
                push_hex_byte(&mut line, rows[0].0);
                line.append(" = 0x");
                push_hex_byte(&mut line, rows[0].1);
                line.append(")");
            } else if rows.len() == 3 {
                line = "adv7513: 3 mode registers written".to_owned();
            } else {
                push_decimal(&mut line, rows.len() as u64);
                line.append(" registers written");
            }
            line.append(", ");
            push_decimal(&mut line, *refused as u64);
            line.append(" refused");
            Some(line)
        },
        Entry::Command { opcode, payload, reply } => {
            let n: u16 = match reply {
                None => {
                    return None;
                },
                Some(n) => *n,
            };
            if *opcode == UIO_SET_VIDEO {
                match solve_pll(mode.f_pix_mhz) {
                    Some(block) => {
                        assert(tuned(*mode, block));
                        Some(video_text(mode, mhz, &block))
                    },
                    None => None,
                }
            } else if *opcode == UIO_SET_FBUF && payload.len() == 1 {
                if n == 0 {
                    Some(NOT_DISABLED.to_owned())
                } else {
                    Some(HANDED_BACK.to_owned())
                }
            } else if *opcode == UIO_SET_FBUF && n == 0 {
                Some(NOT_SWITCHED.to_owned())
            } else {
                None
            }
        },
        Entry::Geometry { line: text, taken } => match parse_mode_line(text.as_str()) {
            Ok(frame) => if *taken {
                let mut line = "frame buffer: ".to_owned();
                push_size(&mut line, frame.width, frame.height);
                line.append(", stride ");
                push_decimal(&mut line, frame.stride as u64);
                line.append(" bytes");
                Some(line)
            } else {
                None
            },
            Err(_) => None,
        },
    }
}

/// The line for a mode that was set.
fn video_text(mode: &Modeline, mhz: &str, block: &PllBlock) -> (line: String)
    ensures
        line@ == video_line(*mode, mhz@, *block),
{
    let mut line = "video: ".to_owned();
    push_size(&mut line, mode.hact as u32, mode.vact as u32);
    line.append(" @ ");
    line.append(mhz);
    line.append(" MHz, vic ");
    push_decimal(&mut line, mode.vic as u64);
    line.append(", PLL C=");
    push_decimal(&mut line, block.c as u64);
    line.append(" M=");
    push_decimal(&mut line, block.m as u64);
    line.append(" K=0x");
    push_hexadecimal(&mut line, block.k);
    line
}

/// The line for a table counts its rows and its refusals: both come back from
/// their digits, whatever their number.
pub proof fn the_log_counts_rows_and_refusals(
    entry: Entry,
    mode: Modeline,
    mhz: Seq<char>,
    line: Option<String>,
)
    requires
        entry is Registers,
        narrated(entry, mode, mhz, line),
    ensures
        line is Some,
        ({
            let t = line->0@;
            let end = ", "@ + decimal(entry->refused as nat) + " refused"@;
            &&& t.len() > end.len()
            &&& t.skip(t.len() - end.len()) == end
        }),
        entry->rows@.len() != 1 && entry->rows@.len() != 3 ==> line->0@ == "adv7513: "@ + (decimal(
            entry->rows@.len(),
        ) + " registers written, "@) + (decimal(entry->refused as nat) + " refused"@),
        entry->rows@.len() == 1 ==> hex_value_of(line->0@.subrange(23, 25)) == entry->rows@[0].0
            && hex_value_of(line->0@.subrange(30, 32)) == entry->rows@[0].1,
{
    reveal_strlit("adv7513: ");
    reveal_strlit(", ");
    reveal_strlit(" registers written");
    reveal_strlit(" registers written, ");
    reveal_strlit("adv7513: 3 mode registers written");
    reveal_strlit("adv7513: power down (0x");
    reveal_strlit(" = 0x");
    assert("adv7513: "@.len() == 9 && "adv7513: 3 mode registers written"@.len() > 0);
    assert("adv7513: power down (0x"@.len() == 23 && " = 0x"@.len() == 5);
    assert(" registers written"@ + ", "@ =~= " registers written, "@);
    let t = line->0@;
    let end = ", "@ + decimal(entry->refused as nat) + " refused"@;
    assert(t.skip(t.len() - end.len()) =~= end);
    if entry->rows@.len() == 1 {
        let row = entry->rows@[0];
        a_byte_comes_back_from_its_digits(row.0);
        a_byte_comes_back_from_its_digits(row.1);
        assert(t.subrange(23, 25) =~= hex_byte(row.0));
        assert(t.subrange(30, 32) =~= hex_byte(row.1));
    } else if entry->rows@.len() != 3 {
        assert(t =~= "adv7513: "@ + (decimal(entry->rows@.len()) + " registers written, "@) + (
        decimal(entry->refused as nat) + " refused"@));
    }
}

/// Nothing is said of a command that failed, nor of a geometry that the kernel did
/// not take; and of a geometry that it took, the line has the size and the stride
/// that it was told.
pub proof fn the_log_tells_what_the_kernel_took(
    width: u16,
    height: u16,
    entry: Entry,
    mode: Modeline,
    mhz: Seq<char>,
    line: Option<String>,
)
    requires
        narrated(entry, mode, mhz, line),
    ensures
        entry is Command && entry->reply is None ==> line is None,
        entry is Geometry && !entry->taken ==> line is None,
        entry is Geometry && entry->taken && entry->line@ == mode_line(
            width as nat,
            height as nat,
        ) ==> line is Some && line->0@ == "frame buffer: "@ + (decimal(width as nat) + "x"@
            + decimal(height as nat)) + ", stride "@ + decimal((width * 4) as nat) + " bytes"@,
{
    a_mode_line_is_read_back(width, height);
}

/// The line for a mode that was set has the size, the clock and the VIC of the
/// mode, and the divider, the multiplier and the fraction of its PLL block.
pub proof fn the_log_tells_the_mode_and_its_setting(
    entry: Entry,
    mode: Modeline,
    mhz: Seq<char>,
    line: Option<String>,
)
    requires
        entry is Command,
        entry->opcode == 0x20,
        entry->reply is Some,
        line is Some,
        narrated(entry, mode, mhz, line),
    ensures
        exists|block: PllBlock| #[trigger]
            tuned(mode, block) && line->0@ == "video: "@ + (decimal(mode.hact as nat) + "x"@
                + decimal(mode.vact as nat)) + " @ "@ + mhz + " MHz, vic "@ + decimal(
                mode.vic as nat,
            ) + ", PLL C="@ + decimal(block.c as nat) + " M="@ + decimal(block.m as nat)
                + " K=0x"@ + hexadecimal(block.k as nat),
{
    let block = choose|block: PllBlock| #[trigger]
        tuned(mode, block) && line->0@ == video_line(mode, mhz, block);
    assert(tuned(mode, block));
}

/// What is said of a frame buffer command depends on whether the core has a frame
/// buffer, which is whether it answers anything but zero.
pub proof fn the_log_tells_whether_the_core_has_a_frame_buffer(
    entry: Entry,
    mode: Modeline,
    mhz: Seq<char>,
    line: Option<String>,
)
    requires
        entry is Command,
        entry->opcode == 0x2F,
        entry->reply is Some,
        narrated(entry, mode, mhz, line),
    ensures
        entry->reply->0 == 0 ==> line is Some && line->0@.take(38)
            == "core doesn't support HPS frame buffer;"@,
        entry->reply->0 != 0 && entry->payload@.len() == 1 ==> line is Some && line->0@
            == "display handed back to the core"@,
        entry->reply->0 != 0 && entry->payload@.len() != 1 ==> line is None,
{
    reveal_strlit("core doesn't support HPS frame buffer;");
    reveal_strlit("core doesn't support HPS frame buffer; /dev/fb0 not switched in");
    reveal_strlit("core doesn't support HPS frame buffer; nothing to disable");
    assert(NOT_SWITCHED@.take(38) =~= "core doesn't support HPS frame buffer;"@);
    assert(NOT_DISABLED@.take(38) =~= "core doesn't support HPS frame buffer;"@);
}

} // verus!
