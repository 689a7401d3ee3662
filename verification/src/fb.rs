//! The frame buffer: the burst that points the fabric's frame reader at it, the
//! line that tells the kernel its geometry, and where the pixels of an image go.

use vstd::prelude::*;

use crate::error::{Error, Result};
use crate::hw::{carried_out, zeroing, ModeSource, PixelRun, PixelSink, PixelWrite};
use crate::text::{
    chars_of, decimal, fields, is_blank, lemma_decimal, lemma_field_after_blank, number_in,
    parse_number, push_decimal, split_fields,
};

verus! {

/// The number of pixels in one buffer. A mode with more is shown at half the
/// resolution.
pub const FB_SIZE: u32 = 2_073_600;

/// The start of the frame buffers: the top of the memory that Linux leaves
/// alone, and 32 MiB for the core's own buffer.
pub const FB_ADDR: u32 = 0x2200_0000;

/// 32 bits per pixel.
pub const FB_FMT_8888: u16 = 0x06;

/// Red and blue are swapped.
pub const FB_FMT_RXB: u16 = 0x10;

/// The frame reader's enable flag.
pub const FB_EN: u16 = 0x8000;

/// Format and enable flag.
pub const FB_FORMAT_WORD: u16 = 0x8016;

/// The buffer that the kernel's driver owns.
pub const FB_BUFFER: u32 = 0;

/// The address of buffer `n`. The driver keeps a palette page before the pixels
/// of buffer 0, which is the only one that is its own.
pub open spec fn buffer_address(n: int) -> int {
    FB_ADDR + FB_SIZE * 4 * n + if n == 0 {
        4096int
    } else {
        0
    }
}

/// The address of buffer `n`.
pub fn fb_addr(n: u32) -> (addr: u32)
    requires
        buffer_address(n as int) <= u32::MAX,
    ensures
        addr == buffer_address(n as int),
{
    if n == 0 {
        FB_ADDR + 4096
    } else {
        FB_ADDR + FB_SIZE * 4 * n
    }
}

/// The frame buffer's own size, and the active area of the mode that shows it.
///
/// These are two different pairs of numbers; for the presets they coincide.
#[derive(Clone, Copy, Debug, PartialEq, Eq, Structural)]
pub struct FbGeometry {
    width: u16,
    height: u16,
    hact: u16,
    vact: u16,
}

impl FbGeometry {
    /// The frame buffer's width in pixels.
    pub closed spec fn columns(&self) -> u16 {
        self.width
    }

    /// The frame buffer's height in pixels.
    pub closed spec fn rows(&self) -> u16 {
        self.height
    }

    /// The mode's active pixels.
    pub closed spec fn active_columns(&self) -> u16 {
        self.hact
    }

    /// The mode's active lines.
    pub closed spec fn active_rows(&self) -> u16 {
        self.vact
    }

    /// Is this the geometry for a mode: the frame buffer as large as the active
    /// area, halved both ways where that has more pixels than a buffer, and
    /// halved in height where the mode repeats pixels?
    pub open spec fn is_for(&self, hact: u16, vact: u16, pixel_repeat: bool) -> bool {
        let scale: int = if hact * vact > FB_SIZE {
            2
        } else {
            1
        };
        &&& self.active_columns() == hact
        &&& self.active_rows() == vact
        &&& self.columns() == hact as int / scale
        &&& self.rows() == vact as int / (if pixel_repeat {
            2 * scale
        } else {
            scale
        })
    }

    /// The geometry for a mode with `hact` by `vact` active pixels: halved both
    /// ways where the mode has more pixels than a buffer, and halved in height
    /// where it repeats pixels.
    pub fn for_mode(hact: u16, vact: u16, pixel_repeat: bool) -> (g: Self)
        ensures
            g.is_for(hact, vact, pixel_repeat),
    {
        assert(hact * vact <= 0xFFFE_0001) by (nonlinear_arith)
            requires
                hact <= 0xFFFF,
                vact <= 0xFFFF,
        ;
        let area: u32 = (hact as u32) * (vact as u32);
        let fb_scale: u16 = if area > FB_SIZE {
            2
        } else {
            1
        };
        let fb_scale_y: u16 = if pixel_repeat {
            fb_scale * 2
        } else {
            fb_scale
        };
        Self { width: hact / fb_scale, height: vact / fb_scale_y, hact, vact }
    }

    /// The frame buffer's width in pixels.
    pub fn width(&self) -> (n: u16)
        ensures
            n == self.columns(),
    {
        self.width
    }

    /// The frame buffer's height in pixels.
    pub fn height(&self) -> (n: u16)
        ensures
            n == self.rows(),
    {
        self.height
    }

    /// The mode's active pixels.
    pub fn hact(&self) -> (n: u16)
        ensures
            n == self.active_columns(),
    {
        self.hact
    }

    /// The mode's active lines.
    pub fn vact(&self) -> (n: u16)
        ensures
            n == self.active_rows(),
    {
        self.vact
    }
}

/// A number cut down to 16 bits, as the mailbox takes it.
pub open spec fn low_word(n: int) -> u16 {
    (n % 0x1_0000) as u16
}

/// The payload that points the frame reader at buffer 0: format and enable flag,
/// address, the buffer's size, the rectangle of the screen that it fills, and
/// its stride in bytes.
pub open spec fn fbuf_words(g: FbGeometry) -> Seq<u16> {
    let addr = buffer_address(FB_BUFFER as int);
    seq![
        FB_FORMAT_WORD,
        low_word(addr),
        (addr / 0x1_0000) as u16,
        g.columns(),
        g.rows(),
        0,
        low_word(g.active_columns() - 1),
        0,
        low_word(g.active_rows() - 1),
        low_word(g.columns() * 4),
    ]
}

/// The ten payload words of `UIO_SET_FBUF` that switch the display to the
/// kernel's frame buffer.
pub fn enable_words(geom: &FbGeometry) -> (words: [u16; 10])
    ensures
        words@ == fbuf_words(*geom),
{
    let addr: u32 = fb_addr(FB_BUFFER);
    let words: [u16; 10] = [
        FB_FORMAT_WORD,
        (addr % 0x1_0000) as u16,
        (addr / 0x1_0000) as u16,
        geom.width,
        geom.height,
        0,
        geom.hact.wrapping_sub(1),
        0,
        geom.vact.wrapping_sub(1),
        geom.width.wrapping_mul(4),
    ];
    assert(words@ =~= fbuf_words(*geom));
    words
}

/// The single payload word of `UIO_SET_FBUF` that hands the display back to the
/// core: the enable flag is clear.
pub fn disable_words() -> (words: [u16; 1])
    ensures
        words@ == seq![0u16],
{
    let words: [u16; 1] = [0];
    assert(words@ =~= seq![0u16]);
    words
}

/// The line of the geometry knob: pixel format, red and blue swapped, width,
/// height and stride in bytes.
pub open spec fn mode_line(width: nat, height: nat) -> Seq<char> {
    "8888 1 "@ + decimal(width) + " "@ + decimal(height) + " "@ + decimal(width * 4) + "\n"@
}

/// The line that tells the kernel's driver the geometry. The width and height
/// are the frame buffer's, not the mode's.
pub fn mode_param_line(geom: &FbGeometry) -> (line: String)
    ensures
        line@ == mode_line(geom.columns() as nat, geom.rows() as nat),
{
    let mut line = "8888 1 ".to_owned();
    push_decimal(&mut line, geom.width as u64);
    line.append(" ");
    push_decimal(&mut line, geom.height as u64);
    line.append(" ");
    push_decimal(&mut line, (geom.width as u64) * 4);
    line.append("\n");
    line
}

/// The kernel's description of its frame buffer.
#[derive(Clone, Copy, Debug, PartialEq, Eq, Structural)]
pub struct FbMode {
    /// The pixel format, 8888 for four bytes per pixel.
    pub format: u32,
    /// Are red and blue swapped?
    pub rb: u32,
    /// The width in pixels.
    pub width: u32,
    /// The height in pixels.
    pub height: u32,
    /// The distance from one row to the next, in bytes.
    pub stride: u32,
}

impl FbMode {
    /// Do the rows not overlap?
    pub open spec fn sound(&self) -> bool {
        self.width * 4 <= self.stride
    }
}

/// What is said where the knob is empty, because the driver never probed.
pub const NOT_ENABLED: &'static str = "the kernel has no frame buffer geometry: run `itsalive fb enable` first";

/// What is said where the knob holds something else than a geometry.
pub const BAD_GEOMETRY: &'static str = "the kernel's frame buffer geometry cannot be read: run `itsalive fb enable` first";

/// The geometry that the knob's text describes: five decimal numbers between
/// blanks, with a stride that holds a row of four-byte pixels.
pub open spec fn mode_in(text: Seq<char>) -> Option<FbMode> {
    let f = fields(text);
    if f.len() == 5 && number_in(f[0]) is Some && number_in(f[1]) is Some && number_in(f[2]) is Some
        && number_in(f[3]) is Some && number_in(f[4]) is Some {
        let mode = FbMode {
            format: number_in(f[0])->0,
            rb: number_in(f[1])->0,
            width: number_in(f[2])->0,
            height: number_in(f[3])->0,
            stride: number_in(f[4])->0,
        };
        if mode.sound() {
            Some(mode)
        } else {
            None
        }
    } else {
        None
    }
}

/// What becomes of reading the geometry back: the geometry, or a refusal that
/// says whether there was anything to read.
pub open spec fn read_back(text: Seq<char>, r: Result<FbMode>) -> bool {
    match r {
        Ok(mode) => mode_in(text) == Some(mode),
        Err(e) => {
            &&& mode_in(text) is None
            &&& e matches Error::Usage(msg) && msg@ == if fields(text).len() == 0 {
                NOT_ENABLED@
            } else {
                BAD_GEOMETRY@
            }
        },
    }
}

/// Read the geometry back from the text of the knob.
///
/// A knob without a word in it belongs to a driver that never probed, which is
/// told from one whose text makes no sense.
pub fn parse_mode_line(text: &str) -> (r: Result<FbMode>)
    ensures
        read_back(text@, r),
{
    let chars = chars_of(text);
    let f = split_fields(chars.as_slice());
    if f.len() == 0 {
        return Err(Error::Usage(NOT_ENABLED.to_owned()));
    }
    if f.len() == 5 {
        let numbers = (
            parse_number(f[0].as_slice()),
            parse_number(f[1].as_slice()),
            parse_number(f[2].as_slice()),
            parse_number(f[3].as_slice()),
            parse_number(f[4].as_slice()),
        );
        if let (Some(format), Some(rb), Some(width), Some(height), Some(stride)) = numbers {
            if (width as u64) * 4 <= stride as u64 {
                return Ok(FbMode { format, rb, width, height, stride });
            }
        }
    }
    Err(Error::Usage(BAD_GEOMETRY.to_owned()))
}

/// Where a raw image goes in the frame buffer: four bytes per pixel, no scaling
/// and no cropping.
#[derive(Clone, Copy, Debug, PartialEq, Eq, Structural)]
pub struct BlitPlan {
    frame: FbMode,
    x: u32,
    y: u32,
    width: u32,
    height: u32,
}

/// The size that an image has: the declared one, or that of the whole frame
/// buffer.
pub open spec fn image_size(frame: FbMode, size: Option<(u32, u32)>) -> (u32, u32) {
    match size {
        Some(wh) => wh,
        None => (frame.width, frame.height),
    }
}

/// `WxH` in words.
pub open spec fn size_text(width: u32, height: u32) -> Seq<char> {
    decimal(width as nat) + "x"@ + decimal(height as nat)
}

/// What is said of an image that is larger than the frame buffer.
pub open spec fn too_large_text(frame: FbMode, width: u32, height: u32) -> Seq<char> {
    "the "@ + size_text(width, height) + " image does not fit the "@ + size_text(
        frame.width,
        frame.height,
    ) + " frame buffer"@
}

/// What becomes of placing an image in a frame buffer: the middle, with an odd
/// remainder going right and down, or a refusal where it is too large, or where
/// the rows of the frame buffer overlap.
pub open spec fn placed(frame: FbMode, size: Option<(u32, u32)>, r: Result<BlitPlan>) -> bool {
    let (width, height) = image_size(frame, size);
    match r {
        Ok(plan) => {
            &&& frame.sound()
            &&& plan.well_formed()
            &&& plan.frame() == frame
            &&& plan.columns() == width
            &&& plan.rows() == height
            &&& plan.left() == (frame.width - width) / 2
            &&& plan.top() == (frame.height - height) / 2
        },
        Err(e) => if frame.sound() {
            &&& width > frame.width || height > frame.height
            &&& e matches Error::Usage(msg) && msg@ == too_large_text(frame, width, height)
        } else {
            e matches Error::Usage(msg) && msg@ == BAD_GEOMETRY@
        },
    }
}

/// Append `WxH`.
pub fn push_size(out: &mut String, width: u32, height: u32)
    ensures
        final(out)@ == old(out)@ + size_text(width, height),
{
    push_decimal(out, width as u64);
    out.append("x");
    push_decimal(out, height as u64);
    assert(out@ =~= old(out)@ + size_text(width, height));
}

impl BlitPlan {
    /// The frame buffer.
    pub closed spec fn frame(&self) -> FbMode {
        self.frame
    }

    /// The column of the image's left edge.
    pub closed spec fn left(&self) -> u32 {
        self.x
    }

    /// The row of the image's top edge.
    pub closed spec fn top(&self) -> u32 {
        self.y
    }

    /// The image's width in pixels.
    pub closed spec fn columns(&self) -> u32 {
        self.width
    }

    /// The image's height in pixels.
    pub closed spec fn rows(&self) -> u32 {
        self.height
    }

    /// Does the image lie inside a frame buffer whose rows do not overlap?
    pub open spec fn well_formed(&self) -> bool {
        &&& self.frame().sound()
        &&& self.left() + self.columns() <= self.frame().width
        &&& self.top() + self.rows() <= self.frame().height
    }

    /// The number of bytes in the image.
    pub open spec fn bytes(&self) -> int {
        self.columns() * self.rows() * 4
    }

    /// Where the bytes of one row go.
    pub open spec fn offset(&self, row: int) -> int {
        (self.top() + row) * self.frame().stride + self.left() * 4
    }

    /// The writes that put the image on the screen, row by row.
    pub open spec fn row_writes(&self, source: Seq<u8>) -> Seq<PixelRun> {
        Seq::new(
            self.rows() as nat,
            |row: int|
                PixelRun {
                    offset: self.offset(row),
                    bytes: source.subrange(
                        row * (self.columns() * 4),
                        (row + 1) * (self.columns() * 4),
                    ),
                },
        )
    }

    /// All the writes, with the frame buffer zeroed first where that was asked
    /// for.
    pub open spec fn all_writes(&self, source: Seq<u8>, clear: bool) -> Seq<PixelRun> {
        (if clear {
            zeroing(self.frame().stride * self.frame().height)
        } else {
            Seq::empty()
        }) + self.row_writes(source)
    }

    /// What is said of a source with the wrong number of bytes.
    pub open spec fn wrong_length_text(&self, len: usize) -> Seq<char> {
        "a "@ + size_text(self.columns(), self.rows()) + " image has "@ + decimal(
            self.bytes() as nat,
        ) + " bytes, not "@ + decimal(len as nat)
    }

    /// Place an image of the given size, or of the size of the frame buffer, in
    /// the middle. An odd remainder goes right and down.
    pub fn new(frame: FbMode, size: Option<(u32, u32)>) -> (r: Result<Self>)
        ensures
            placed(frame, size, r),
    {
        if (frame.width as u64) * 4 > frame.stride as u64 {
            return Err(Error::Usage(BAD_GEOMETRY.to_owned()));
        }
        let (width, height) = match size {
            Some(wh) => wh,
            None => (frame.width, frame.height),
        };
        if width > frame.width || height > frame.height {
            let mut msg = "the ".to_owned();
            push_size(&mut msg, width, height);
            msg.append(" image does not fit the ");
            push_size(&mut msg, frame.width, frame.height);
            msg.append(" frame buffer");
            return Err(Error::Usage(msg));
        }
        Ok(
            BlitPlan {
                frame,
                x: (frame.width - width) / 2,
                y: (frame.height - height) / 2,
                width,
                height,
            },
        )
    }

    /// The column of the image's left edge.
    pub fn x(&self) -> (n: u32)
        ensures
            n == self.left(),
    {
        self.x
    }

    /// The row of the image's top edge.
    pub fn y(&self) -> (n: u32)
        ensures
            n == self.top(),
    {
        self.y
    }

    /// Is a source of `len` bytes this image? That is all that tells a source
    /// in the wrong pixel format from one in the right one.
    pub fn check_source_len(&self, len: usize) -> (r: Result<()>)
        requires
            self.well_formed(),
        ensures
            match r {
                Ok(_) => len == self.bytes(),
                Err(e) => {
                    &&& len != self.bytes()
                    &&& e matches Error::Usage(msg) && msg@ == self.wrong_length_text(len)
                },
            },
    {
        proof {
            self.lemma_bytes_fit();
        }
        let expected: u64 = (self.width as u64) * (self.height as u64) * 4;
        if len as u64 == expected {
            return Ok(());
        }
        let mut msg = "a ".to_owned();
        push_size(&mut msg, self.width, self.height);
        msg.append(" image has ");
        push_decimal(&mut msg, expected);
        msg.append(" bytes, not ");
        push_decimal(&mut msg, len as u64);
        Err(Error::Usage(msg))
    }

    /// An image inside a frame buffer has a size that fits 64 bits.
    proof fn lemma_bytes_fit(&self)
        requires
            self.well_formed(),
        ensures
            self.bytes() <= self.frame().stride * self.frame().height,
            self.frame().stride * self.frame().height <= 0xFFFF_FFFE_0000_0001,
            self.columns() * self.rows() <= self.bytes(),
    {
        let w = self.columns() as int;
        let h = self.rows() as int;
        let s = self.frame().stride as int;
        let f = self.frame().height as int;
        assert(w * h * 4 <= s * f && 0 <= w * h) by (nonlinear_arith)
            requires
                0 <= w,
                0 <= h <= f,
                w * 4 <= s,
        ;
        assert(s * f <= 0xFFFF_FFFE_0000_0001) by (nonlinear_arith)
            requires
                0 <= s <= 0xFFFF_FFFF,
                0 <= f <= 0xFFFF_FFFF,
        ;
    }

    /// Every row of an image lies inside the frame buffer, and ends before the
    /// next one begins.
    pub proof fn a_row_stays_in_the_frame_buffer(&self, row: int)
        requires
            self.well_formed(),
            0 <= row < self.rows(),
        ensures
            0 <= self.offset(row),
            self.offset(row) + self.columns() * 4 <= self.frame().stride * self.frame().height,
            self.offset(row) + self.columns() * 4 <= self.offset(row + 1),
    {
        let at = self.top() + row;
        let s = self.frame().stride as int;
        let f = self.frame().height as int;
        assert(0 <= at * s && at * s + s <= s * f && (at + 1) * s == at * s + s)
            by (nonlinear_arith)
            requires
                0 <= at,
                at + 1 <= f,
                0 <= s,
        ;
    }

    /// The image is in the middle: the margins on opposite sides differ by one
    /// pixel at most, and where they differ, the one on the right or at the
    /// bottom is the larger.
    pub proof fn an_image_is_centred(frame: FbMode, size: Option<(u32, u32)>, plan: BlitPlan)
        requires
            placed(frame, size, Ok(plan)),
        ensures
            ({
                let right = frame.width - plan.left() - plan.columns();
                let bottom = frame.height - plan.top() - plan.rows();
                &&& plan.left() <= right <= plan.left() + 1
                &&& plan.top() <= bottom <= plan.top() + 1
            }),
    {
    }

    /// The line that describes where the image goes.
    pub open spec fn description(&self) -> Seq<char> {
        size_text(self.columns(), self.rows()) + " image at ("@ + decimal(self.left() as nat) + ", "@
            + decimal(self.top() as nat) + ") in a "@ + size_text(
            self.frame().width,
            self.frame().height,
        ) + " frame buffer, stride "@ + decimal(self.frame().stride as nat) + " bytes"@
    }

    /// The line that describes where the image goes.
    pub fn describe(&self) -> (line: String)
        ensures
            line@ == self.description(),
    {
        let mut line = String::new();
        push_size(&mut line, self.width, self.height);
        line.append(" image at (");
        push_decimal(&mut line, self.x as u64);
        line.append(", ");
        push_decimal(&mut line, self.y as u64);
        line.append(") in a ");
        push_size(&mut line, self.frame.width, self.frame.height);
        line.append(" frame buffer, stride ");
        push_decimal(&mut line, self.frame.stride as u64);
        line.append(" bytes");
        assert(line@ =~= self.description());
        line
    }

    /// Put an image on the screen, row by row, with the frame buffer zeroed
    /// first if `clear`. A source with the wrong number of bytes is refused
    /// before anything is written.
    pub fn blit<S: PixelSink + ?Sized>(&self, sink: &mut S, source: &[u8], clear: bool) -> (r:
        Result<()>)
        requires
            self.well_formed(),
        ensures
            if source.len() == self.bytes() {
                exists|done: Seq<PixelWrite>| #[trigger]
                    carried_out(self.all_writes(source@, clear), done, r) && final(sink).runs()
                        == old(sink).runs() + done
            } else {
                &&& final(sink).runs() == old(sink).runs()
                &&& r matches Err(Error::Usage(msg)) && msg@ == self.wrong_length_text(source.len())
            },
    {
        if let Err(e) = self.check_source_len(source.len()) {
            return Err(e);
        }
        proof {
            self.lemma_bytes_fit();
        }
        let ghost plan = self.all_writes(source@, clear);
        let ghost zeroes = if clear {
            zeroing(self.frame().stride * self.frame().height)
        } else {
            Seq::empty()
        };
        let ghost mut done: Seq<PixelWrite> = Seq::empty();
        if clear {
            let len: u64 = (self.frame.stride as u64) * (self.frame.height as u64);
            let cleared = sink.clear(len);
            proof {
                done = choose|done: Seq<PixelWrite>| #[trigger]
                    carried_out(zeroing(len as int), done, cleared) && sink.runs() == old(
                        sink,
                    ).runs() + done;
            }
            if let Err(e) = cleared {
                assert(carried_out(plan, done, Err(e)));
                return Err(e);
            }
        } else {
            assert(sink.runs() =~= old(sink).runs() + done);
        }
        let mut row: u32 = 0;
        while row < self.height
            invariant
                self.well_formed(),
                row <= self.height,
                source.len() == self.bytes(),
                self.bytes() <= self.frame().stride * self.frame().height <= 0xFFFF_FFFE_0000_0001,
                plan == zeroes + self.row_writes(source@),
                plan == self.all_writes(source@, clear),
                done.len() == zeroes.len() + row,
                sink.runs() == old(sink).runs() + done,
                forall|i: int|
                    0 <= i < done.len() ==> (#[trigger] done[i]).offset == plan[i].offset
                        && done[i].bytes == plan[i].bytes && done[i].outcome is Ok,
            decreases self.height - row,
        {
            proof {
                self.a_row_stays_in_the_frame_buffer(row as int);
                self.lemma_row_fits(row as int);
            }
            let at: u64 = ((self.y + row) as u64) * (self.frame.stride as u64) + (self.x as u64) * 4;
            let len: usize = (self.width as usize) * 4;
            let from: usize = (row as usize) * len;
            let outcome = sink.write_at(
                at,
                vstd::slice::slice_subrange(source, from, from + len),
            );
            proof {
                let wrote = PixelWrite {
                    offset: at,
                    bytes: source@.subrange(from as int, from + len),
                    outcome,
                };
                let n = done.len() as int;
                done = done.push(wrote);
                assert(sink.runs() =~= old(sink).runs() + done);
                assert(plan[n] == self.row_writes(source@)[row as int]);
                assert((row + 1) * (self.columns() * 4) == from + len) by (nonlinear_arith)
                    requires
                        from == row * len,
                        len == self.columns() * 4,
                ;
            }
            if let Err(e) = outcome {
                assert(carried_out(plan, done, Err(e)));
                return Err(e);
            }
            row = row + 1;
        }
        assert(carried_out(plan, done, Ok(())));
        Ok(())
    }

    /// The bytes of one row lie inside the source, and where they go fits 64
    /// bits.
    proof fn lemma_row_fits(&self, row: int)
        requires
            self.well_formed(),
            0 <= row < self.rows(),
        ensures
            0 <= row * (self.columns() * 4),
            row * (self.columns() * 4) + self.columns() * 4 <= self.bytes(),
            self.columns() * 4 <= self.bytes(),
            0 <= (self.top() + row) * self.frame().stride <= 0xFFFF_FFFE_0000_0001,
    {
        let w = self.columns() as int;
        let h = self.rows() as int;
        assert(0 <= row * (w * 4) && row * (w * 4) + w * 4 <= w * h * 4 && w * 4 <= w * h * 4)
            by (nonlinear_arith)
            requires
                0 <= row,
                row + 1 <= h,
                0 <= w,
        ;
        let at = self.top() + row;
        let s = self.frame().stride as int;
        assert(0 <= at * s <= 0xFFFF_FFFE_0000_0001) by (nonlinear_arith)
            requires
                0 <= at <= 0xFFFF_FFFF,
                0 <= s <= 0xFFFF_FFFF,
        ;
    }
}

/// Ask the kernel for its geometry and place an image in it.
///
/// The geometry is read rather than taken from the caller, because writing it
/// is only a request.
pub fn plan_image<M: ModeSource + ?Sized>(knob: &mut M, size: Option<(u32, u32)>) -> (r: Result<
    BlitPlan,
>)
    ensures
        exists|answer: Result<String>| #[trigger]
            image_planned(answer, size, r) && final(knob).answers() == old(knob).answers().push(
                answer,
            ),
{
    let answer = knob.read_mode_line();
    match answer {
        Err(e) => {
            let r: Result<BlitPlan> = Err(e);
            assert(image_planned(answer, size, r));
            r
        },
        Ok(ref text) => {
            let r: Result<BlitPlan> = match parse_mode_line(text.as_str()) {
                Err(e) => Err(e),
                Ok(frame) => BlitPlan::new(frame, size),
            };
            assert(image_planned(answer, size, r));
            r
        },
    }
}

/// What becomes of planning an image, given the kernel's answer.
pub open spec fn image_planned(
    answer: Result<String>,
    size: Option<(u32, u32)>,
    r: Result<BlitPlan>,
) -> bool {
    match answer {
        Err(e) => r == Err::<BlitPlan, Error>(e),
        Ok(text) => match mode_in(text@) {
            None => r matches Err(e) && read_back(text@, Err(e)),
            Some(frame) => placed(frame, size, r),
        },
    }
}

/// The kernel's knob and the fabric's burst describe the same buffer: the
/// width, the height and, where it fits the burst's 16 bits, the stride.
pub proof fn the_knob_and_the_burst_agree(g: FbGeometry)
    ensures
        mode_in(mode_line(g.columns() as nat, g.rows() as nat)) == Some(
            FbMode {
                format: 8888,
                rb: 1,
                width: fbuf_words(g)[3] as u32,
                height: fbuf_words(g)[4] as u32,
                stride: (g.columns() * 4) as u32,
            },
        ),
        g.columns() * 4 <= 0xFFFF ==> fbuf_words(g)[9] == g.columns() * 4,
{
    a_mode_line_is_read_back(g.columns(), g.rows());
}

/// What is written to the knob is read back from it.
pub proof fn a_mode_line_is_read_back(width: u16, height: u16)
    ensures
        mode_in(mode_line(width as nat, height as nat)) == Some(
            FbMode {
                format: 8888,
                rb: 1,
                width: width as u32,
                height: height as u32,
                stride: (width * 4) as u32,
            },
        ),
{
    reveal_strlit("8888 1 ");
    reveal_strlit(" ");
    reveal_strlit("\n");
    let none = Seq::<char>::empty();
    let format = seq!['8', '8', '8', '8'];
    let rb = seq!['1'];
    let w = decimal(width as nat);
    let h = decimal(height as nat);
    let s = decimal((width * 4) as nat);
    lemma_digits_are_a_field(width as nat);
    lemma_digits_are_a_field(height as nat);
    lemma_digits_are_a_field((width * 4) as nat);
    lemma_decimal(width as nat);
    lemma_decimal(height as nat);
    lemma_decimal((width * 4) as nat);

    lemma_field_after_blank(none, format);
    let t0 = none + format;
    lemma_blank_after(t0, ' ');
    lemma_field_after_blank(t0.push(' '), rb);
    let t1 = t0.push(' ') + rb;
    lemma_blank_after(t1, ' ');
    lemma_field_after_blank(t1.push(' '), w);
    let t2 = t1.push(' ') + w;
    lemma_blank_after(t2, ' ');
    lemma_field_after_blank(t2.push(' '), h);
    let t3 = t2.push(' ') + h;
    lemma_blank_after(t3, ' ');
    lemma_field_after_blank(t3.push(' '), s);
    let t4 = t3.push(' ') + s;
    lemma_blank_after(t4, '\n');
    assert(t1.push(' ') =~= "8888 1 "@);
    assert(t4.push('\n') =~= mode_line(width as nat, height as nat));
    let f = fields(mode_line(width as nat, height as nat));
    assert(f =~= seq![format, rb, w, h, s]);

    reveal_with_fuel(crate::text::digits_value, 5);
    assert(format.drop_last() =~= seq!['8', '8', '8']);
    assert(seq!['8', '8', '8'].drop_last() =~= seq!['8', '8']);
    assert(seq!['8', '8'].drop_last() =~= seq!['8']);
    assert(seq!['8'].drop_last() =~= none);
    assert(rb.drop_last() =~= none);
    assert(number_in(format) == Some(8888u32));
    assert(number_in(rb) == Some(1u32));
}

/// Decimal digits hold no blank.
proof fn lemma_digits_are_a_field(n: nat)
    ensures
        decimal(n).len() > 0,
        forall|i: int| 0 <= i < decimal(n).len() ==> !is_blank(#[trigger] decimal(n)[i]),
{
    lemma_decimal(n);
    assert forall|i: int| 0 <= i < decimal(n).len() implies !is_blank(#[trigger] decimal(n)[i]) by {
        assert(crate::text::is_digit(decimal(n)[i]));
    }
}

/// A blank at the end adds no field.
proof fn lemma_blank_after(s: Seq<char>, c: char)
    requires
        is_blank(c),
    ensures
        fields(s.push(c)) == fields(s),
        s.push(c).last() == c,
{
    assert(s.push(c).drop_last() =~= s);
}

/// The frame buffer of a mode fits its buffer, for every mode of at most four
/// times as many pixels as the buffer has.
pub proof fn a_frame_buffer_fits_its_buffer(
    g: FbGeometry,
    hact: u16,
    vact: u16,
    pixel_repeat: bool,
)
    requires
        g.is_for(hact, vact, pixel_repeat),
        hact * vact <= 4 * FB_SIZE,
    ensures
        g.columns() * g.rows() <= FB_SIZE,
{
    let w = g.columns() as int;
    let h = g.rows() as int;
    if hact * vact > FB_SIZE {
        assert(w == hact as int / 2);
        assert(h == vact as int / 2 || h == vact as int / 4);
        assert(4 * (w * h) <= hact * vact) by (nonlinear_arith)
            requires
                0 <= 2 * w <= hact,
                0 <= 2 * h <= vact,
        ;
    } else {
        assert(w == hact);
        assert(h == vact as int / 1 || h == vact as int / 2);
        assert(w * h <= hact * vact) by (nonlinear_arith)
            requires
                0 <= w <= hact,
                0 <= h <= vact,
        ;
    }
}

/// The byte at an address of the frame buffer after some writes, where it held
/// `before` at first: that of the last write that covers it.
pub open spec fn byte_after(done: Seq<PixelWrite>, at: int, before: u8) -> u8
    decreases done.len(),
{
    if done.len() == 0 {
        before
    } else {
        let last = done.last();
        if last.offset <= at < last.offset + last.bytes.len() {
            last.bytes[at - last.offset]
        } else {
            byte_after(done.drop_last(), at, before)
        }
    }
}

/// A write that none of the later ones covers is what remains.
proof fn lemma_byte_from(done: Seq<PixelWrite>, n: int, at: int, before: u8)
    requires
        0 <= n < done.len(),
        done[n].offset <= at < done[n].offset + done[n].bytes.len(),
        forall|i: int|
            n < i < done.len() ==> !((#[trigger] done[i]).offset <= at < done[i].offset
                + done[i].bytes.len()),
    ensures
        byte_after(done, at, before) == done[n].bytes[at - done[n].offset],
    decreases done.len(),
{
    if n < done.len() - 1 {
        assert(!(done[done.len() - 1].offset <= at < done[done.len() - 1].offset + done[done.len()
            - 1].bytes.len()));
        lemma_byte_from(done.drop_last(), n, at, before);
    }
}

/// A byte that no write covers is left alone.
proof fn lemma_byte_untouched(done: Seq<PixelWrite>, at: int, before: u8)
    requires
        forall|i: int|
            0 <= i < done.len() ==> !((#[trigger] done[i]).offset <= at < done[i].offset
                + done[i].bytes.len()),
    ensures
        byte_after(done, at, before) == before,
    decreases done.len(),
{
    if done.len() > 0 {
        assert(!(done[done.len() - 1].offset <= at < done[done.len() - 1].offset + done[done.len()
            - 1].bytes.len()));
        lemma_byte_untouched(done.drop_last(), at, before);
    }
}

impl BlitPlan {
    /// The rows lie one below the other.
    proof fn lemma_rows_in_order(&self, a: int, b: int)
        requires
            self.well_formed(),
            0 <= a < b < self.rows(),
        ensures
            self.offset(a) + self.columns() * 4 <= self.offset(b),
    {
        let s = self.frame().stride as int;
        assert((self.top() + b) * s >= (self.top() + a) * s + s) by (nonlinear_arith)
            requires
                a + 1 <= b,
                0 <= s,
        ;
    }

    /// What the row writes of a plan are.
    proof fn lemma_row_write(&self, source: Seq<u8>, row: int)
        requires
            self.well_formed(),
            source.len() == self.bytes(),
            0 <= row < self.rows(),
        ensures
            self.row_writes(source)[row].offset == self.offset(row),
            self.row_writes(source)[row].bytes.len() == self.columns() * 4,
            forall|j: int|
                0 <= j < self.columns() * 4 ==> #[trigger] self.row_writes(source)[row].bytes[j]
                    == source[row * (self.columns() * 4) + j],
    {
        self.lemma_row_fits(row);
        let w = self.columns() * 4;
        assert((row + 1) * w == row * w + w) by (nonlinear_arith);
    }

    /// How many writes come before those of the rows.
    spec fn zeroes(&self, clear: bool) -> Seq<PixelRun> {
        if clear {
            zeroing(self.frame().stride * self.frame().height)
        } else {
            Seq::empty()
        }
    }

    /// After an image was put on the screen, every pixel of it shows its own four
    /// bytes of the source: the one in column `x` of row `y`, counted from the
    /// image's top left corner, those from `4 * (y * width + x)` on. Nothing else
    /// is an image of that size: it has four bytes for each of its pixels.
    pub proof fn every_pixel_shows_its_own_bytes(
        &self,
        source: Seq<u8>,
        clear: bool,
        done: Seq<PixelWrite>,
        x: int,
        y: int,
        k: int,
        before: u8,
    )
        requires
            self.well_formed(),
            source.len() == self.bytes(),
            carried_out(self.all_writes(source, clear), done, Ok(())),
            0 <= x < self.columns(),
            0 <= y < self.rows(),
            0 <= k < 4,
        ensures
            source.len() == 4 * (self.columns() * self.rows()),
            byte_after(
                done,
                (self.top() + y) * self.frame().stride + (self.left() + x) * 4 + k,
                before,
            ) == source[4 * (y * self.columns() + x) + k],
    {
        let w = self.columns() * 4;
        let at = (self.top() + y) * self.frame().stride + (self.left() + x) * 4 + k;
        let z = self.zeroes(clear).len() as int;
        let n = z + y;
        let all = self.all_writes(source, clear);
        assert(all =~= self.zeroes(clear) + self.row_writes(source));
        self.lemma_row_write(source, y);
        self.lemma_row_fits(y);
        assert(all[n] == self.row_writes(source)[y]);
        assert(done[n].offset == all[n].offset && done[n].bytes == all[n].bytes);
        assert(at == self.offset(y) + 4 * x + k);
        assert forall|i: int| n < i < done.len() implies !((#[trigger] done[i]).offset <= at
            < done[i].offset + done[i].bytes.len()) by {
            let row = i - z;
            assert(all[i] == self.row_writes(source)[row]);
            self.lemma_row_write(source, row);
            self.lemma_rows_in_order(y, row);
        }
        lemma_byte_from(done, n, at, before);
        assert(self.row_writes(source)[y].bytes[4 * x + k] == source[y * w + (4 * x + k)]);
        assert(y * w == 4 * (y * self.columns())) by (nonlinear_arith)
            requires
                w == self.columns() * 4,
        ;
        assert(4 * (self.columns() * self.rows()) == self.columns() * self.rows() * 4)
            by (nonlinear_arith);
    }

    /// Outside of the image the screen is black where it was to be cleared, and as
    /// it was before where it was not; and nothing behind the frame buffer is ever
    /// touched.
    pub proof fn the_rest_of_the_screen_is_cleared_or_left_alone(
        &self,
        source: Seq<u8>,
        clear: bool,
        done: Seq<PixelWrite>,
        at: int,
        before: u8,
    )
        requires
            self.well_formed(),
            source.len() == self.bytes(),
            carried_out(self.all_writes(source, clear), done, Ok(())),
            0 <= at,
            forall|y: int|
                0 <= y < self.rows() ==> !(#[trigger] self.offset(y) <= at < self.offset(y)
                    + self.columns() * 4),
        ensures
            byte_after(done, at, before) == if clear && at < self.frame().stride
                * self.frame().height {
                0
            } else {
                before
            },
    {
        let zeroes = self.zeroes(clear);
        let z = zeroes.len() as int;
        let all = self.all_writes(source, clear);
        let len = self.frame().stride * self.frame().height;
        assert(all =~= zeroes + self.row_writes(source));
        self.lemma_bytes_fit();
        assert forall|i: int| z <= i < done.len() implies !((#[trigger] done[i]).offset <= at
            < done[i].offset + done[i].bytes.len()) by {
            let row = i - z;
            assert(all[i] == self.row_writes(source)[row]);
            self.lemma_row_write(source, row);
            assert(!(self.offset(row) <= at < self.offset(row) + self.columns() * 4));
        }
        if clear && at < len {
            let n = at / 4096;
            assert(0 <= n < z);
            assert(all[n] == zeroes[n]);
            assert(done[n].offset == all[n].offset && done[n].bytes == all[n].bytes);
            assert forall|i: int| n < i < done.len() implies !((#[trigger] done[i]).offset <= at
                < done[i].offset + done[i].bytes.len()) by {
                if i < z {
                    assert(all[i] == zeroes[i]);
                }
            }
            lemma_byte_from(done, n, at, before);
        } else {
            assert forall|i: int| 0 <= i < done.len() implies !((#[trigger] done[i]).offset <= at
                < done[i].offset + done[i].bytes.len()) by {
                if i < z {
                    assert(all[i] == zeroes[i]);
                }
            }
            lemma_byte_untouched(done, at, before);
        }
    }

    /// An image is placed if, and only if, it fits a frame buffer whose rows hold
    /// its pixels; and one whose size is not given has that of the whole frame
    /// buffer, and begins at its first pixel.
    pub proof fn an_image_that_fits_is_placed(
        frame: FbMode,
        size: Option<(u32, u32)>,
        r: Result<BlitPlan>,
    )
        requires
            placed(frame, size, r),
        ensures
            frame.width * 4 > frame.stride ==> r is Err,
            frame.width * 4 <= frame.stride ==> match size {
                Some((w, h)) => {
                    &&& r is Ok <==> w <= frame.width && h <= frame.height
                    &&& r matches Ok(plan) ==> plan.columns() == w && plan.rows() == h
                },
                None => r matches Ok(plan) && plan.columns() == frame.width && plan.rows()
                    == frame.height && plan.left() == 0 && plan.top() == 0,
            },
            r matches Ok(plan) ==> plan.frame() == frame,
    {
    }
}

/// A frame buffer is as large as its mode where that fits a buffer, and half as
/// large both ways where it does not; a mode that repeats pixels has half the rows.
pub proof fn a_frame_buffer_is_only_halved_where_it_must_be(
    g: FbGeometry,
    hact: u16,
    vact: u16,
    pixel_repeat: bool,
)
    requires
        g.is_for(hact, vact, pixel_repeat),
    ensures
        hact * vact <= 2_073_600 ==> g.columns() == hact,
        hact * vact > 2_073_600 ==> 2 * g.columns() <= hact <= 2 * g.columns() + 1,
        hact * vact <= 2_073_600 && !pixel_repeat ==> g.rows() == vact,
        hact * vact <= 2_073_600 && pixel_repeat ==> 2 * g.rows() <= vact <= 2 * g.rows() + 1,
        hact * vact > 2_073_600 && !pixel_repeat ==> 2 * g.rows() <= vact <= 2 * g.rows() + 1,
        hact * vact > 2_073_600 && pixel_repeat ==> 4 * g.rows() <= vact <= 4 * g.rows() + 3,
        g.active_columns() == hact && g.active_rows() == vact,
{
    let rows = g.rows() as int;
    if hact * vact > 2_073_600 {
        assert(rows == if pixel_repeat {
            vact as int / 4
        } else {
            vact as int / 2
        });
    } else {
        assert(rows == if pixel_repeat {
            vact as int / 2
        } else {
            vact as int / 1
        });
    }
}

/// The burst says where the pixels are and where they go: 32 bits each, red and
/// blue swapped, from one page behind the start of the buffers on; and on the
/// screen from the first pixel to the last one of the mode's active area.
pub proof fn the_burst_describes_the_screen(g: FbGeometry)
    ensures
        ({
            let words = fbuf_words(g);
            &&& words.len() == 10
            &&& words[0] & 0x8000 != 0
            &&& words[0] & 0x07 == 6
            &&& words[0] & 0x10 != 0
            &&& words[1] + words[2] * 0x1_0000 == 0x2200_1000
            &&& words[3] == g.columns()
            &&& words[4] == g.rows()
            &&& words[5] == 0 && words[7] == 0
            &&& g.active_columns() > 0 ==> words[6] + 1 == g.active_columns()
            &&& g.active_rows() > 0 ==> words[8] + 1 == g.active_rows()
            &&& words[9] % 4 == 0
            &&& (words[9] - g.columns() * 4) % 0x1_0000 == 0
        }),
{
    assert(0x8016u16 & 0x8000 != 0 && 0x8016u16 & 0x07 == 6 && 0x8016u16 & 0x10 != 0)
        by (bit_vector);
}

/// Five numbers between single blanks are a geometry: the format, whether red and
/// blue are swapped, the width, the height and the stride, in this order, where
/// the stride holds a row of four-byte pixels, and none where it does not.
pub proof fn five_numbers_are_a_geometry(format: u32, rb: u32, width: u32, height: u32, stride: u32)
    ensures
        mode_in(
            decimal(format as nat).push(' ') + decimal(rb as nat).push(' ') + decimal(
                width as nat,
            ).push(' ') + decimal(height as nat).push(' ') + decimal(stride as nat),
        ) == if width * 4 <= stride {
            Some(FbMode { format, rb, width, height, stride })
        } else {
            None
        },
{
    let a = decimal(format as nat);
    let b = decimal(rb as nat);
    let c = decimal(width as nat);
    let d = decimal(height as nat);
    let e = decimal(stride as nat);
    lemma_digits_are_a_field(format as nat);
    lemma_digits_are_a_field(rb as nat);
    lemma_digits_are_a_field(width as nat);
    lemma_digits_are_a_field(height as nat);
    lemma_digits_are_a_field(stride as nat);
    lemma_decimal(format as nat);
    lemma_decimal(rb as nat);
    lemma_decimal(width as nat);
    lemma_decimal(height as nat);
    lemma_decimal(stride as nat);
    let none = Seq::<char>::empty();
    lemma_field_after_blank(none, a);
    let t0 = none + a;
    lemma_blank_after(t0, ' ');
    lemma_field_after_blank(t0.push(' '), b);
    let t1 = t0.push(' ') + b;
    lemma_blank_after(t1, ' ');
    lemma_field_after_blank(t1.push(' '), c);
    let t2 = t1.push(' ') + c;
    lemma_blank_after(t2, ' ');
    lemma_field_after_blank(t2.push(' '), d);
    let t3 = t2.push(' ') + d;
    lemma_blank_after(t3, ' ');
    lemma_field_after_blank(t3.push(' '), e);
    let text = a.push(' ') + b.push(' ') + c.push(' ') + d.push(' ') + e;
    assert(t3.push(' ') + e =~= text);
    assert(fields(text) =~= seq![a, b, c, d, e]);
}

/// A text with more or fewer than five fields is no geometry, and one with none at
/// all is told from one with the wrong ones.
pub proof fn anything_else_is_no_geometry(text: Seq<char>, r: Result<FbMode>)
    requires
        read_back(text, r),
        fields(text).len() != 5,
    ensures
        r matches Err(Error::Usage(msg)) && (msg@ == NOT_ENABLED@ || msg@ == BAD_GEOMETRY@),
        fields(text).len() == 0 ==> r->Err_0->Usage_0@ == NOT_ENABLED@,
        fields(text).len() > 0 ==> r->Err_0->Usage_0@ == BAD_GEOMETRY@,
{
}

/// The buffers follow each other, four bytes to a pixel, and only the first one
/// begins a page late.
pub proof fn the_buffers_follow_each_other(n: int)
    requires
        n >= 1,
    ensures
        buffer_address(0) == 0x2200_1000,
        buffer_address(1) == 0x2200_0000 + 4 * 2_073_600,
        buffer_address(n + 1) == buffer_address(n) + 4 * 2_073_600,
{
    let size = FB_SIZE as int;
    assert(size * 4 * (n + 1) == size * 4 * n + size * 4) by (nonlinear_arith);
}

/// What is said of an image that does not fit names both sizes, and what is said of
/// a source of the wrong length ends with the length that it has.
pub proof fn a_refused_image_is_told_why(frame: FbMode, width: u32, height: u32, plan: BlitPlan, len: usize)
    requires
        plan.well_formed(),
    ensures
        too_large_text(frame, width, height) == "the "@ + (decimal(width as nat) + "x"@ + decimal(
            height as nat,
        )) + " image does not fit the "@ + (decimal(frame.width as nat) + "x"@ + decimal(
            frame.height as nat,
        )) + " frame buffer"@,
        plan.wrong_length_text(len) == "a "@ + (decimal(plan.columns() as nat) + "x"@ + decimal(
            plan.rows() as nat,
        )) + " image has "@ + decimal((4 * (plan.columns() * plan.rows())) as nat)
            + " bytes, not "@ + decimal(len as nat),
{
    assert(4 * (plan.columns() * plan.rows()) == plan.columns() * plan.rows() * 4)
        by (nonlinear_arith);
    assert(0 <= plan.columns() * plan.rows()) by (nonlinear_arith);
}

/// Put on the screen as the kernel describes it, an image lies in the middle of it:
/// for the line of a width and a height, an image of a smaller size has its own
/// size and margins that differ by one pixel at most, the larger one on the right
/// and at the bottom; one without a size fills the screen; and one that is larger
/// either way is refused.
pub proof fn an_image_lies_in_the_middle_of_the_kernels_screen(
    width: u16,
    height: u16,
    text: String,
    size: Option<(u32, u32)>,
    r: Result<BlitPlan>,
)
    requires
        text@ == mode_line(width as nat, height as nat),
        image_planned(Ok(text), size, r),
    ensures
        ({
            let (w, h) = match size {
                Some((w, h)) => (w, h),
                None => (width as u32, height as u32),
            };
            &&& r is Ok <==> w <= width && h <= height
            &&& r matches Ok(plan) ==> {
                let right = width - plan.left() - w;
                let bottom = height - plan.top() - h;
                &&& plan.columns() == w && plan.rows() == h
                &&& plan.left() <= right <= plan.left() + 1
                &&& plan.top() <= bottom <= plan.top() + 1
                &&& plan.frame().stride == width * 4
            }
        }),
{
    a_mode_line_is_read_back(width, height);
    let frame = mode_in(text@)->0;
    BlitPlan::an_image_that_fits_is_placed(frame, size, r);
    if let Ok(plan) = r {
        BlitPlan::an_image_is_centred(frame, size, plan);
    }
}

/// The description of an image has its size, the place of its top left corner, the
/// column first, and the size and the stride of the frame buffer.
pub proof fn a_description_says_where_the_image_is(plan: BlitPlan)
    ensures
        plan.description() == (decimal(plan.columns() as nat) + "x"@ + decimal(plan.rows() as nat))
            + " image at ("@ + decimal(plan.left() as nat) + ", "@ + decimal(plan.top() as nat)
            + ") in a "@ + (decimal(plan.frame().width as nat) + "x"@ + decimal(
            plan.frame().height as nat,
        )) + " frame buffer, stride "@ + decimal(plan.frame().stride as nat) + " bytes"@,
{
}

} // verus!
