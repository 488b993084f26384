//! VIC video-stream reconstruction.
//!
//! The device broadcasts a video frame as a run of datagrams. Each datagram
//! carries a 12-byte header whose bytes `[4..6)` hold a little-endian word;
//! bit 15 of that word marks the last datagram of a frame. The payload bytes
//! after the header pack two 4-bit palette indices per byte (low nibble =
//! left pixel). This module holds the pure core of the pipeline: the
//! synchronisation and reassembly state machine, the nibble-to-RGB decoder
//! with its fixed 16-colour palette, and the nearest-neighbour upscaler.
//! Receiving the datagrams from the socket is the caller's business.

use crate::le_word;
use vstd::prelude::*;

verus! {

/// End-of-frame marker: bit 15 of the header word.
pub const END_OF_FRAME: u16 = 1u16 << 15;

/// Byte offset of the little-endian header word carrying the marker bit.
pub const LINE_NUM_POS: usize = 4;

/// Length of the fixed datagram header.
pub const HEADER_LEN: usize = 12;

/// Fixed width of a decoded raster, in pixels.
pub const IMAGE_WIDTH: usize = 384;

/// Bytes of payload per raster row: two pixels per byte.
pub const BYTES_PER_ROW: usize = IMAGE_WIDTH / 2;

/// One RGB pixel.
#[derive(Debug, Clone, Copy, PartialEq, Eq, Structural)]
pub struct Rgb {
    pub r: u8,
    pub g: u8,
    pub b: u8,
}

/// The fixed 16-entry hardware palette, indexed by a 4-bit value. Indices 16
/// and above are never produced by nibble extraction; they map to the last
/// entry.
pub open spec fn spec_palette(i: u8) -> Rgb {
    if i == 0 {
        (Rgb { r: 0x00, g: 0x00, b: 0x00 })
    } else if i == 1 {
        (Rgb { r: 0xEF, g: 0xEF, b: 0xEF })
    } else if i == 2 {
        (Rgb { r: 0x8D, g: 0x2F, b: 0x34 })
    } else if i == 3 {
        (Rgb { r: 0x6A, g: 0xD4, b: 0xCD })
    } else if i == 4 {
        (Rgb { r: 0x98, g: 0x35, b: 0xA4 })
    } else if i == 5 {
        (Rgb { r: 0x4C, g: 0xB4, b: 0x42 })
    } else if i == 6 {
        (Rgb { r: 0x2C, g: 0x29, b: 0xB1 })
    } else if i == 7 {
        (Rgb { r: 0xEF, g: 0xEF, b: 0x5D })
    } else if i == 8 {
        (Rgb { r: 0x98, g: 0x4E, b: 0x20 })
    } else if i == 9 {
        (Rgb { r: 0x5B, g: 0x38, b: 0x00 })
    } else if i == 10 {
        (Rgb { r: 0xD1, g: 0x67, b: 0x6D })
    } else if i == 11 {
        (Rgb { r: 0x4A, g: 0x4A, b: 0x4A })
    } else if i == 12 {
        (Rgb { r: 0x7B, g: 0x7B, b: 0x7B })
    } else if i == 13 {
        (Rgb { r: 0x9F, g: 0xEF, b: 0x93 })
    } else if i == 14 {
        (Rgb { r: 0x6D, g: 0x6A, b: 0xEF })
    } else {
        (Rgb { r: 0xB2, g: 0xB2, b: 0xB2 })
    }
}

/// Look a 4-bit palette index up in the fixed hardware palette.
pub fn palette(index: u8) -> (c: Rgb)
    requires
        index < 16,
    ensures
        c == spec_palette(index),
{
    if index == 0 {
        Rgb { r: 0x00, g: 0x00, b: 0x00 }
    } else if index == 1 {
        Rgb { r: 0xEF, g: 0xEF, b: 0xEF }
    } else if index == 2 {
        Rgb { r: 0x8D, g: 0x2F, b: 0x34 }
    } else if index == 3 {
        Rgb { r: 0x6A, g: 0xD4, b: 0xCD }
    } else if index == 4 {
        Rgb { r: 0x98, g: 0x35, b: 0xA4 }
    } else if index == 5 {
        Rgb { r: 0x4C, g: 0xB4, b: 0x42 }
    } else if index == 6 {
        Rgb { r: 0x2C, g: 0x29, b: 0xB1 }
    } else if index == 7 {
        Rgb { r: 0xEF, g: 0xEF, b: 0x5D }
    } else if index == 8 {
        Rgb { r: 0x98, g: 0x4E, b: 0x20 }
    } else if index == 9 {
        Rgb { r: 0x5B, g: 0x38, b: 0x00 }
    } else if index == 10 {
        Rgb { r: 0xD1, g: 0x67, b: 0x6D }
    } else if index == 11 {
        Rgb { r: 0x4A, g: 0x4A, b: 0x4A }
    } else if index == 12 {
        Rgb { r: 0x7B, g: 0x7B, b: 0x7B }
    } else if index == 13 {
        Rgb { r: 0x9F, g: 0xEF, b: 0x93 }
    } else if index == 14 {
        Rgb { r: 0x6D, g: 0x6A, b: 0xEF }
    } else {
        Rgb { r: 0xB2, g: 0xB2, b: 0xB2 }
    }
}

/// A datagram ends a frame when it is long enough to carry the fixed header
/// and bit 15 of the little-endian word at bytes `[4..6)` is set.
pub open spec fn spec_end_of_frame(d: Seq<u8>) -> bool {
    d.len() >= HEADER_LEN && (le_word(d[LINE_NUM_POS as int], d[LINE_NUM_POS as int + 1])
        & END_OF_FRAME) != 0
}

/// Check the end-of-frame marker bit of a raw datagram.
pub fn bit15_is_set(buf: &[u8]) -> (r: bool)
    ensures
        r == spec_end_of_frame(buf@),
{
    if buf.len() >= HEADER_LEN {
        let lo = buf[LINE_NUM_POS];
        let hi = buf[LINE_NUM_POS + 1];
        let word: u16 = (lo as u16) | ((hi as u16) << 8u16);
        (word & END_OF_FRAME) != 0
    } else {
        false
    }
}

/// A decoded RGB raster: `width * height` pixels in row-major order.
pub struct Raster {
    width: usize,
    height: usize,
    pixels: Vec<Rgb>,
}

impl Raster {
    pub closed spec fn spec_width(&self) -> int {
        self.width as int
    }

    pub closed spec fn spec_height(&self) -> int {
        self.height as int
    }

    pub closed spec fn spec_pixels(&self) -> Seq<Rgb> {
        self.pixels@
    }

    /// Well-formed: the pixel store holds exactly one entry per grid cell.
    pub open spec fn wf(&self) -> bool {
        self.spec_pixels().len() == self.spec_width() * self.spec_height()
    }

    /// The pixel of grid cell `(x, y)`, by its row-major position.
    pub open spec fn spec_pixel(&self, x: int, y: int) -> Rgb {
        self.spec_pixels()[y * self.spec_width() + x]
    }

    pub fn width(&self) -> (w: usize)
        ensures
            w == self.spec_width(),
    {
        self.width
    }

    pub fn height(&self) -> (h: usize)
        ensures
            h == self.spec_height(),
    {
        self.height
    }

    /// Read the pixel of grid cell `(x, y)`.
    pub fn pixel(&self, x: usize, y: usize) -> (p: Rgb)
        requires
            self.wf(),
            x < self.spec_width(),
            y < self.spec_height(),
        ensures
            p == self.spec_pixel(x as int, y as int),
    {
        proof {
            assert(self.pixels.len() == self.spec_pixels().len());
            assert(y * self.spec_width() + x < self.spec_width() * self.spec_height())
                by (nonlinear_arith)
                requires
                    0 <= x < self.spec_width(),
                    0 <= y < self.spec_height(),
            ;
        }
        self.pixels[y * self.width + x]
    }

    /// Flatten the raster into `r, g, b` byte triples in row-major pixel
    /// order, the layout an image encoder expects.
    pub fn to_rgb_bytes(&self) -> (out: Vec<u8>)
        requires
            self.wf(),
            self.spec_pixels().len() * 3 <= usize::MAX,
        ensures
            out@.len() == 3 * self.spec_pixels().len(),
            forall|i: int|
                0 <= i < self.spec_pixels().len() ==> out@[3 * i] == self.spec_pixels()[i].r
                    && out@[3 * i + 1] == self.spec_pixels()[i].g && out@[3 * i + 2]
                    == self.spec_pixels()[i].b,
    {
        let mut out: Vec<u8> = Vec::new();
        let mut i: usize = 0;
        while i < self.pixels.len()
            invariant
                i <= self.pixels.len(),
                self.pixels@.len() * 3 <= usize::MAX,
                out@.len() == 3 * i,
                forall|j: int|
                    0 <= j < i ==> out@[3 * j] == self.pixels@[j].r && out@[3 * j + 1]
                        == self.pixels@[j].g && out@[3 * j + 2] == self.pixels@[j].b,
            decreases self.pixels.len() - i,
        {
            let p = self.pixels[i];
            out.push(p.r);
            out.push(p.g);
            out.push(p.b);
            i += 1;
        }
        out
    }
}

/// The `j`-th pixel (row-major, width [`IMAGE_WIDTH`]) decoded from a raw
/// frame buffer: byte `j / 2` supplies two pixels, low nibble first.
pub open spec fn spec_decoded(frame: Seq<u8>, j: int) -> Rgb {
    let byte = frame[j / 2];
    if j % 2 == 0 {
        spec_palette(byte & 0xf)
    } else {
        spec_palette(byte >> 4u8)
    }
}

/// Decode a raw frame buffer of packed nibbles into an RGB raster of width
/// [`IMAGE_WIDTH`]. The height is the number of whole rows the buffer holds;
/// bytes of a trailing partial row are not decoded.
pub fn make_image(frame: &[u8]) -> (img: Raster)
    ensures
        img.wf(),
        img.spec_width() == IMAGE_WIDTH,
        img.spec_height() == frame@.len() as int / (BYTES_PER_ROW as int),
        forall|j: int|
            0 <= j < img.spec_pixels().len() ==> #[trigger] img.spec_pixels()[j] == spec_decoded(
                frame@,
                j,
            ),
        forall|px: int, y: int|
            0 <= px < IMAGE_WIDTH && 0 <= y < img.spec_height() ==> #[trigger] img.spec_pixel(
                px,
                y,
            ) == spec_decoded(frame@, y * IMAGE_WIDTH + px),
{
    let rows = frame.len() / BYTES_PER_ROW;
    proof {
        vstd::arithmetic::div_mod::lemma_fundamental_div_mod(
            frame@.len() as int,
            BYTES_PER_ROW as int,
        );
        vstd::arithmetic::div_mod::lemma_mod_bound(frame@.len() as int, BYTES_PER_ROW as int);
    }
    let mut pixels: Vec<Rgb> = Vec::new();
    let mut y: usize = 0;
    while y < rows
        invariant
            y <= rows,
            rows == frame@.len() as int / (BYTES_PER_ROW as int),
            rows * BYTES_PER_ROW <= frame@.len() <= usize::MAX,
            pixels@.len() == y * IMAGE_WIDTH,
            forall|j: int|
                0 <= j < pixels@.len() ==> #[trigger] pixels@[j] == spec_decoded(frame@, j),
        decreases rows - y,
    {
        let mut x: usize = 0;
        while x < BYTES_PER_ROW
            invariant
                y < rows,
                x <= BYTES_PER_ROW,
                rows == frame@.len() as int / (BYTES_PER_ROW as int),
                rows * BYTES_PER_ROW <= frame@.len() <= usize::MAX,
                pixels@.len() == y * IMAGE_WIDTH + 2 * x,
                forall|j: int|
                    0 <= j < pixels@.len() ==> #[trigger] pixels@[j] == spec_decoded(frame@, j),
            decreases BYTES_PER_ROW - x,
        {
            proof {
                assert(y * BYTES_PER_ROW + x < rows * BYTES_PER_ROW) by (nonlinear_arith)
                    requires
                        0 <= x < BYTES_PER_ROW,
                        0 <= y < rows,
                ;
            }
            let b = frame[y * BYTES_PER_ROW + x];
            proof {
                assert(b & 0xf < 16) by (bit_vector);
                assert(b >> 4u8 < 16) by (bit_vector);
                let j0 = pixels@.len() as int;
                assert(j0 == y * IMAGE_WIDTH + 2 * x);
                assert(j0 / 2 == y * BYTES_PER_ROW + x && j0 % 2 == 0 && (j0 + 1) / 2 == y
                    * BYTES_PER_ROW + x && (j0 + 1) % 2 == 1) by (nonlinear_arith)
                    requires
                        j0 == y * IMAGE_WIDTH + 2 * x,
                        IMAGE_WIDTH == 2 * BYTES_PER_ROW,
                        0 <= x,
                        0 <= y,
                ;
            }
            pixels.push(palette(b & 0xf));
            pixels.push(palette(b >> 4u8));
            x += 1;
        }
        y += 1;
    }
    proof {
        assert(rows * IMAGE_WIDTH == (BYTES_PER_ROW as int) * rows * 2) by (nonlinear_arith)
            requires
                IMAGE_WIDTH == 2 * BYTES_PER_ROW,
        ;
        assert(pixels@.len() == IMAGE_WIDTH * rows) by (nonlinear_arith)
            requires
                pixels@.len() == rows * IMAGE_WIDTH,
        ;
    }
    let img = Raster { width: IMAGE_WIDTH, height: rows, pixels };
    proof {
        assert forall|px: int, y: int|
            0 <= px < IMAGE_WIDTH && 0 <= y < img.spec_height() implies #[trigger] img.spec_pixel(
            px,
            y,
        ) == spec_decoded(frame@, y * IMAGE_WIDTH + px) by {
            assert(0 <= y * IMAGE_WIDTH + px < img.spec_pixels().len()) by (nonlinear_arith)
                requires
                    0 <= px < IMAGE_WIDTH,
                    0 <= y < img.spec_height(),
                    img.spec_pixels().len() == IMAGE_WIDTH * img.spec_height(),
            ;
            assert(img.spec_pixels()[y * IMAGE_WIDTH + px] == spec_decoded(
                frame@,
                y * IMAGE_WIDTH + px,
            ));
        }
    }
    img
}

/// Upscale a raster by an integer factor with nearest-neighbour replication:
/// each source pixel becomes a `factor x factor` block. A factor of 1, or
/// none, returns the raster unchanged. A factor of 0 is a caller contract
/// violation, rejected at the boundary rather than here.
pub fn scale_image(img: Raster, scale: Option<u32>) -> (out: Raster)
    requires
        img.wf(),
        scale matches Some(f) ==> 1 <= f && img.spec_width() * f <= usize::MAX
            && img.spec_height() * f <= usize::MAX && (img.spec_width() * f) * (img.spec_height()
            * f) <= usize::MAX,
    ensures
        out.wf(),
        match scale {
            None => out == img,
            Some(f) => {
                &&& f == 1 ==> out == img
                &&& out.spec_width() == img.spec_width() * f
                &&& out.spec_height() == img.spec_height() * f
                &&& forall|x: int, y: int|
                    0 <= x < out.spec_width() && 0 <= y < out.spec_height()
                        ==> #[trigger] out.spec_pixel(x, y) == img.spec_pixel(x / (f as int), y / (
                    f as int))
            },
        },
{
    match scale {
        None => img,
        Some(f) => {
            if f == 1 {
                img
            } else {
                let factor = f as usize;
                let new_w = img.width() * factor;
                let new_h = img.height() * factor;
                let ghost wi = img.spec_width();
                let ghost hi = img.spec_height();
                let ghost fi = f as int;
                let mut pixels: Vec<Rgb> = Vec::new();
                let mut y: usize = 0;
                while y < new_h
                    invariant
                        img.wf(),
                        1 <= fi,
                        factor == fi,
                        wi == img.spec_width(),
                        hi == img.spec_height(),
                        new_w == wi * fi,
                        new_h == hi * fi,
                        new_w * new_h <= usize::MAX,
                        y <= new_h,
                        pixels@.len() == y * new_w,
                        forall|xx: int, yy: int|
                            0 <= xx < new_w && 0 <= yy < y ==> #[trigger] pixels@[yy * (
                            new_w as int) + xx] == img.spec_pixel(xx / fi, yy / fi),
                    decreases new_h - y,
                {
                    let mut x: usize = 0;
                    while x < new_w
                        invariant
                            img.wf(),
                            1 <= fi,
                            factor == fi,
                            wi == img.spec_width(),
                            hi == img.spec_height(),
                            new_w == wi * fi,
                            new_h == hi * fi,
                            new_w * new_h <= usize::MAX,
                            y < new_h,
                            x <= new_w,
                            pixels@.len() == y * new_w + x,
                            forall|xx: int, yy: int|
                                0 <= xx < new_w && 0 <= yy < y ==> #[trigger] pixels@[yy * (
                                new_w as int) + xx] == img.spec_pixel(xx / fi, yy / fi),
                            forall|xx: int|
                                0 <= xx < x ==> #[trigger] pixels@[y * (new_w as int) + xx]
                                    == img.spec_pixel(xx / fi, y as int / fi),
                        decreases new_w - x,
                    {
                        proof {
                            assert(x / factor < wi && y / factor < hi) by (nonlinear_arith)
                                requires
                                    1 <= fi,
                                    factor == fi,
                                    0 <= x < wi * fi,
                                    0 <= y < hi * fi,
                            ;
                            assert(y * new_w + x + 1 <= new_h * new_w) by (nonlinear_arith)
                                requires
                                    0 <= x < new_w,
                                    0 <= y < new_h,
                            ;
                            assert(new_h * new_w == new_w * new_h) by (nonlinear_arith);
                        }
                        let p = img.pixel(x / factor, y / factor);
                        let ghost pix0 = pixels@;
                        pixels.push(p);
                        proof {
                            assert forall|xx: int, yy: int|
                                0 <= xx < new_w && 0 <= yy < y implies #[trigger] pixels@[yy * (
                            new_w as int) + xx] == img.spec_pixel(xx / fi, yy / fi) by {
                                assert(yy * (new_w as int) + xx < y * (new_w as int))
                                    by (nonlinear_arith)
                                    requires
                                        0 <= xx < new_w,
                                        0 <= yy < y,
                                ;
                                assert(pixels@[yy * (new_w as int) + xx] == pix0[yy * (
                                new_w as int) + xx]);
                            }
                        }
                        x += 1;
                    }
                    y += 1;
                    proof {
                        assert(pixels@.len() == y * new_w) by (nonlinear_arith)
                            requires
                                pixels@.len() == (y - 1) * new_w + new_w,
                        ;
                        assert forall|xx: int, yy: int|
                            0 <= xx < new_w && 0 <= yy < y implies #[trigger] pixels@[yy * (
                        new_w as int) + xx] == img.spec_pixel(xx / fi, yy / fi) by {
                            if yy == y - 1 {
                                assert(pixels@[(y - 1) * (new_w as int) + xx] == img.spec_pixel(
                                    xx / fi,
                                    (y - 1) as int / fi,
                                ));
                            }
                        }
                    }
                }
                let out = Raster { width: new_w, height: new_h, pixels };
                proof {
                    assert(out.spec_pixels().len() == out.spec_width() * out.spec_height())
                        by (nonlinear_arith)
                        requires
                            out.spec_pixels().len() == (new_h as int) * (new_w as int),
                            out.spec_width() == new_w,
                            out.spec_height() == new_h,
                    ;
                    assert forall|x: int, y: int|
                        0 <= x < out.spec_width() && 0 <= y < out.spec_height()
                            implies #[trigger] out.spec_pixel(x, y) == img.spec_pixel(
                        x / fi,
                        y / fi,
                    ) by {
                        assert(out.spec_pixel(x, y) == out.spec_pixels()[y * (new_w as int) + x]);
                    }
                }
                out
            }
        },
    }
}

/// One outcome of a bounded-wait receive on the stream socket: a datagram,
/// or the bounded wait running out. A fatal transport error is not an event
/// of the state machine; the caller propagates it and abandons the capture.
#[derive(Debug)]
pub enum RecvEvent {
    Timeout,
    Datagram(Vec<u8>),
}

/// Mathematical model of a receive outcome.
pub enum EventModel {
    Timeout,
    Datagram(Seq<u8>),
}

impl View for RecvEvent {
    type V = EventModel;

    open spec fn view(&self) -> EventModel {
        match self {
            RecvEvent::Timeout => EventModel::Timeout,
            RecvEvent::Datagram(d) => EventModel::Datagram(d@),
        }
    }
}

/// The frame-assembly state machine. A capture starts in
/// `SeekingFrameStart`, because a receiver that joins mid-broadcast sees the
/// tail of a frame whose start it missed: datagrams are discarded up to and
/// including the next end-of-frame marker, so that the next payload byte
/// captured is the true start of a frame. `Accumulating` collects payloads
/// in arrival order until a marker completes the frame; `FrameComplete` is
/// terminal and holds the finished raw frame buffer.
#[derive(Debug, PartialEq, Eq)]
pub enum AssemblerState {
    SeekingFrameStart,
    Accumulating(Vec<u8>),
    FrameComplete(Vec<u8>),
}

/// Mathematical model of an assembler state.
pub enum AssemblerModel {
    Seeking,
    Accumulating(Seq<u8>),
    Complete(Seq<u8>),
}

impl View for AssemblerState {
    type V = AssemblerModel;

    open spec fn view(&self) -> AssemblerModel {
        match self {
            AssemblerState::SeekingFrameStart => AssemblerModel::Seeking,
            AssemblerState::Accumulating(buf) => AssemblerModel::Accumulating(buf@),
            AssemblerState::FrameComplete(buf) => AssemblerModel::Complete(buf@),
        }
    }
}

/// The payload of a datagram: everything after the fixed header.
pub open spec fn spec_payload(d: Seq<u8>) -> Seq<u8> {
    d.skip(HEADER_LEN as int)
}

/// One transition of the frame-assembly state machine.
///
/// A timeout never changes the state: a frame in progress is not abandoned
/// for bursty delivery, and seeking just goes on. While seeking, a datagram
/// is discarded; one carrying the end-of-frame marker moves the machine to
/// `Accumulating` with an empty buffer, so the completed tail frame itself
/// contributes no bytes. While accumulating, a datagram at least as long as
/// the header appends its payload in arrival order, and completes the frame
/// if it carries the marker; a shorter datagram is malformed noise and is
/// dropped. A complete state is terminal.
pub open spec fn spec_step(s: AssemblerModel, e: EventModel) -> AssemblerModel {
    match e {
        EventModel::Timeout => s,
        EventModel::Datagram(d) => match s {
            AssemblerModel::Seeking => if spec_end_of_frame(d) {
                AssemblerModel::Accumulating(Seq::empty())
            } else {
                AssemblerModel::Seeking
            },
            AssemblerModel::Accumulating(buf) => if d.len() >= HEADER_LEN {
                if spec_end_of_frame(d) {
                    AssemblerModel::Complete(buf + spec_payload(d))
                } else {
                    AssemblerModel::Accumulating(buf + spec_payload(d))
                }
            } else {
                AssemblerModel::Accumulating(buf)
            },
            AssemblerModel::Complete(buf) => AssemblerModel::Complete(buf),
        },
    }
}

/// Feed one receive outcome to the frame-assembly state machine.
pub fn step(state: AssemblerState, event: RecvEvent) -> (next: AssemblerState)
    ensures
        next@ == spec_step(state@, event@),
{
    match event {
        RecvEvent::Timeout => state,
        RecvEvent::Datagram(d) => match state {
            AssemblerState::SeekingFrameStart => {
                if bit15_is_set(d.as_slice()) {
                    AssemblerState::Accumulating(Vec::new())
                } else {
                    AssemblerState::SeekingFrameStart
                }
            },
            AssemblerState::Accumulating(buf) => {
                if d.len() >= HEADER_LEN {
                    let ghost buf0 = buf@;
                    let mut buf = buf;
                    let mut i: usize = HEADER_LEN;
                    while i < d.len()
                        invariant
                            HEADER_LEN <= i <= d@.len(),
                            buf@ == buf0 + d@.subrange(HEADER_LEN as int, i as int),
                        decreases d@.len() - i,
                    {
                        buf.push(d[i]);
                        proof {
                            assert(buf@ =~= buf0 + d@.subrange(HEADER_LEN as int, i + 1));
                        }
                        i += 1;
                    }
                    proof {
                        assert(buf@ =~= buf0 + spec_payload(d@));
                    }
                    if bit15_is_set(d.as_slice()) {
                        AssemblerState::FrameComplete(buf)
                    } else {
                        AssemblerState::Accumulating(buf)
                    }
                } else {
                    AssemblerState::Accumulating(buf)
                }
            },
            AssemblerState::FrameComplete(buf) => AssemblerState::FrameComplete(buf),
        },
    }
}

/// The state reached from `s` after a whole sequence of receive outcomes,
/// fed left to right.
pub open spec fn spec_run(s: AssemblerModel, events: Seq<EventModel>) -> AssemblerModel
    decreases events.len(),
{
    if events.len() == 0 {
        s
    } else {
        spec_run(spec_step(s, events[0]), events.skip(1))
    }
}

/// The models of a sequence of receive outcomes.
pub open spec fn events_model(events: Seq<RecvEvent>) -> Seq<EventModel> {
    events.map_values(|e: RecvEvent| e@)
}

/// Run one whole capture over a finite sequence of receive outcomes,
/// starting in `SeekingFrameStart`, and return the final state.
pub fn run_assembler(events: Vec<RecvEvent>) -> (r: AssemblerState)
    ensures
        r@ == spec_run(AssemblerModel::Seeking, events_model(events@)),
{
    let ghost all = events_model(events@);
    let mut events = events;
    let mut state = AssemblerState::SeekingFrameStart;
    while events.len() > 0
        invariant
            spec_run(AssemblerModel::Seeking, all) == spec_run(state@, events_model(events@)),
        decreases events@.len(),
    {
        let ghost before = events@;
        let e = events.remove(0);
        proof {
            assert(events_model(before)[0] == e@);
            assert(events_model(events@) =~= events_model(before).skip(1));
        }
        state = step(state, e);
    }
    proof {
        assert(events_model(events@) =~= Seq::<EventModel>::empty());
    }
    state
}

/// Whole rows of a buffer of `rows * BYTES_PER_ROW + rem` bytes: exactly
/// `rows` when `rem` is a partial row, so a decoded raster is never rounded
/// up to a partial row.
pub proof fn lemma_raster_height(rows: int, rem: int)
    requires
        0 <= rows,
        0 <= rem < BYTES_PER_ROW,
    ensures
        (rows * BYTES_PER_ROW + rem) / (BYTES_PER_ROW as int) == rows,
{
    assert((rows * BYTES_PER_ROW + rem) / (BYTES_PER_ROW as int) == rows) by (nonlinear_arith)
        requires
            0 <= rows,
            0 <= rem < BYTES_PER_ROW,
    ;
}

/// A timeout event never changes the assembler's state: an in-progress
/// frame is neither reset nor truncated, and seeking simply continues.
pub proof fn lemma_timeout_preserves_state(s: AssemblerModel)
    ensures
        spec_step(s, EventModel::Timeout) == s,
{
}

/// Payload datagrams received while accumulating land in the buffer in
/// arrival order, even with a timeout between them: after `d1`, a timeout,
/// and `d2`, the buffer holds `buf + payload(d1) + payload(d2)`, completed
/// exactly when `d2` carries the end-of-frame marker.
pub proof fn lemma_payloads_in_order(buf: Seq<u8>, d1: Seq<u8>, d2: Seq<u8>)
    requires
        d1.len() >= HEADER_LEN,
        !spec_end_of_frame(d1),
        d2.len() >= HEADER_LEN,
    ensures
        ({
            let s1 = spec_step(AssemblerModel::Accumulating(buf), EventModel::Datagram(d1));
            let s2 = spec_step(s1, EventModel::Timeout);
            let s3 = spec_step(s2, EventModel::Datagram(d2));
            s3 == if spec_end_of_frame(d2) {
                AssemblerModel::Complete(buf + spec_payload(d1) + spec_payload(d2))
            } else {
                AssemblerModel::Accumulating(buf + spec_payload(d1) + spec_payload(d2))
            }
        }),
{
}

/// Seek-discard: a capture that opens on an end-of-frame datagram `d`
/// continues as a fresh accumulation with an empty buffer, so no byte of
/// `d`'s payload can reach the assembled frame; opening on any other
/// datagram just keeps seeking.
pub proof fn lemma_seek_discards_first(d: Seq<u8>, rest: Seq<EventModel>)
    ensures
        spec_run(AssemblerModel::Seeking, seq![EventModel::Datagram(d)] + rest) == if spec_end_of_frame(
            d,
        ) {
            spec_run(AssemblerModel::Accumulating(Seq::empty()), rest)
        } else {
            spec_run(AssemblerModel::Seeking, rest)
        },
{
    let es = seq![EventModel::Datagram(d)] + rest;
    assert(es[0] == EventModel::Datagram(d));
    assert(es.skip(1) =~= rest);
}

/// Nearest-neighbour block structure: inside an upscaled raster, every
/// position `x * factor + i` of a `factor`-wide block maps back to source
/// column (or row) `x`, so each `factor x factor` output block equals its
/// single source pixel.
pub proof fn lemma_scale_block(factor: int, x: int, i: int)
    requires
        1 <= factor,
        0 <= x,
        0 <= i < factor,
    ensures
        (x * factor + i) / factor == x,
{
    assert((x * factor + i) / factor == x) by (nonlinear_arith)
        requires
            1 <= factor,
            0 <= x,
            0 <= i < factor,
    ;
}

/// Decoding byte `y * BYTES_PER_ROW + x` of a frame yields the pixel pair
/// `(palette[low nibble], palette[high nibble])` at columns `(2x, 2x + 1)`
/// of row `y`.
pub proof fn lemma_decoded_pixel_pair(frame: Seq<u8>, x: int, y: int)
    requires
        0 <= x < BYTES_PER_ROW,
        0 <= y,
    ensures
        spec_decoded(frame, y * IMAGE_WIDTH + 2 * x) == spec_palette(
            frame[y * BYTES_PER_ROW + x] & 0xf,
        ),
        spec_decoded(frame, y * IMAGE_WIDTH + 2 * x + 1) == spec_palette(
            frame[y * BYTES_PER_ROW + x] >> 4u8,
        ),
{
    let j0 = y * IMAGE_WIDTH + 2 * x;
    assert(j0 / 2 == y * BYTES_PER_ROW + x && j0 % 2 == 0 && (j0 + 1) / 2 == y * BYTES_PER_ROW + x
        && (j0 + 1) % 2 == 1) by (nonlinear_arith)
        requires
            j0 == y * IMAGE_WIDTH + 2 * x,
            IMAGE_WIDTH == 2 * BYTES_PER_ROW,
            0 <= x,
            0 <= y,
    ;
}

} // verus!

