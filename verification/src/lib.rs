//! Frame buffers for HUB75 RGB LED matrix panels.
//!
//! A HUB75 panel is a chain of shift registers that is scanned one row pair
//! at a time. It has no memory of its own: the controller streams, over and
//! over, one hardware word per column and a few control words per scan line.
//! This crate holds that stream in memory, word for word, and offers the
//! operations that build and change it:
//!
//! - [`bits`]: single bits and bit fields of a hardware word.
//! - [`latched`]: the word layout for panels with an external address latch,
//!   rows and frames made of such words, and [`latched::DmaFrameBuffer`],
//!   which turns 8-bit colour into bit planes by Binary Code Modulation.
//! - [`tiling`]: coordinate remapping that lets a chain of panels be drawn
//!   on as one canvas.
//! - [`graphics`]: the points, colours and pixels that the drawing
//!   operations take.
//!
//! Every executable function is verified against its contract: no operation
//! panics, indexes out of bounds or overflows on the inputs its `requires`
//! admits, and the words it leaves in memory are the ones its `ensures`
//! names. What the buffers promise beyond single calls is stated as proof
//! functions next to them: that erasing twice is erasing once, that a
//! formatted buffer is known byte for byte, that the last of several pixels
//! drawn at one place stays, that a chain of panels maps one to one onto its
//! frame buffer.
//!
//! The dimensions of a panel and the options of a target are parameters of
//! the types, so that a buffer has a fixed size and every choice is made
//! when the program is built:
//!
//! - `ROWS`, `COLS`: the size of the panel; `NROWS` is [`compute_rows`] of
//!   `ROWS`;
//! - `BITS`: the bits per colour channel, from 1 to 8; `FRAME_COUNT` is
//!   [`compute_frame_count`] of `BITS`;
//! - `ESP32_ORDERING`: store the words in the byte order that the I2S
//!   peripheral of the first-generation ESP32 needs;
//! - `SKIP_BLACK_PIXELS`: leave the buffer as it is when a black pixel is
//!   drawn.
use vstd::prelude::*;

pub mod bits;
pub mod graphics;
pub mod latched;
pub mod tiling;

pub use graphics::Color;

use graphics::{Pixel, Point};

verus! {

/// Width of the words that a frame buffer hands to the transfer engine.
#[derive(Debug, Clone, Copy, PartialEq, Eq, Structural)]
pub enum WordSize {
    /// 8-bit words
    Eight,
    /// 16-bit words
    Sixteen,
}

/// Number of scan lines of a panel with `rows` rows: the panel drives two
/// rows at once, so this is `rows / 2`.
#[must_use]
pub fn compute_rows(rows: usize) -> (nrows: usize)
    ensures
        nrows == rows / 2,
{
    rows / 2
}

/// Number of frames that Binary Code Modulation needs for `bits` bits per
/// colour channel: `2^bits - 1`.
#[must_use]
pub fn compute_frame_count(bits: u8) -> (count: usize)
    requires
        bits < usize::BITS,
    ensures
        count == vstd::arithmetic::power2::pow2(bits as nat) - 1,
{
    proof {
        vstd::bits::lemma_usize_pow2_no_overflow(bits as nat);
        vstd::bits::lemma_usize_shl_is_mul(1usize, bits as usize);
    }
    (1usize << bits) - 1
}

/// A frame buffer that a transfer engine can stream to a panel of `ROWS`
/// rows and `COLS` columns.
pub trait FrameBuffer<
    const ROWS: usize,
    const COLS: usize,
    const NROWS: usize,
    const BITS: u8,
    const FRAME_COUNT: usize,
> {
    /// The bytes of the buffer in the order in which they lie in memory,
    /// which is the order in which the transfer engine reads them.
    spec fn memory_image(&self) -> Seq<u8>;

    /// The width of the words of which the memory image is made.
    spec fn word_size(&self) -> WordSize;

    /// The width of the words that the transfer engine must send.
    fn get_word_size(&self) -> (word_size: WordSize)
        ensures
            word_size == self.word_size(),
    ;

    /// Copies the bytes of the buffer, in memory order.
    fn read_buffer(&self) -> (bytes: Vec<u8>)
        ensures
            bytes@ == self.memory_image(),
    ;
}

/// A frame buffer that takes pixels in batches.
pub trait MutableFrameBuffer<
    const ROWS: usize,
    const COLS: usize,
    const NROWS: usize,
    const BITS: u8,
    const FRAME_COUNT: usize,
>: FrameBuffer<ROWS, COLS, NROWS, BITS, FRAME_COUNT> {
    /// The dimensions and options of the type admit drawing.
    spec fn can_draw_batch() -> bool;

    /// This buffer is what drawing `pixels` in order makes of `before`.
    spec fn after_draw(&self, before: &Self, pixels: Seq<Pixel>) -> bool;

    /// Draws the pixels in order, so that of two pixels at one place the
    /// later one stays. Pixels off the canvas are ignored; drawing cannot
    /// fail.
    fn draw_iter(&mut self, pixels: &[Pixel]) -> (done: Result<(), core::convert::Infallible>)
        requires
            Self::can_draw_batch(),
        ensures
            done is Ok,
            final(self).after_draw(old(self), pixels@),
    ;
}

/// The operations by which a user changes a frame buffer pixel by pixel.
pub trait FrameBufferOperations<
    const ROWS: usize,
    const COLS: usize,
    const NROWS: usize,
    const BITS: u8,
    const FRAME_COUNT: usize,
>: FrameBuffer<ROWS, COLS, NROWS, BITS, FRAME_COUNT> {
    /// The dimensions and options of the type admit setting pixels.
    spec fn can_set_pixel() -> bool;

    /// This buffer is what erasing makes of `before`.
    spec fn after_erase(&self, before: &Self) -> bool;

    /// This buffer is what setting the pixel at `p` to `color` makes of
    /// `before`.
    spec fn after_set_pixel(&self, before: &Self, p: Point, color: Color) -> bool;

    /// Turns all colours off and keeps the control bits. This is the usual
    /// way to clear the canvas.
    fn erase(&mut self)
        ensures
            final(self).after_erase(old(self)),
    ;

    /// Sets the pixel at `p` to `color`. A point off the canvas is ignored.
    fn set_pixel(&mut self, p: Point, color: Color)
        requires
            Self::can_set_pixel(),
        ensures
            final(self).after_set_pixel(old(self), p, color),
    ;
}

} // verus!
