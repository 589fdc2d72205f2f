//! Points, sizes, colours and pixels: the plain values that drawing
//! operations take and give.
use vstd::prelude::*;

verus! {

/// A position on a canvas. `x` grows to the right and `y` downwards; either
/// may be negative, which is off every canvas.
#[derive(Debug, Clone, Copy, PartialEq, Eq, Structural)]
pub struct Point {
    /// Column
    pub x: i32,
    /// Row
    pub y: i32,
}

impl Point {
    /// The point at column `x` and row `y`.
    pub fn new(x: i32, y: i32) -> (point: Point)
        ensures
            point == (Point { x, y }),
    {
        Point { x, y }
    }
}

/// The extent of a canvas in pixels.
#[derive(Debug, Clone, Copy, PartialEq, Eq, Structural)]
pub struct Size {
    /// Number of columns
    pub width: u32,
    /// Number of rows
    pub height: u32,
}

impl Size {
    /// The size `width` by `height`.
    pub fn new(width: u32, height: u32) -> (size: Size)
        ensures
            size == (Size { width, height }),
    {
        Size { width, height }
    }
}

/// A colour with 8 bits for each of red, green and blue.
#[derive(Debug, Clone, Copy, PartialEq, Eq, Structural)]
pub struct Rgb888 {
    /// Red intensity
    pub red: u8,
    /// Green intensity
    pub green: u8,
    /// Blue intensity
    pub blue: u8,
}

/// The colour type of the frame buffers.
pub type Color = Rgb888;

impl Rgb888 {
    /// The colour with the given intensities.
    pub fn new(red: u8, green: u8, blue: u8) -> (color: Rgb888)
        ensures
            color == (Rgb888 { red, green, blue }),
    {
        Rgb888 { red, green, blue }
    }

    /// Black: every channel off.
    pub open spec fn black() -> Rgb888 {
        Rgb888 { red: 0, green: 0, blue: 0 }
    }

    /// The red intensity.
    pub fn r(&self) -> (red: u8)
        ensures
            red == self.red,
    {
        self.red
    }

    /// The green intensity.
    pub fn g(&self) -> (green: u8)
        ensures
            green == self.green,
    {
        self.green
    }

    /// The blue intensity.
    pub fn b(&self) -> (blue: u8)
        ensures
            blue == self.blue,
    {
        self.blue
    }

    /// Whether the colour is black.
    pub fn is_black(&self) -> (black: bool)
        ensures
            black == (*self == Rgb888::black()),
    {
        self.red == 0 && self.green == 0 && self.blue == 0
    }
}

/// One pixel to draw: where, and in which colour.
#[derive(Debug, Clone, Copy, PartialEq, Eq, Structural)]
pub struct Pixel(pub Point, pub Color);

} // verus!
