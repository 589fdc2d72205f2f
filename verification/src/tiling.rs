//! Several panels chained together and drawn on as one canvas.
//!
//! The panels of a tiled display hang on one chain, so to the transfer
//! engine they are a single panel that is as high as one of them and as wide
//! as all of them together. A [`PixelRemapper`] says where in that long
//! frame buffer each point of the canvas lies, and a [`TiledFrameBuffer`]
//! puts a remapper in front of a frame buffer.
//!
//! Supported layouts:
//! - [`ChainTopRightDown`]
use core::marker::PhantomData;
use vstd::prelude::*;

use crate::graphics::{Color, Pixel, Point, Size};
use crate::{FrameBuffer, FrameBufferOperations, MutableFrameBuffer, WordSize};

verus! {

/// The number of columns that the frame buffer behind a tiled display
/// needs: those of one panel times the number of panels.
#[must_use]
pub fn compute_tiled_cols(cols: usize, num_panels_wide: usize, num_panels_high: usize) -> (tiled:
    usize)
    requires
        cols * num_panels_wide <= usize::MAX,
        cols * num_panels_wide * num_panels_high <= usize::MAX,
    ensures
        tiled == cols * num_panels_wide * num_panels_high,
{
    cols * num_panels_wide * num_panels_high
}

/// Whether a remapper takes the point: it is on the canvas, or it has a
/// negative coordinate and lies off every canvas.
pub open spec fn remappable<M: PixelRemapper + ?Sized>(point: Point) -> bool {
    point.x < 0 || point.y < 0 || (point.x < M::VIRT_COLS && point.y < M::VIRT_ROWS)
}

/// Where a remapper puts a point: a point with a negative coordinate stays
/// where it is, a point on the canvas goes to its place in the frame
/// buffer, each coordinate cut to 16 bits.
pub open spec fn spec_remap_point<M: PixelRemapper + ?Sized>(point: Point) -> Point {
    if point.x < 0 || point.y < 0 {
        point
    } else {
        let (x, y) = M::spec_remap_xy(point.x as int, point.y as int);
        Point { x: ((x as usize) as u16) as i32, y: ((y as usize) as u16) as i32 }
    }
}

/// A mapping from the points of a canvas to those of the frame buffer that
/// drives it.
pub trait PixelRemapper {
    /// Number of rows of the canvas
    const VIRT_ROWS: usize;

    /// Number of columns of the canvas
    const VIRT_COLS: usize;

    /// Number of rows of the frame buffer
    const FB_ROWS: usize;

    /// Number of columns of the frame buffer
    const FB_COLS: usize;

    /// The dimensions are sound: the sizes above fit in `usize` and the
    /// mapping is defined on the whole canvas.
    spec fn valid() -> bool;

    /// The place in the frame buffer, as (column, row), of the point in
    /// column `x` and row `y` of the canvas.
    spec fn spec_remap_xy(x: int, y: int) -> (int, int);

    /// Every point of the canvas has its place within the frame buffer.
    proof fn lemma_remap_xy_in_bounds(x: int, y: int)
        requires
            Self::valid(),
            0 <= x < Self::VIRT_COLS,
            0 <= y < Self::VIRT_ROWS,
        ensures
            0 <= Self::spec_remap_xy(x, y).0 < Self::FB_COLS,
            0 <= Self::spec_remap_xy(x, y).1 < Self::FB_ROWS,
    ;

    /// Moves a pixel of the canvas to its place in the frame buffer (see
    /// [`PixelRemapper::remap_point`]) and keeps its colour.
    fn remap(pixel: Pixel) -> (mapped: Pixel)
        requires
            Self::valid(),
            pixel.0.x < 0 || pixel.0.y < 0 || (pixel.0.x < Self::VIRT_COLS && pixel.0.y
                < Self::VIRT_ROWS),
        ensures
            mapped.1 == pixel.1,
            pixel.0.x < 0 || pixel.0.y < 0 ==> mapped.0 == pixel.0,
            pixel.0.x >= 0 && pixel.0.y >= 0 ==> mapped.0 == (Point {
                x: ((Self::spec_remap_xy(pixel.0.x as int, pixel.0.y as int).0 as usize) as u16) as i32,
                y: ((Self::spec_remap_xy(pixel.0.x as int, pixel.0.y as int).1 as usize) as u16) as i32,
            }),
    {
        Pixel(Self::remap_point(pixel.0), pixel.1)
    }

    /// Moves a point of the canvas to its place in the frame buffer. A
    /// point with a negative coordinate is off the canvas and stays where it
    /// is.
    #[must_use]
    fn remap_point(point: Point) -> (mapped: Point)
        requires
            Self::valid(),
            point.x < 0 || point.y < 0 || (point.x < Self::VIRT_COLS && point.y < Self::VIRT_ROWS),
        ensures
            point.x < 0 || point.y < 0 ==> mapped == point,
            point.x >= 0 && point.y >= 0 ==> mapped == (Point {
                x: ((Self::spec_remap_xy(point.x as int, point.y as int).0 as usize) as u16) as i32,
                y: ((Self::spec_remap_xy(point.x as int, point.y as int).1 as usize) as u16) as i32,
            }),
    {
        if point.x < 0 || point.y < 0 {
            return point;
        }
        let (re_x, re_y) = Self::remap_xy(point.x as usize, point.y as usize);
        Point {
            x: (#[verifier::truncate]
            (re_x as u16)) as i32,
            y: (#[verifier::truncate]
            (re_y as u16)) as i32,
        }
    }

    /// Gives the place in the frame buffer, as (column, row), of the point
    /// in column `x` and row `y` of the canvas.
    fn remap_xy(x: usize, y: usize) -> (mapped: (usize, usize))
        requires
            Self::valid(),
            x < Self::VIRT_COLS,
            y < Self::VIRT_ROWS,
        ensures
            mapped.0 == Self::spec_remap_xy(x as int, y as int).0,
            mapped.1 == Self::spec_remap_xy(x as int, y as int).1,
    ;

    /// The size of the canvas as (rows, columns).
    #[must_use]
    fn virtual_size() -> (size: (usize, usize))
        ensures
            size == (Self::VIRT_ROWS, Self::VIRT_COLS),
    {
        (Self::VIRT_ROWS, Self::VIRT_COLS)
    }

    /// The size of the frame buffer as (rows, columns).
    #[must_use]
    fn fb_size() -> (size: (usize, usize))
        ensures
            size == (Self::FB_ROWS, Self::FB_COLS),
    {
        (Self::FB_ROWS, Self::FB_COLS)
    }
}

/// Panels chained from the top right corner, seen from the front: along the
/// top row to the left, then down to the next row and back to the right, and
/// so on. The chain ends in the bottom row, whose panels come first in the
/// frame buffer. Every second row of panels, counted from the bottom, hangs
/// upside down.
///
/// `PANEL_ROWS` and `PANEL_COLS` are the dimensions of one panel,
/// `TILE_ROWS` and `TILE_COLS` the numbers of panels stacked and side by
/// side.
///
/// Every point of the canvas has a place in the frame buffer. With an odd
/// number of rows of panels no two points share one (see
/// [`ChainTopRightDown::lemma_remap_bijective`]); with an even number the
/// mirrored rows of panels fall on the places of the straight ones.
pub struct ChainTopRightDown<
    const PANEL_ROWS: usize,
    const PANEL_COLS: usize,
    const TILE_ROWS: usize,
    const TILE_COLS: usize,
> {}

impl<
    const PANEL_ROWS: usize,
    const PANEL_COLS: usize,
    const TILE_ROWS: usize,
    const TILE_COLS: usize,
> ChainTopRightDown<PANEL_ROWS, PANEL_COLS, TILE_ROWS, TILE_COLS> {
    /// The row of panels, counted from the bottom, that holds row `y` of the
    /// canvas.
    pub open spec fn band(y: int) -> int {
        TILE_ROWS - y / (PANEL_ROWS as int) - 1
    }

    /// The canvas is `TILE_ROWS` panels high and `TILE_COLS` panels wide;
    /// the frame buffer is one panel high and as wide as `TILE_ROWS`
    /// canvases.
    pub proof fn lemma_sizes()
        requires
            <Self as PixelRemapper>::valid(),
        ensures
            <Self as PixelRemapper>::VIRT_ROWS == PANEL_ROWS * TILE_ROWS,
            <Self as PixelRemapper>::VIRT_COLS == PANEL_COLS * TILE_COLS,
            <Self as PixelRemapper>::FB_ROWS == PANEL_ROWS,
            <Self as PixelRemapper>::FB_COLS == TILE_ROWS * (PANEL_COLS * TILE_COLS),
    {
        assert(PANEL_COLS * TILE_ROWS * TILE_COLS == TILE_ROWS * (PANEL_COLS * TILE_COLS))
            by (nonlinear_arith);
    }

    /// A row of the canvas lies in one of the `TILE_ROWS` rows of panels,
    /// and a point of that row has its place within that row's stretch of
    /// the frame buffer.
    pub proof fn lemma_band(x: int, y: int)
        requires
            <Self as PixelRemapper>::valid(),
            0 <= x < <Self as PixelRemapper>::VIRT_COLS,
            0 <= y < <Self as PixelRemapper>::VIRT_ROWS,
        ensures
            0 <= Self::band(y) < TILE_ROWS,
            0 <= Self::band(y) * <Self as PixelRemapper>::VIRT_COLS,
            Self::band(y) * <Self as PixelRemapper>::VIRT_COLS + x
                < <Self as PixelRemapper>::FB_COLS,
    {
        Self::lemma_sizes();
        let rows = PANEL_ROWS as int;
        let tiles = TILE_ROWS as int;
        let width = <Self as PixelRemapper>::VIRT_COLS as int;
        let band = Self::band(y);
        assert(0 <= y / rows < tiles) by (nonlinear_arith)
            requires
                0 <= y < rows * tiles,
                0 < rows,
        ;
        assert(0 <= band * width && band * width + x < tiles * width) by (nonlinear_arith)
            requires
                0 <= band < tiles,
                0 <= x < width,
        ;
    }

    /// Whether column `x` and row `y` are on the canvas.
    pub open spec fn on_canvas(x: int, y: int) -> bool {
        &&& 0 <= x < <Self as PixelRemapper>::VIRT_COLS
        &&& 0 <= y < <Self as PixelRemapper>::VIRT_ROWS
    }

    /// Whether column `x` and row `y` are in the frame buffer.
    pub open spec fn in_frame_buffer(x: int, y: int) -> bool {
        &&& 0 <= x < <Self as PixelRemapper>::FB_COLS
        &&& 0 <= y < <Self as PixelRemapper>::FB_ROWS
    }

    /// The point of the canvas, as (column, row), that has its place in
    /// column `x` and row `y` of the frame buffer, where the number of rows
    /// of panels is odd.
    pub open spec fn spec_unmap_xy(x: int, y: int) -> (int, int) {
        let width = <Self as PixelRemapper>::VIRT_COLS as int;
        let stretch = x / width;
        if stretch % 2 == 1 {
            ((stretch + 1) * width - 1 - x, stretch * PANEL_ROWS + (PANEL_ROWS - 1 - y))
        } else {
            (x - stretch * width, (TILE_ROWS - 1 - stretch) * PANEL_ROWS + y)
        }
    }

    /// With an odd number of rows of panels, a point of the canvas is found
    /// again from its place in the frame buffer.
    pub proof fn lemma_unmap_remap(x: int, y: int)
        requires
            <Self as PixelRemapper>::valid(),
            TILE_ROWS % 2 == 1,
            Self::on_canvas(x, y),
        ensures
            Self::spec_unmap_xy(
                <Self as PixelRemapper>::spec_remap_xy(x, y).0,
                <Self as PixelRemapper>::spec_remap_xy(x, y).1,
            ) == (x, y),
    {
        Self::lemma_sizes();
        Self::lemma_band(x, y);
        let width = <Self as PixelRemapper>::VIRT_COLS as int;
        let rows = PANEL_ROWS as int;
        let tiles = TILE_ROWS as int;
        let band = Self::band(y);
        let mapped = <Self as PixelRemapper>::spec_remap_xy(x, y);
        vstd::arithmetic::div_mod::lemma_fundamental_div_mod(y, rows);
        assert(rows * (y / rows) == (y / rows) * rows) by (nonlinear_arith);
        if band % 2 == 1 {
            let stretch = tiles - 1 - band;
            assert(mapped.0 == stretch * width + (width - 1 - x)) by (nonlinear_arith)
                requires
                    mapped.0 == tiles * width - x - band * width - 1,
                    stretch == tiles - 1 - band,
            ;
            vstd::arithmetic::div_mod::lemma_fundamental_div_mod_converse(
                mapped.0,
                width,
                stretch,
                width - 1 - x,
            );
            assert((stretch + 1) * width - 1 - mapped.0 == x) by (nonlinear_arith)
                requires
                    mapped.0 == stretch * width + (width - 1 - x),
            ;
            assert(stretch == y / rows);
        } else {
            vstd::arithmetic::div_mod::lemma_fundamental_div_mod_converse(
                mapped.0,
                width,
                band,
                x,
            );
            assert(tiles - 1 - band == y / rows);
        }
    }

    /// With an odd number of rows of panels, every place in the frame
    /// buffer belongs to a point of the canvas.
    pub proof fn lemma_remap_unmap(x: int, y: int)
        requires
            <Self as PixelRemapper>::valid(),
            TILE_ROWS % 2 == 1,
            Self::in_frame_buffer(x, y),
        ensures
            Self::on_canvas(Self::spec_unmap_xy(x, y).0, Self::spec_unmap_xy(x, y).1),
            <Self as PixelRemapper>::spec_remap_xy(
                Self::spec_unmap_xy(x, y).0,
                Self::spec_unmap_xy(x, y).1,
            ) == (x, y),
    {
        Self::lemma_sizes();
        let width = <Self as PixelRemapper>::VIRT_COLS as int;
        let rows = PANEL_ROWS as int;
        let tiles = TILE_ROWS as int;
        assert(width > 0) by (nonlinear_arith)
            requires
                0 <= x < tiles * width,
                0 <= width,
        ;
        let stretch = x / width;
        vstd::arithmetic::div_mod::lemma_fundamental_div_mod(x, width);
        assert(width * stretch == stretch * width) by (nonlinear_arith);
        let offset = x % width;
        assert(0 <= stretch < tiles) by (nonlinear_arith)
            requires
                0 <= x < tiles * width,
                x == stretch * width + offset,
                0 <= offset < width,
        ;
        let source = Self::spec_unmap_xy(x, y);
        let line = if stretch % 2 == 1 {
            stretch
        } else {
            tiles - 1 - stretch
        };
        let within = if stretch % 2 == 1 {
            rows - 1 - y
        } else {
            y
        };
        assert(source.1 == line * rows + within);
        vstd::arithmetic::div_mod::lemma_fundamental_div_mod_converse(
            source.1,
            rows,
            line,
            within,
        );
        assert(0 <= line * rows && line * rows + within < rows * tiles) by (nonlinear_arith)
            requires
                0 <= line < tiles,
                0 <= within < rows,
        ;
        let band = Self::band(source.1);
        assert(band == tiles - 1 - line);
        if stretch % 2 == 1 {
            assert(source.0 == (stretch + 1) * width - 1 - x);
            assert(source.0 == width - 1 - offset) by (nonlinear_arith)
                requires
                    source.0 == (stretch + 1) * width - 1 - x,
                    x == stretch * width + offset,
            ;
            assert(tiles * width - source.0 - band * width - 1 == x) by (nonlinear_arith)
                requires
                    source.0 == width - 1 - offset,
                    x == stretch * width + offset,
                    band == tiles - 1 - stretch,
            ;
        } else {
            assert(source.0 == offset);
            assert(band * width + source.0 == x);
        }
    }

    /// With an odd number of rows of panels, or with no pixels at all, the
    /// mapping is one to one from the canvas onto the frame buffer: every
    /// point of the canvas has a place in the frame buffer, no two points
    /// share a place, and every place belongs to a point.
    pub proof fn lemma_remap_bijective()
        requires
            <Self as PixelRemapper>::valid(),
            TILE_ROWS % 2 == 1 || <Self as PixelRemapper>::FB_COLS == 0,
        ensures
            forall|x: int, y: int|
                Self::on_canvas(x, y) ==> Self::in_frame_buffer(
                    (#[trigger] <Self as PixelRemapper>::spec_remap_xy(x, y)).0,
                    <Self as PixelRemapper>::spec_remap_xy(x, y).1,
                ),
            forall|x1: int, y1: int, x2: int, y2: int|
                Self::on_canvas(x1, y1) && Self::on_canvas(x2, y2)
                    && #[trigger] <Self as PixelRemapper>::spec_remap_xy(x1, y1)
                    == #[trigger] <Self as PixelRemapper>::spec_remap_xy(x2, y2) ==> x1 == x2 && y1
                    == y2,
            forall|x: int, y: int| #[trigger]
                Self::in_frame_buffer(x, y) ==> exists|source_x: int, source_y: int|
                    Self::on_canvas(source_x, source_y)
                        && #[trigger] <Self as PixelRemapper>::spec_remap_xy(source_x, source_y) == (
                    x,
                    y,
                ),
    {
        Self::lemma_sizes();
        assert forall|x: int, y: int| Self::on_canvas(x, y) implies Self::in_frame_buffer(
            (#[trigger] <Self as PixelRemapper>::spec_remap_xy(x, y)).0,
            <Self as PixelRemapper>::spec_remap_xy(x, y).1,
        ) by {
            <Self as PixelRemapper>::lemma_remap_xy_in_bounds(x, y);
        }
        if TILE_ROWS % 2 == 1 {
            assert forall|x1: int, y1: int, x2: int, y2: int|
                Self::on_canvas(x1, y1) && Self::on_canvas(x2, y2)
                    && #[trigger] <Self as PixelRemapper>::spec_remap_xy(x1, y1)
                    == #[trigger] <Self as PixelRemapper>::spec_remap_xy(
                    x2,
                    y2,
                ) implies x1 == x2 && y1 == y2 by {
                Self::lemma_unmap_remap(x1, y1);
                Self::lemma_unmap_remap(x2, y2);
            }
            assert forall|x: int, y: int| #[trigger] Self::in_frame_buffer(x, y) implies exists|
                source_x: int,
                source_y: int,
            |
                Self::on_canvas(source_x, source_y)
                    && #[trigger] <Self as PixelRemapper>::spec_remap_xy(source_x, source_y) == (
                    x,
                    y,
                ) by {
                Self::lemma_remap_unmap(x, y);
                let source = Self::spec_unmap_xy(x, y);
                assert(Self::on_canvas(source.0, source.1)
                    && <Self as PixelRemapper>::spec_remap_xy(source.0, source.1) == (x, y));
            }
        } else {
            assert forall|x1: int, y1: int| Self::on_canvas(x1, y1) implies false by {
                assert(TILE_ROWS == 0 || PANEL_COLS * TILE_COLS == 0) by (nonlinear_arith)
                    requires
                        TILE_ROWS * (PANEL_COLS * TILE_COLS) == 0,
                ;
                if TILE_ROWS == 0 {
                    assert(PANEL_ROWS * TILE_ROWS == 0) by (nonlinear_arith)
                        requires
                            TILE_ROWS == 0,
                    ;
                }
            }
        }
    }
}

impl<
    const PANEL_ROWS: usize,
    const PANEL_COLS: usize,
    const TILE_ROWS: usize,
    const TILE_COLS: usize,
> PixelRemapper for ChainTopRightDown<PANEL_ROWS, PANEL_COLS, TILE_ROWS, TILE_COLS> {
    const VIRT_ROWS: usize = PANEL_ROWS * TILE_ROWS;

    const VIRT_COLS: usize = PANEL_COLS * TILE_COLS;

    const FB_ROWS: usize = PANEL_ROWS;

    const FB_COLS: usize = PANEL_COLS * TILE_ROWS * TILE_COLS;

    open spec fn valid() -> bool {
        &&& 0 < PANEL_ROWS
        &&& PANEL_ROWS * TILE_ROWS <= usize::MAX
        &&& PANEL_COLS * TILE_COLS <= usize::MAX
        &&& PANEL_COLS * TILE_ROWS <= usize::MAX
        &&& PANEL_COLS * TILE_ROWS * TILE_COLS <= usize::MAX
    }

    /// A panel in an even row of panels, counted from the bottom, is mapped
    /// straight; one in an odd row hangs upside down and is mirrored in both
    /// axes.
    open spec fn spec_remap_xy(x: int, y: int) -> (int, int) {
        let row = Self::band(y);
        if row % 2 == 1 {
            (
                Self::FB_COLS - x - row * Self::VIRT_COLS - 1,
                PANEL_ROWS - 1 - y % (PANEL_ROWS as int),
            )
        } else {
            (row * Self::VIRT_COLS + x, y % (PANEL_ROWS as int))
        }
    }

    proof fn lemma_remap_xy_in_bounds(x: int, y: int) {
        Self::lemma_sizes();
        Self::lemma_band(x, y);
    }

    fn remap_xy(x: usize, y: usize) -> (mapped: (usize, usize)) {
        proof {
            Self::lemma_sizes();
            Self::lemma_band(x as int, y as int);
        }
        let row = TILE_ROWS - y / PANEL_ROWS - 1;
        if row % 2 == 1 {
            (Self::FB_COLS - x - (row * Self::VIRT_COLS) - 1, PANEL_ROWS - 1 - (y % PANEL_ROWS))
        } else {
            ((row * Self::VIRT_COLS) + x, y % PANEL_ROWS)
        }
    }
}

/// Several panels driven as one canvas: a frame buffer `F` for the whole
/// chain with the remapper `M` in front of it.
pub struct TiledFrameBuffer<
    F,
    M: PixelRemapper,
    const PANEL_ROWS: usize,
    const PANEL_COLS: usize,
    const NROWS: usize,
    const BITS: u8,
    const FRAME_COUNT: usize,
    const TILE_ROWS: usize,
    const TILE_COLS: usize,
    const FB_COLS: usize,
>(pub F, pub PhantomData<M>);

/// The pixels of `pixels` that a remapper takes, each moved to its place in
/// the frame buffer, in their order. Pixels with a coordinate beyond the
/// canvas are left out.
pub open spec fn spec_remap_all<M: PixelRemapper + ?Sized>(pixels: Seq<Pixel>) -> Seq<Pixel>
    decreases pixels.len(),
{
    if pixels.len() == 0 {
        Seq::empty()
    } else {
        let before = spec_remap_all::<M>(pixels.drop_last());
        let pixel = pixels.last();
        if remappable::<M>(pixel.0) {
            before.push(Pixel(spec_remap_point::<M>(pixel.0), pixel.1))
        } else {
            before
        }
    }
}

impl<
    F: Default,
    M: PixelRemapper,
    const PANEL_ROWS: usize,
    const PANEL_COLS: usize,
    const NROWS: usize,
    const BITS: u8,
    const FRAME_COUNT: usize,
    const TILE_ROWS: usize,
    const TILE_COLS: usize,
    const FB_COLS: usize,
> TiledFrameBuffer<
    F,
    M,
    PANEL_ROWS,
    PANEL_COLS,
    NROWS,
    BITS,
    FRAME_COUNT,
    TILE_ROWS,
    TILE_COLS,
    FB_COLS,
> {
    /// A tiled display on the frame buffer that `F::default()` gives.
    #[must_use]
    pub fn new() -> (fb: Self)
        ensures
            call_ensures(F::default, (), fb.0),
    {
        Self(F::default(), PhantomData)
    }
}

impl<
    F: Default,
    M: PixelRemapper,
    const PANEL_ROWS: usize,
    const PANEL_COLS: usize,
    const NROWS: usize,
    const BITS: u8,
    const FRAME_COUNT: usize,
    const TILE_ROWS: usize,
    const TILE_COLS: usize,
    const FB_COLS: usize,
> Default for TiledFrameBuffer<
    F,
    M,
    PANEL_ROWS,
    PANEL_COLS,
    NROWS,
    BITS,
    FRAME_COUNT,
    TILE_ROWS,
    TILE_COLS,
    FB_COLS,
> {
    fn default() -> (fb: Self)
        ensures
            call_ensures(F::default, (), fb.0),
    {
        Self::new()
    }
}

impl<
    F,
    M: PixelRemapper,
    const PANEL_ROWS: usize,
    const PANEL_COLS: usize,
    const NROWS: usize,
    const BITS: u8,
    const FRAME_COUNT: usize,
    const TILE_ROWS: usize,
    const TILE_COLS: usize,
    const FB_COLS: usize,
> TiledFrameBuffer<
    F,
    M,
    PANEL_ROWS,
    PANEL_COLS,
    NROWS,
    BITS,
    FRAME_COUNT,
    TILE_ROWS,
    TILE_COLS,
    FB_COLS,
> {
    /// The size of the canvas, each dimension cut to 32 bits.
    pub fn size(&self) -> (size: Size)
        ensures
            size == (Size { width: M::VIRT_COLS as u32, height: M::VIRT_ROWS as u32 }),
    {
        Size::new(
            #[verifier::truncate]
            (M::virtual_size().1 as u32),
            #[verifier::truncate]
            (M::virtual_size().0 as u32),
        )
    }

    /// Whether `point` is on the canvas or has a negative coordinate.
    fn takes(point: Point) -> (taken: bool)
        ensures
            taken == remappable::<M>(point),
    {
        let (rows, cols) = M::virtual_size();
        point.x < 0 || point.y < 0 || ((point.x as usize) < cols && (point.y as usize) < rows)
    }
}

impl<
    F: FrameBuffer<PANEL_ROWS, FB_COLS, NROWS, BITS, FRAME_COUNT>,
    M: PixelRemapper,
    const PANEL_ROWS: usize,
    const PANEL_COLS: usize,
    const NROWS: usize,
    const BITS: u8,
    const FRAME_COUNT: usize,
    const TILE_ROWS: usize,
    const TILE_COLS: usize,
    const FB_COLS: usize,
> FrameBuffer<PANEL_ROWS, PANEL_COLS, NROWS, BITS, FRAME_COUNT> for TiledFrameBuffer<
    F,
    M,
    PANEL_ROWS,
    PANEL_COLS,
    NROWS,
    BITS,
    FRAME_COUNT,
    TILE_ROWS,
    TILE_COLS,
    FB_COLS,
> {
    /// The bytes of the frame buffer behind the canvas.
    open spec fn memory_image(&self) -> Seq<u8> {
        self.0.memory_image()
    }

    /// The words are those of the frame buffer behind the canvas, and so is
    /// their width.
    open spec fn word_size(&self) -> WordSize {
        self.0.word_size()
    }

    fn get_word_size(&self) -> (word_size: WordSize) {
        self.0.get_word_size()
    }

    fn read_buffer(&self) -> (bytes: Vec<u8>) {
        self.0.read_buffer()
    }
}

impl<
    F: MutableFrameBuffer<PANEL_ROWS, FB_COLS, NROWS, BITS, FRAME_COUNT>,
    M: PixelRemapper,
    const PANEL_ROWS: usize,
    const PANEL_COLS: usize,
    const NROWS: usize,
    const BITS: u8,
    const FRAME_COUNT: usize,
    const TILE_ROWS: usize,
    const TILE_COLS: usize,
    const FB_COLS: usize,
> MutableFrameBuffer<PANEL_ROWS, PANEL_COLS, NROWS, BITS, FRAME_COUNT> for TiledFrameBuffer<
    F,
    M,
    PANEL_ROWS,
    PANEL_COLS,
    NROWS,
    BITS,
    FRAME_COUNT,
    TILE_ROWS,
    TILE_COLS,
    FB_COLS,
> {
    open spec fn can_draw_batch() -> bool {
        M::valid() && F::can_draw_batch()
    }

    /// The frame buffer behind the canvas is what drawing the remapped
    /// pixels makes of it.
    open spec fn after_draw(&self, before: &Self, pixels: Seq<Pixel>) -> bool {
        self.0.after_draw(&before.0, spec_remap_all::<M>(pixels))
    }

    /// Moves every pixel to its place in the frame buffer and draws them
    /// there, in their order. Pixels beyond the canvas are left out.
    fn draw_iter(&mut self, pixels: &[Pixel]) -> (done: Result<(), core::convert::Infallible>) {
        let mut mapped: Vec<Pixel> = Vec::new();
        let mut i: usize = 0;
        while i < pixels.len()
            invariant
                i <= pixels.len(),
                M::valid(),
                mapped@ == spec_remap_all::<M>(pixels@.take(i as int)),
            decreases pixels.len() - i,
        {
            let pixel = pixels[i];
            proof {
                assert(pixels@.take(i + 1).drop_last() =~= pixels@.take(i as int));
            }
            if Self::takes(pixel.0) {
                mapped.push(M::remap(pixel));
            }
            i += 1;
        }
        proof {
            assert(pixels@.take(pixels.len() as int) =~= pixels@);
        }
        self.0.draw_iter(mapped.as_slice())
    }
}

impl<
    F: FrameBufferOperations<PANEL_ROWS, FB_COLS, NROWS, BITS, FRAME_COUNT>,
    M: PixelRemapper,
    const PANEL_ROWS: usize,
    const PANEL_COLS: usize,
    const NROWS: usize,
    const BITS: u8,
    const FRAME_COUNT: usize,
    const TILE_ROWS: usize,
    const TILE_COLS: usize,
    const FB_COLS: usize,
> FrameBufferOperations<PANEL_ROWS, PANEL_COLS, NROWS, BITS, FRAME_COUNT> for TiledFrameBuffer<
    F,
    M,
    PANEL_ROWS,
    PANEL_COLS,
    NROWS,
    BITS,
    FRAME_COUNT,
    TILE_ROWS,
    TILE_COLS,
    FB_COLS,
> {
    open spec fn can_set_pixel() -> bool {
        M::valid() && F::can_set_pixel()
    }

    /// The frame buffer behind the canvas is erased.
    open spec fn after_erase(&self, before: &Self) -> bool {
        self.0.after_erase(&before.0)
    }

    /// The frame buffer behind the canvas has the pixel set at the place to
    /// which `p` is remapped; for a point beyond the canvas nothing changes.
    open spec fn after_set_pixel(&self, before: &Self, p: Point, color: Color) -> bool {
        if remappable::<M>(p) {
            self.0.after_set_pixel(&before.0, spec_remap_point::<M>(p), color)
        } else {
            *self == *before
        }
    }

    fn erase(&mut self) {
        self.0.erase();
    }

    fn set_pixel(&mut self, p: Point, color: Color) {
        if Self::takes(p) {
            self.0.set_pixel(M::remap_point(p), color);
        }
    }
}

} // verus!
