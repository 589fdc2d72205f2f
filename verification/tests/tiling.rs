use hub75_framebuffer::graphics::{Pixel, Point, Size};
use hub75_framebuffer::latched::DmaFrameBuffer;
use hub75_framebuffer::tiling::{
    compute_tiled_cols, ChainTopRightDown, PixelRemapper, TiledFrameBuffer,
};
use hub75_framebuffer::{compute_frame_count, compute_rows, Color};

const RED: Color = Color { red: 255, green: 0, blue: 0 };

#[test]
fn test_virtual_size_function_with_equal_rows_and_cols() {
    const ROWS_IN_PANEL: usize = 32;
    const COLS_IN_PANEL: usize = 64;
    type PanelChain = ChainTopRightDown<ROWS_IN_PANEL, COLS_IN_PANEL, 3, 3>;
    let virt_size = PanelChain::virtual_size();
    assert_eq!(virt_size, (ROWS_IN_PANEL * 3, COLS_IN_PANEL * 3));
}

#[test]
fn test_virtual_size_function_with_uneven_rows_and_cols() {
    const ROWS_IN_PANEL: usize = 32;
    const COLS_IN_PANEL: usize = 64;
    type PanelChain = ChainTopRightDown<ROWS_IN_PANEL, COLS_IN_PANEL, 5, 3>;
    let virt_size = PanelChain::virtual_size();
    assert_eq!(virt_size, (ROWS_IN_PANEL * 5, COLS_IN_PANEL * 3));
}

#[test]
fn test_virtual_size_function_with_single_column() {
    const ROWS_IN_PANEL: usize = 32;
    const COLS_IN_PANEL: usize = 64;
    type PanelChain = ChainTopRightDown<ROWS_IN_PANEL, COLS_IN_PANEL, 3, 1>;
    let virt_size = PanelChain::virtual_size();
    assert_eq!(virt_size, (ROWS_IN_PANEL * 3, COLS_IN_PANEL));
}

#[test]
fn test_fb_size_function_with_equal_rows_and_cols() {
    const ROWS_IN_PANEL: usize = 32;
    const COLS_IN_PANEL: usize = 64;
    type PanelChain = ChainTopRightDown<ROWS_IN_PANEL, COLS_IN_PANEL, 3, 3>;
    let virt_size = PanelChain::fb_size();
    assert_eq!(virt_size, (ROWS_IN_PANEL, COLS_IN_PANEL * 9));
}

#[test]
fn test_fb_size_function_with_uneven_rows_and_cols() {
    const ROWS_IN_PANEL: usize = 32;
    const COLS_IN_PANEL: usize = 64;
    type PanelChain = ChainTopRightDown<ROWS_IN_PANEL, COLS_IN_PANEL, 5, 3>;
    let virt_size = PanelChain::fb_size();
    assert_eq!(virt_size, (ROWS_IN_PANEL, COLS_IN_PANEL * 15));
}

#[test]
fn test_fb_size_function_with_single_column() {
    const ROWS_IN_PANEL: usize = 32;
    const COLS_IN_PANEL: usize = 64;
    type PanelChain = ChainTopRightDown<ROWS_IN_PANEL, COLS_IN_PANEL, 3, 1>;
    let virt_size = PanelChain::fb_size();
    assert_eq!(virt_size, (ROWS_IN_PANEL, COLS_IN_PANEL * 3));
}

#[test]
fn test_pixel_remap_top_right_down_point_in_origin() {
    type PanelChain = ChainTopRightDown<32, 64, 3, 3>;

    let pixel = PanelChain::remap(Pixel(Point::new(0, 0), RED));
    assert_eq!(pixel.0, Point::new(384, 0));
}

#[test]
fn test_pixel_remap_top_right_down_point_in_bottom_left_corner() {
    type PanelChain = ChainTopRightDown<32, 64, 3, 3>;

    let pixel = PanelChain::remap(Pixel(Point::new(0, 95), RED));
    assert_eq!(pixel.0, Point::new(0, 31));
}

#[test]
fn test_pixel_remap_top_right_down_point_in_bottom_right_corner() {
    type PanelChain = ChainTopRightDown<32, 64, 3, 3>;

    let pixel = PanelChain::remap(Pixel(Point::new(191, 95), RED));
    assert_eq!(pixel.0, Point::new(191, 31));
}

#[test]
fn test_pixel_remap_top_right_down_point_on_x_right_edge_of_first_panel() {
    type PanelChain = ChainTopRightDown<32, 64, 3, 3>;

    let pixel = PanelChain::remap(Pixel(Point::new(63, 0), RED));
    assert_eq!(pixel.0, Point::new(447, 0));
}

#[test]
fn test_pixel_remap_top_right_down_point_on_x_left_edge_of_second_panel() {
    type PanelChain = ChainTopRightDown<32, 64, 3, 3>;

    let pixel = PanelChain::remap(Pixel(Point::new(64, 0), RED));
    assert_eq!(pixel.0, Point::new(448, 0));
}

#[test]
fn test_pixel_remap_top_right_down_point_on_y_bottom_edge_of_first_panel() {
    type PanelChain = ChainTopRightDown<32, 64, 3, 3>;

    let pixel = PanelChain::remap(Pixel(Point::new(0, 31), RED));
    assert_eq!(pixel.0, Point::new(384, 31));
}

#[test]
fn test_pixel_remap_top_right_down_point_on_y_top_edge_of_fourth_panel() {
    type PanelChain = ChainTopRightDown<32, 64, 3, 3>;

    let pixel = PanelChain::remap(Pixel(Point::new(0, 32), RED));
    assert_eq!(pixel.0, Point::new(383, 31));
}

#[test]
fn test_pixel_remap_top_right_down_point_slightly_to_the_top_middle() {
    type PanelChain = ChainTopRightDown<32, 64, 3, 3>;

    let pixel = PanelChain::remap(Pixel(Point::new(100, 40), RED));
    assert_eq!(pixel.0, Point::new(283, 23));
}

#[test]
fn test_pixel_remap_negative_pixel_does_not_remap() {
    type PanelChain = ChainTopRightDown<32, 64, 3, 3>;

    let pixel = PanelChain::remap(Pixel(Point::new(-5, 40), RED));
    assert_eq!(pixel.0, Point::new(-5, 40));
}

#[test]
fn test_compute_tiled_cols() {
    assert_eq!(192, compute_tiled_cols(32, 3, 2));
}

#[test]
fn test_tiling_framebuffer_canvas_size() {
    const TILED_COLS: usize = 3;
    const TILED_ROWS: usize = 3;
    const ROWS: usize = 32;
    const PANEL_COLS: usize = 64;
    const FB_COLS: usize = PANEL_COLS * TILED_ROWS * TILED_COLS;
    const BITS: u8 = 2;
    const NROWS: usize = ROWS / 2;
    const FRAME_COUNT: usize = (1 << BITS) - 1;

    assert_eq!(FB_COLS, compute_tiled_cols(PANEL_COLS, TILED_ROWS, TILED_COLS));
    assert_eq!(NROWS, compute_rows(ROWS));
    assert_eq!(FRAME_COUNT, compute_frame_count(BITS));

    type FBType = DmaFrameBuffer<ROWS, FB_COLS, NROWS, BITS, FRAME_COUNT, false, false>;
    type TiledFBType = TiledFrameBuffer<
        FBType,
        ChainTopRightDown<ROWS, PANEL_COLS, TILED_ROWS, TILED_COLS>,
        ROWS,
        PANEL_COLS,
        NROWS,
        BITS,
        FRAME_COUNT,
        TILED_ROWS,
        TILED_COLS,
        FB_COLS,
    >;

    let fb = TiledFBType::new();

    assert_eq!(fb.size(), Size::new(192, 96));
}
