use hub75_framebuffer::graphics::{Pixel, Point, Size};
use hub75_framebuffer::latched::{
    address_words, color_bits, Address, DmaFrameBuffer, Entry, Frame, Row,
};
use hub75_framebuffer::tiling::{ChainTopRightDown, PixelRemapper, TiledFrameBuffer};
use hub75_framebuffer::{
    Color, FrameBuffer, FrameBufferOperations, MutableFrameBuffer, WordSize,
};

type Panel = DmaFrameBuffer<32, 64, 16, 3, 7, false, false>;
type SwappedPanel = DmaFrameBuffer<32, 64, 16, 3, 7, true, false>;
type SmallPanel = DmaFrameBuffer<4, 4, 2, 1, 1, false, false>;
type SmallSwappedPanel = DmaFrameBuffer<4, 4, 2, 1, 1, true, false>;

// The colour bits of a pixel in one frame, read from the words
fn read_pixel<const E: bool, const S: bool>(
    fb: &DmaFrameBuffer<32, 64, 16, 3, 7, E, S>,
    frame: usize,
    x: usize,
    y: usize,
) -> (bool, bool, bool) {
    let slot = if E { x ^ 2 } else { x };
    let entry = fb.frames[frame].rows[y % 16].data[slot];
    if y < 16 {
        (entry.red1(), entry.grn1(), entry.blu1())
    } else {
        (entry.red2(), entry.grn2(), entry.blu2())
    }
}

#[test]
fn test_set_pixel_reads_back_thresholds() {
    let mut fb = Panel::new();
    for (x, y) in [(0i32, 0i32), (63, 0), (0, 31), (63, 31), (10, 5), (33, 16), (7, 15)] {
        for value in [0u8, 1, 31, 32, 33, 63, 64, 95, 96, 127, 128, 200, 223, 224, 255] {
            let color = Color::new(value, 255 - value, value / 2);
            fb.set_pixel(Point::new(x, y), color);
            for n in 0..7usize {
                let threshold = (n as u32 + 1) * 32;
                let expected = (
                    color.r() as u32 >= threshold,
                    color.g() as u32 >= threshold,
                    color.b() as u32 >= threshold,
                );
                assert_eq!(read_pixel(&fb, n, x as usize, y as usize), expected);
            }
        }
    }
}

#[test]
fn test_set_pixel_changes_only_its_pixel() {
    let mut fb = Panel::new();
    let before = fb.read_buffer();
    fb.set_pixel(Point::new(10, 21), Color::new(255, 255, 255));
    let after = fb.read_buffer();
    // Row 21 is scan line 5, second sub-pixel: bits 3 to 5 of one word per frame
    let row_bytes = 64 + 4;
    let frame_bytes = 16 * row_bytes;
    let mut expected = before.clone();
    for frame in 0..7 {
        expected[frame * frame_bytes + 5 * row_bytes + 10] |= 0b0011_1000;
    }
    assert_eq!(after, expected);
}

fn check_frames_on<const BITS: u8, const FRAME_COUNT: usize>() {
    let mut previous = 0;
    for v in 0..=255u8 {
        let on = DmaFrameBuffer::<32, 64, 16, BITS, FRAME_COUNT, false, false>::frames_on(v);
        assert_eq!(on, (v as usize) >> (8 - BITS));
        assert_eq!(on, v as usize / (256 >> BITS));
        assert!(on >= previous);
        assert!(on <= FRAME_COUNT);
        previous = on;
    }
    assert_eq!(DmaFrameBuffer::<32, 64, 16, BITS, FRAME_COUNT, false, false>::frames_on(0), 0);
    assert_eq!(
        DmaFrameBuffer::<32, 64, 16, BITS, FRAME_COUNT, false, false>::frames_on(255),
        FRAME_COUNT
    );
}

#[test]
fn test_frames_on_for_every_bit_depth() {
    check_frames_on::<1, 1>();
    check_frames_on::<2, 3>();
    check_frames_on::<3, 7>();
    check_frames_on::<4, 15>();
    check_frames_on::<5, 31>();
    check_frames_on::<6, 63>();
    check_frames_on::<7, 127>();
    check_frames_on::<8, 255>();
}

#[test]
fn test_frames_on_exact_values() {
    assert_eq!(Panel::frames_on(31), 0);
    assert_eq!(Panel::frames_on(32), 1);
    assert_eq!(Panel::frames_on(128), 4);
    assert_eq!(Panel::frames_on(223), 6);
    assert_eq!(Panel::frames_on(224), 7);
    assert_eq!(DmaFrameBuffer::<32, 64, 16, 8, 255, false, false>::frames_on(200), 200);
    assert_eq!(DmaFrameBuffer::<32, 64, 16, 0, 0, false, false>::frames_on(255), 0);
}

#[test]
fn test_erase_twice_is_erase_once() {
    let mut fb = Panel::new();
    fb.set_pixel(Point::new(3, 4), Color::new(200, 100, 50));
    fb.set_pixel(Point::new(60, 30), Color::new(255, 255, 255));
    fb.erase();
    let once = fb.read_buffer();
    fb.erase();
    assert_eq!(fb.read_buffer(), once);
}

#[test]
fn test_format_then_erase_is_format() {
    let mut fb = Panel::new();
    fb.set_pixel(Point::new(3, 4), Color::new(200, 100, 50));
    fb.format();
    let formatted = fb.read_buffer();
    assert_eq!(formatted, Panel::new().read_buffer());
    fb.erase();
    assert_eq!(fb.read_buffer(), formatted);
}

#[test]
fn test_erase_keeps_control_bits_and_clears_colours() {
    let mut fb = Panel::new();
    let fresh = fb.read_buffer();
    for y in 0..32 {
        for x in 0..64 {
            fb.set_pixel(Point::new(x, y), Color::new(255, 255, 255));
        }
    }
    assert_ne!(fb.read_buffer(), fresh);
    fb.erase();
    assert_eq!(fb.read_buffer(), fresh);
}

#[test]
fn test_format_stamps_every_row_address() {
    let mut fb = Panel { frames: [Frame::new(); 7] };
    fb.format();
    for frame in &fb.frames {
        for (r, row) in frame.rows.iter().enumerate() {
            for address in &row.address {
                assert_eq!(address.addr() as usize, r);
                assert_eq!(address.output_enable(), false);
            }
            assert_eq!(row.address.iter().filter(|a| !a.latch()).count(), 1);
            assert_eq!(row.address[3].latch(), false);
            assert_eq!(row.data.iter().filter(|e| !e.output_enable()).count(), 1);
            assert_eq!(row.data[63].output_enable(), false);
            assert!(row.data.iter().all(|e| !e.latch() && e.0 & 0b0011_1111 == 0));
        }
    }
}

#[test]
fn test_out_of_bounds_leaves_buffer_unchanged() {
    let mut fb = Panel::new();
    fb.set_pixel(Point::new(1, 1), Color::new(255, 0, 0));
    let before = fb.read_buffer();
    for p in [
        Point::new(-1, 5),
        Point::new(5, -1),
        Point::new(-1, -1),
        Point::new(64, 5),
        Point::new(5, 32),
        Point::new(i32::MAX, 0),
        Point::new(0, i32::MAX),
        Point::new(i32::MIN, i32::MIN),
    ] {
        fb.set_pixel(p, Color::new(255, 255, 255));
        assert_eq!(fb.read_buffer(), before);
    }
    fb.set_pixel_internal(64, 0, Color::new(255, 255, 255));
    fb.set_pixel_internal(0, 32, Color::new(255, 255, 255));
    fb.set_pixel_internal(usize::MAX, usize::MAX, Color::new(255, 255, 255));
    assert_eq!(fb.read_buffer(), before);
}

#[test]
fn test_end_to_end_scenario() {
    let mut fb = Panel::new();
    fb.set_pixel(Point::new(10, 5), Color::new(255, 0, 0));
    for frame in &fb.frames {
        let entry = frame.rows[5].data[10];
        assert_eq!((entry.red1(), entry.grn1(), entry.blu1()), (true, false, false));
    }
    fb.set_pixel(Point::new(10, 5), Color::new(128, 128, 128));
    for (n, frame) in fb.frames.iter().enumerate() {
        let entry = frame.rows[5].data[10];
        let on = n < 4;
        assert_eq!((entry.red1(), entry.grn1(), entry.blu1()), (on, on, on));
    }
}

#[test]
fn test_memory_image_of_a_fresh_buffer() {
    let fb = SmallPanel::new();
    assert_eq!(
        fb.read_buffer(),
        vec![
            0x80, 0x80, 0x80, 0x00, 0x40, 0x40, 0x40, 0x00, // scan line 0
            0x80, 0x80, 0x80, 0x00, 0x41, 0x41, 0x41, 0x01, // scan line 1
        ]
    );
    assert_eq!(SmallPanel::dma_buffer_size_bytes(), 16);
}

#[test]
fn test_memory_image_with_swapped_byte_order() {
    let mut fb = SmallSwappedPanel::new();
    assert_eq!(
        fb.read_buffer(),
        vec![
            0x80, 0x00, 0x80, 0x80, 0x40, 0x00, 0x40, 0x40, // scan line 0
            0x80, 0x00, 0x80, 0x80, 0x41, 0x01, 0x41, 0x41, // scan line 1
        ]
    );
    // Column 0 is kept in the third word, column 3 in the second
    fb.set_pixel(Point::new(0, 0), Color::new(255, 0, 0));
    fb.set_pixel(Point::new(3, 3), Color::new(0, 0, 255));
    assert_eq!(
        fb.read_buffer(),
        vec![
            0x80, 0x00, 0x81, 0x80, 0x40, 0x00, 0x40, 0x40, // scan line 0
            0x80, 0x20, 0x80, 0x80, 0x41, 0x01, 0x41, 0x41, // scan line 1
        ]
    );
}

#[test]
fn test_swapped_byte_order_reads_back() {
    let mut fb = SwappedPanel::new();
    fb.set_pixel(Point::new(10, 5), Color::new(255, 96, 0));
    for n in 0..7 {
        assert_eq!(read_pixel(&fb, n, 10, 5), (true, n < 3, false));
        assert_eq!(fb.frames[n].rows[5].data[8].0 & 0b0011_1111, 0b011 * (n < 3) as u8 | 0b001);
        assert_eq!(fb.frames[n].rows[5].data[10].0 & 0b0011_1111, 0);
    }
}

#[test]
fn test_dma_buffer_size_is_frames_times_rows_times_words() {
    assert_eq!(Panel::dma_buffer_size_bytes(), 7 * 16 * (64 + 4));
    assert_eq!(Panel::new().read_buffer().len(), 7616);
    assert_eq!(DmaFrameBuffer::<32, 64, 16, 0, 0, false, false>::dma_buffer_size_bytes(), 0);
}

#[test]
fn test_draw_iter_last_write_wins() {
    let mut fb = Panel::new();
    let pixels = [
        Pixel(Point::new(2, 2), Color::new(255, 255, 255)),
        Pixel(Point::new(3, 2), Color::new(0, 255, 0)),
        Pixel(Point::new(2, 2), Color::new(0, 0, 255)),
        Pixel(Point::new(-4, 2), Color::new(255, 255, 255)),
        Pixel(Point::new(2, 100), Color::new(255, 255, 255)),
    ];
    assert!(fb.draw_iter(&pixels).is_ok());

    let mut expected = Panel::new();
    expected.set_pixel(Point::new(3, 2), Color::new(0, 255, 0));
    expected.set_pixel(Point::new(2, 2), Color::new(0, 0, 255));
    assert_eq!(fb.read_buffer(), expected.read_buffer());
}

#[test]
fn test_draw_iter_of_nothing_changes_nothing() {
    let mut fb = Panel::new();
    fb.set_pixel(Point::new(2, 2), Color::new(9, 99, 199));
    let before = fb.read_buffer();
    assert!(fb.draw_iter(&[]).is_ok());
    assert_eq!(fb.read_buffer(), before);
}

#[test]
fn test_trait_operations_do_what_the_methods_do() {
    let mut by_trait = Panel::new();
    let mut by_method = Panel::new();
    let pixels = [Pixel(Point::new(1, 2), Color::new(1, 2, 3)), Pixel(Point::new(4, 20), Color::new(250, 120, 60))];

    FrameBufferOperations::set_pixel(&mut by_trait, Point::new(9, 9), Color::new(255, 128, 64));
    by_method.set_pixel(Point::new(9, 9), Color::new(255, 128, 64));
    assert_eq!(FrameBuffer::read_buffer(&by_trait), by_method.read_buffer());

    assert!(MutableFrameBuffer::draw_iter(&mut by_trait, &pixels).is_ok());
    assert!(by_method.draw_iter(&pixels).is_ok());
    assert_eq!(by_trait.read_buffer(), by_method.read_buffer());

    FrameBufferOperations::erase(&mut by_trait);
    by_method.erase();
    assert_eq!(by_trait.read_buffer(), by_method.read_buffer());
    assert_eq!(by_trait.read_buffer(), Panel::new().read_buffer());
    assert_eq!(FrameBuffer::get_word_size(&by_trait), WordSize::Eight);
}

#[test]
fn test_default_formats_where_it_can() {
    assert_eq!(Panel::default().read_buffer(), Panel::new().read_buffer());
    // 33 scan lines have no row address of five bits: the words stay zero
    let unformatted = DmaFrameBuffer::<66, 4, 33, 1, 1, false, false>::default();
    assert!(unformatted.read_buffer().iter().all(|byte| *byte == 0));
    // Six columns do not fill groups of four
    let unformatted = DmaFrameBuffer::<4, 6, 2, 1, 1, true, false>::default();
    assert!(unformatted.read_buffer().iter().all(|byte| *byte == 0));
    // A colour channel has from 1 to 8 bits
    let unformatted = DmaFrameBuffer::<4, 4, 2, 9, 511, false, false>::default();
    assert_eq!(unformatted.read_buffer().len(), 511 * 2 * 8);
    assert!(unformatted.read_buffer().iter().all(|byte| *byte == 0));
    let unformatted = DmaFrameBuffer::<4, 4, 2, 0, 1, false, false>::default();
    assert_eq!(unformatted.read_buffer(), vec![0; 16]);
    // Two scan lines carry four rows, not five
    let unformatted = DmaFrameBuffer::<5, 4, 2, 1, 1, false, false>::default();
    assert_eq!(unformatted.read_buffer(), vec![0; 16]);
    // The narrowest and the deepest that fit are formatted
    let formatted = DmaFrameBuffer::<4, 4, 2, 8, 255, false, false>::default();
    assert_eq!(formatted.read_buffer()[..8], [0x80, 0x80, 0x80, 0x00, 0x40, 0x40, 0x40, 0x00]);
    let formatted = DmaFrameBuffer::<3, 4, 2, 1, 1, false, false>::default();
    assert_eq!(formatted.read_buffer()[..8], [0x80, 0x80, 0x80, 0x00, 0x40, 0x40, 0x40, 0x00]);
}

#[test]
fn test_row_operations_exact_words() {
    let mut row: Row<4, false> = Row::new();
    row.format(21);
    assert_eq!(row.data.map(|e| e.0), [0x80, 0x80, 0x80, 0x00]);
    assert_eq!(row.address.map(|a| a.0), [0x55, 0x55, 0x55, 0x15]);
    row.set_color0(1, true, false, true);
    row.set_color1(3, false, true, false);
    assert_eq!(row.data.map(|e| e.0), [0x80, 0x85, 0x80, 0x10]);
    row.clear_colors();
    assert_eq!(row.data.map(|e| e.0), [0x80, 0x80, 0x80, 0x00]);
    assert_eq!(row.address.map(|a| a.0), [0x55, 0x55, 0x55, 0x15]);

    let mut raw: Row<2, false> = Row { data: [Entry(0xff), Entry(0x7f)], ..Row::new() };
    raw.clear_colors();
    assert_eq!(raw.data.map(|e| e.0), [0xc0, 0x40]);

    assert_eq!(address_words::<true>(31).map(|a| a.0), [0x5f, 0x1f, 0x5f, 0x5f]);
}

#[test]
fn test_color_bits_pack_red_green_blue() {
    assert_eq!(color_bits(false, false, false), 0b000);
    assert_eq!(color_bits(true, false, false), 0b001);
    assert_eq!(color_bits(false, true, false), 0b010);
    assert_eq!(color_bits(false, false, true), 0b100);
    assert_eq!(color_bits(true, true, true), 0b111);
}

#[test]
fn test_skipping_black_keeps_lit_pixel_but_draws_other_colours() {
    let mut fb = DmaFrameBuffer::<32, 64, 16, 3, 7, false, true>::new();
    fb.set_pixel(Point::new(10, 5), Color::new(255, 255, 255));
    let lit = fb.read_buffer();
    fb.set_pixel(Point::new(10, 5), Color::new(0, 0, 0));
    assert_eq!(fb.read_buffer(), lit);
    fb.set_pixel(Point::new(10, 5), Color::new(0, 0, 1));
    assert_eq!(fb.read_buffer(), Panel::new().read_buffer());
}

fn check_one_to_one<const PR: usize, const PC: usize, const TR: usize, const TC: usize>() {
    let (rows, cols) = ChainTopRightDown::<PR, PC, TR, TC>::virtual_size();
    let (fb_rows, fb_cols) = ChainTopRightDown::<PR, PC, TR, TC>::fb_size();
    assert_eq!(rows * cols, fb_rows * fb_cols);
    let mut hits = vec![0u32; fb_rows * fb_cols];
    for y in 0..rows {
        for x in 0..cols {
            let (fx, fy) = ChainTopRightDown::<PR, PC, TR, TC>::remap_xy(x, y);
            assert!(fx < fb_cols && fy < fb_rows);
            hits[fy * fb_cols + fx] += 1;
        }
    }
    assert!(hits.iter().all(|count| *count == 1));
}

#[test]
fn test_remap_is_one_to_one_for_odd_tile_rows() {
    check_one_to_one::<32, 64, 3, 3>();
    check_one_to_one::<32, 64, 1, 1>();
    check_one_to_one::<16, 32, 5, 2>();
    check_one_to_one::<2, 3, 7, 1>();
    check_one_to_one::<8, 8, 1, 4>();
}

#[test]
fn test_remap_bands_straight_and_mirrored() {
    type Chain = ChainTopRightDown<32, 64, 3, 3>;
    assert_eq!(Chain::virtual_size(), (96, 192));
    assert_eq!(Chain::fb_size(), (32, 576));
    // Bottom band: straight, first in the frame buffer
    assert_eq!(Chain::remap_xy(0, 64), (0, 0));
    assert_eq!(Chain::remap_xy(191, 95), (191, 31));
    // Middle band: mirrored in both axes
    assert_eq!(Chain::remap_xy(0, 32), (383, 31));
    assert_eq!(Chain::remap_xy(191, 63), (192, 0));
    // Top band: straight, last in the frame buffer
    assert_eq!(Chain::remap_xy(0, 0), (384, 0));
    assert_eq!(Chain::remap_xy(191, 31), (575, 31));
}

#[test]
fn test_remap_with_two_tile_rows_shares_places() {
    type Chain = ChainTopRightDown<32, 64, 2, 1>;
    assert_eq!(Chain::remap_xy(0, 0), (63, 31));
    assert_eq!(Chain::remap_xy(63, 63), (63, 31));
}

#[test]
fn test_remap_point_cuts_to_sixteen_bits() {
    type Wide = ChainTopRightDown<1, 70000, 1, 1>;
    assert_eq!(Wide::remap_xy(65541, 0), (65541, 0));
    assert_eq!(Wide::remap_point(Point::new(65541, 0)), Point::new(5, 0));
    assert_eq!(Wide::remap_point(Point::new(-3, 0)), Point::new(-3, 0));
    assert_eq!(Wide::remap_point(Point::new(7, -1)), Point::new(7, -1));
}

type Wall = TiledFrameBuffer<
    DmaFrameBuffer<32, 576, 16, 2, 3, false, false>,
    ChainTopRightDown<32, 64, 3, 3>,
    32,
    64,
    16,
    2,
    3,
    3,
    3,
    576,
>;

#[test]
fn test_tiled_set_pixel_draws_at_the_remapped_place() {
    let mut wall = Wall::new();
    wall.set_pixel(Point::new(0, 0), Color::new(255, 0, 0));
    wall.set_pixel(Point::new(0, 95), Color::new(0, 255, 0));
    wall.set_pixel(Point::new(100, 40), Color::new(0, 0, 255));

    let mut expected = DmaFrameBuffer::<32, 576, 16, 2, 3, false, false>::new();
    expected.set_pixel(Point::new(384, 0), Color::new(255, 0, 0));
    expected.set_pixel(Point::new(0, 31), Color::new(0, 255, 0));
    expected.set_pixel(Point::new(283, 23), Color::new(0, 0, 255));
    assert_eq!(wall.0.read_buffer(), expected.read_buffer());
    assert_eq!(FrameBuffer::read_buffer(&wall), expected.read_buffer());
}

#[test]
fn test_tiled_ignores_points_off_the_canvas() {
    let mut wall = Wall::new();
    let fresh = wall.read_buffer();
    for p in [
        Point::new(192, 0),
        Point::new(0, 96),
        Point::new(200, 70),
        Point::new(-1, 3),
        Point::new(3, -1),
        Point::new(i32::MAX, i32::MAX),
    ] {
        wall.set_pixel(p, Color::new(255, 255, 255));
        assert_eq!(wall.read_buffer(), fresh);
    }
    let pixels = [
        Pixel(Point::new(192, 0), Color::new(255, 255, 255)),
        Pixel(Point::new(5, 5), Color::new(255, 255, 255)),
        Pixel(Point::new(-5, 5), Color::new(255, 255, 255)),
        Pixel(Point::new(5, 500), Color::new(255, 255, 255)),
    ];
    assert!(wall.draw_iter(&pixels).is_ok());
    let mut expected = Wall::new();
    expected.set_pixel(Point::new(5, 5), Color::new(255, 255, 255));
    assert_eq!(wall.read_buffer(), expected.read_buffer());
    assert_ne!(wall.read_buffer(), fresh);
}

#[test]
fn test_tiled_erase_and_word_size() {
    let mut wall = Wall::default();
    wall.set_pixel(Point::new(7, 7), Color::new(255, 255, 255));
    wall.erase();
    assert_eq!(wall.read_buffer(), Wall::new().read_buffer());
    // A wall sends the words of the buffer behind it, which are 8 bits wide
    assert_eq!(wall.get_word_size(), WordSize::Eight);
    assert_eq!(wall.get_word_size(), wall.0.get_word_size());
    assert_eq!(wall.size(), Size::new(192, 96));
}

#[test]
fn test_size_of_a_panel() {
    assert_eq!(Panel::new().size(), Size::new(64, 32));
    assert_eq!(Size::new(64, 32), Size { width: 64, height: 32 });
}

#[test]
fn test_words_start_at_zero() {
    assert_eq!(Address::default(), Address::new());
    assert_eq!(Address::default().0, 0);
    assert_eq!(Entry::default(), Entry::new());
    assert_eq!(Entry::default().0, 0);
    assert_eq!(Row::<8, true>::default(), Row::<8, true>::new());
}

#[test]
fn test_set_pixel_internal_keeps_control_bits() {
    let mut fb = Panel::new();
    let control: Vec<u8> = fb.read_buffer().iter().map(|byte| byte & 0b1100_0000).collect();
    for (x, y) in [(0usize, 0usize), (63, 31), (17, 16), (64, 0), (0, 32)] {
        fb.set_pixel_internal(x, y, Color::new(255, 128, 64));
        let now: Vec<u8> = fb.read_buffer().iter().map(|byte| byte & 0b1100_0000).collect();
        let row_bytes = 64 + 4;
        for (i, (before, after)) in control.iter().zip(now.iter()).enumerate() {
            if i % row_bytes < 64 {
                assert_eq!(before, after);
            }
        }
        for (i, (fresh, after)) in Panel::new().read_buffer().iter().zip(fb.read_buffer().iter()).enumerate() {
            if i % row_bytes >= 64 {
                assert_eq!(fresh, after);
            }
        }
    }
}
