use hub75_framebuffer::graphics::Rgb888;
use hub75_framebuffer::{compute_frame_count, compute_rows, Color, WordSize};

const RED: Color = Color { red: 255, green: 0, blue: 0 };
const GREEN: Color = Color { red: 0, green: 255, blue: 0 };
const BLUE: Color = Color { red: 0, green: 0, blue: 255 };
const WHITE: Color = Color { red: 255, green: 255, blue: 255 };
const BLACK: Color = Color { red: 0, green: 0, blue: 0 };
const CYAN: Color = Color { red: 0, green: 255, blue: 255 };
const MAGENTA: Color = Color { red: 255, green: 0, blue: 255 };
const YELLOW: Color = Color { red: 255, green: 255, blue: 0 };

#[test]
fn test_compute_rows() {
    // Test typical panel sizes
    assert_eq!(compute_rows(32), 16);
    assert_eq!(compute_rows(64), 32);
    assert_eq!(compute_rows(16), 8);
    assert_eq!(compute_rows(128), 64);

    // Test edge cases
    assert_eq!(compute_rows(2), 1);
    assert_eq!(compute_rows(0), 0);

    // Test that it always divides by 2
    for rows in [8, 16, 24, 32, 48, 64, 96, 128, 256] {
        assert_eq!(compute_rows(rows), rows / 2);
    }
}

#[test]
fn test_compute_frame_count() {
    // Test common bit depths
    assert_eq!(compute_frame_count(1), 1); // 2^1 - 1 = 1
    assert_eq!(compute_frame_count(2), 3); // 2^2 - 1 = 3
    assert_eq!(compute_frame_count(3), 7); // 2^3 - 1 = 7
    assert_eq!(compute_frame_count(4), 15); // 2^4 - 1 = 15
    assert_eq!(compute_frame_count(5), 31); // 2^5 - 1 = 31
    assert_eq!(compute_frame_count(6), 63); // 2^6 - 1 = 63
    assert_eq!(compute_frame_count(7), 127); // 2^7 - 1 = 127
    assert_eq!(compute_frame_count(8), 255); // 2^8 - 1 = 255

    // Test the formula: (2^bits) - 1
    for bits in 1..=8 {
        let expected = (1usize << bits) - 1;
        assert_eq!(compute_frame_count(bits), expected);
    }
}

#[test]
fn test_compute_frame_count_properties() {
    // Test that frame count grows exponentially
    assert!(compute_frame_count(2) > compute_frame_count(1));
    assert!(compute_frame_count(3) > compute_frame_count(2));
    assert!(compute_frame_count(4) > compute_frame_count(3));

    // Test doubling property: each additional bit approximately doubles frame count
    for bits in 1..=7 {
        let current_frames = compute_frame_count(bits);
        let next_frames = compute_frame_count(bits + 1);
        // next_frames should be approximately 2 * current_frames + 1
        assert_eq!(next_frames, 2 * current_frames + 1);
    }
}

#[test]
fn test_word_size_enum() {
    // Test enum values
    let eight = WordSize::Eight;
    let sixteen = WordSize::Sixteen;

    assert_ne!(eight, sixteen);
    assert_eq!(eight, WordSize::Eight);
    assert_eq!(sixteen, WordSize::Sixteen);
}

#[test]
fn test_word_size_debug() {
    let eight = WordSize::Eight;
    let sixteen = WordSize::Sixteen;

    let eight_debug = format!("{:?}", eight);
    let sixteen_debug = format!("{:?}", sixteen);

    assert_eq!(eight_debug, "Eight");
    assert_eq!(sixteen_debug, "Sixteen");
}

#[test]
fn test_word_size_clone_copy() {
    let first = WordSize::Eight;
    let cloned = first.clone();
    let copied = first;

    assert_eq!(first, cloned);
    assert_eq!(first, copied);
    assert_eq!(cloned, copied);
}

#[test]
fn test_color_type_alias() {
    // Test that Color is an alias for Rgb888
    let red_color: Color = RED;
    let red_rgb888: Rgb888 = Rgb888::new(255, 0, 0);

    assert_eq!(red_color, red_rgb888);
    assert_eq!(red_color.r(), 255);
    assert_eq!(red_color.g(), 0);
    assert_eq!(red_color.b(), 0);

    // Test various colors
    let colors = [
        (RED, (255, 0, 0)),
        (GREEN, (0, 255, 0)),
        (BLUE, (0, 0, 255)),
        (WHITE, (255, 255, 255)),
        (BLACK, (0, 0, 0)),
        (CYAN, (0, 255, 255)),
        (MAGENTA, (255, 0, 255)),
        (YELLOW, (255, 255, 0)),
    ];

    for (color, (r, g, b)) in colors {
        assert_eq!(color.r(), r);
        assert_eq!(color.g(), g);
        assert_eq!(color.b(), b);
    }
}

#[test]
fn test_color_construction() {
    // Test Color construction from RGB values
    let custom_color = Color::new(128, 64, 192);
    assert_eq!(custom_color.r(), 128);
    assert_eq!(custom_color.g(), 64);
    assert_eq!(custom_color.b(), 192);

    // Test that it behaves like Rgb888
    let rgb888_color = Rgb888::new(128, 64, 192);
    assert_eq!(custom_color, rgb888_color);
}

#[test]
fn test_helper_functions_const() {
    // Test that helper functions give the sizes of a type's parameters
    const ROWS: usize = 32;
    let computed_nrows: usize = compute_rows(ROWS);
    const BITS: u8 = 4;
    let computed_frame_count: usize = compute_frame_count(BITS);

    assert_eq!(computed_nrows, 16);
    assert_eq!(computed_frame_count, 15);
}

#[test]
fn test_realistic_panel_configurations() {
    // Test common HUB75 panel configurations
    struct PanelConfig {
        rows: usize,
        cols: usize,
        bits: u8,
    }

    let configs = [
        PanelConfig {
            rows: 32,
            cols: 64,
            bits: 3,
        }, // 32x64 panel, 3-bit color
        PanelConfig {
            rows: 64,
            cols: 64,
            bits: 4,
        }, // 64x64 panel, 4-bit color
        PanelConfig {
            rows: 32,
            cols: 32,
            bits: 5,
        }, // 32x32 panel, 5-bit color
        PanelConfig {
            rows: 16,
            cols: 32,
            bits: 6,
        }, // 16x32 panel, 6-bit color
    ];

    for config in configs {
        let nrows = compute_rows(config.rows);
        let frame_count = compute_frame_count(config.bits);

        // Basic sanity checks for rows
        assert!(nrows > 0);
        assert!(nrows <= config.rows);
        assert_eq!(nrows * 2, config.rows);

        // Basic sanity checks for columns
        assert!(config.cols > 0);
        assert!(config.cols <= 256); // Reasonable upper limit for HUB75 panels

        // Frame count checks
        assert!(frame_count > 0);
        assert!(frame_count < 256); // Should be reasonable for typical bit depths

        // Frame count should grow with bit depth
        let prev_frame_count = compute_frame_count(config.bits - 1);
        assert!(frame_count > prev_frame_count);
    }
}

#[test]
fn test_memory_calculations() {
    // Test that we can calculate memory requirements using helper functions
    const ROWS: usize = 64;
    const COLS: usize = 64;
    const BITS: u8 = 4;

    let nrows: usize = compute_rows(ROWS);
    let frame_count: usize = compute_frame_count(BITS);

    assert_eq!(nrows, 32);
    assert_eq!(frame_count, 15);

    // Verify the relationship between parameters
    assert_eq!(nrows * 2, ROWS);
    assert_eq!(frame_count, (1 << BITS) - 1);

    // Verify COLS is reasonable for memory calculations
    assert!(COLS > 0);
    assert!(COLS <= 256); // Reasonable limit for HUB75 panels
}

#[test]
fn test_edge_cases() {
    // Test minimum values
    assert_eq!(compute_rows(2), 1);
    assert_eq!(compute_frame_count(1), 1);

    // Test maximum reasonable values
    assert_eq!(compute_rows(512), 256);
    assert_eq!(compute_frame_count(8), 255);

    // Test zero (though not practical)
    assert_eq!(compute_rows(0), 0);
}

#[test]
fn test_word_size_equality() {
    // Test all combinations of equality
    assert_eq!(WordSize::Eight, WordSize::Eight);
    assert_eq!(WordSize::Sixteen, WordSize::Sixteen);
    assert_ne!(WordSize::Eight, WordSize::Sixteen);
    assert_ne!(WordSize::Sixteen, WordSize::Eight);
}

#[test]
fn test_bit_depth_limits() {
    // Test that our bit depth calculations work for the full range
    for bits in 1..=8 {
        let frame_count = compute_frame_count(bits);

        // Frame count should be positive
        assert!(frame_count > 0);

        // Frame count should be less than 2^bits
        assert!(frame_count < (1 << bits));

        // Frame count should be exactly (2^bits) - 1
        assert_eq!(frame_count, (1 << bits) - 1);
    }
}

#[test]
fn test_documentation_examples() {
    // Test the example values from the documentation
    const ROWS: usize = 32;
    const COLS: usize = 64;
    const NROWS: usize = ROWS / 2;
    const BITS: u8 = 8;
    const FRAME_COUNT: usize = (1 << BITS) - 1;

    // Verify using our helper functions
    assert_eq!(compute_rows(ROWS), NROWS);
    assert_eq!(compute_frame_count(BITS), FRAME_COUNT);

    // Verify the values match documentation
    assert_eq!(ROWS, 32);
    assert_eq!(COLS, 64);
    assert_eq!(NROWS, 16);
    assert_eq!(FRAME_COUNT, 255);

    // Verify this matches typical panel dimensions
    assert!(COLS > 0);
    assert_eq!(NROWS * 2, ROWS);
}
