use multitrack_visualizer::display::draw::{letter, pixel, rect, rect_gradient, text, text_colour};
use multitrack_visualizer::display::font::{glyph_at, FONT, FONT_HEIGHT, FONT_SEPARATION, FONT_WIDTH};
use multitrack_visualizer::display::frame::Frame;

#[test]
fn new_frame_is_black() {
    let frame = Frame::new(3, 2);
    assert_eq!(frame.width(), 3);
    assert_eq!(frame.height(), 2);
    for y in 0..2 {
        for x in 0..3 {
            assert_eq!(frame.get_pixel(x, y), [0, 0, 0]);
        }
    }
}

#[test]
fn raw_bytes_go_row_by_row() {
    let mut frame = Frame::new(2, 2);
    pixel(&mut frame, 1, 0, [1, 2, 3]);
    pixel(&mut frame, 0, 1, [4, 5, 6]);
    assert_eq!(frame.as_raw(), vec![0, 0, 0, 1, 2, 3, 4, 5, 6, 0, 0, 0]);
}

#[test]
fn pixel_sets_one_pixel() {
    let mut frame = Frame::new(4, 3);
    pixel(&mut frame, 2, 1, [10, 20, 30]);
    for y in 0..3 {
        for x in 0..4 {
            let expected = if x == 2 && y == 1 { [10, 20, 30] } else { [0, 0, 0] };
            assert_eq!(frame.get_pixel(x, y), expected);
        }
    }
}

#[test]
fn rect_upper_bounds_are_exclusive() {
    let mut frame = Frame::new(5, 5);
    rect(&mut frame, 1, 1, 3, 4, [255, 255, 255]);
    for y in 0..5 {
        for x in 0..5 {
            let inside = (1..3).contains(&x) && (1..4).contains(&y);
            let expected = if inside { [255, 255, 255] } else { [0, 0, 0] };
            assert_eq!(frame.get_pixel(x, y), expected);
        }
    }
}

#[test]
fn empty_rect_paints_nothing_even_off_screen() {
    let mut frame = Frame::new(2, 2);
    rect(&mut frame, 7, 9, 7, 12, [9, 9, 9]);
    rect(&mut frame, 5, 1, 3, 2, [9, 9, 9]);
    assert_eq!(frame.as_raw(), vec![0; 12]);
}

#[test]
fn gradient_lowers_one_component_after_each_row() {
    let mut frame = Frame::new(1, 8);
    rect_gradient(&mut frame, 0, 0, 1, 8, [2, 1, 0]);
    let expected = [
        [2, 1, 0],
        [1, 1, 0],
        [1, 0, 0],
        [1, 0, 0],
        [0, 0, 0],
        [0, 0, 0],
        [0, 0, 0],
        [0, 0, 0],
    ];
    for y in 0..8 {
        assert_eq!(frame.get_pixel(0, y), expected[y as usize]);
    }
}

#[test]
fn gradient_bands_follow_the_row_number() {
    let mut frame = Frame::new(2, 6);
    rect_gradient(&mut frame, 0, 1, 2, 6, [100, 100, 100]);
    assert_eq!(frame.get_pixel(0, 0), [0, 0, 0]);
    assert_eq!(frame.get_pixel(0, 1), [100, 100, 100]);
    assert_eq!(frame.get_pixel(1, 2), [100, 99, 100]);
    assert_eq!(frame.get_pixel(0, 3), [100, 99, 99]);
    assert_eq!(frame.get_pixel(1, 4), [99, 99, 99]);
    assert_eq!(frame.get_pixel(0, 5), [99, 98, 99]);
}

#[test]
fn letter_paints_the_set_bits_only() {
    let bits: u32 = 0b00000_00000_00000_00000_10001_00011;
    let mut frame = Frame::new(8, 8);
    letter(&mut frame, 2, 1, bits, [7, 8, 9]);
    for y in 0..8u32 {
        for x in 0..8u32 {
            let dot = (x, y) == (2, 1) || (x, y) == (3, 1) || (x, y) == (2, 2) || (x, y) == (6, 2);
            let expected = if dot { [7, 8, 9] } else { [0, 0, 0] };
            assert_eq!(frame.get_pixel(x, y), expected);
        }
    }
}

#[test]
fn blank_glyph_may_lie_off_screen() {
    let mut frame = Frame::new(2, 2);
    letter(&mut frame, 100, 100, 0, [1, 1, 1]);
    assert_eq!(frame.as_raw(), vec![0; 12]);
}

#[test]
fn font_has_a_glyph_for_each_printable_character() {
    assert_eq!(FONT.len(), 96);
    assert_eq!((FONT_WIDTH, FONT_HEIGHT, FONT_SEPARATION), (5, 6, 6));
    assert_eq!(glyph_at(0), 0);
    assert_eq!(glyph_at(33), FONT[33]);
}

#[test]
fn text_matches_letters_side_by_side() {
    let mut by_text = Frame::new(30, 10);
    text_colour(&mut by_text, 1, 2, "Hi!", [5, 6, 7]);
    let mut by_letter = Frame::new(30, 10);
    letter(&mut by_letter, 1, 2, glyph_at('H' as usize - 32), [5, 6, 7]);
    letter(&mut by_letter, 7, 2, glyph_at('i' as usize - 32), [5, 6, 7]);
    letter(&mut by_letter, 13, 2, glyph_at('!' as usize - 32), [5, 6, 7]);
    assert_eq!(by_text.as_raw(), by_letter.as_raw());
    assert_ne!(by_text.as_raw(), vec![0; 900]);
}

#[test]
fn text_skips_characters_without_a_glyph() {
    let mut with = Frame::new(30, 10);
    text(&mut with, 0, 0, "a\u{e9}\nb");
    let mut without = Frame::new(30, 10);
    text(&mut without, 0, 0, "ab");
    assert_eq!(with.as_raw(), without.as_raw());
}

#[test]
fn text_is_white() {
    let mut white = Frame::new(12, 8);
    text(&mut white, 0, 0, "#");
    let mut coloured = Frame::new(12, 8);
    text_colour(&mut coloured, 0, 0, "#", [255, 255, 255]);
    assert_eq!(white.as_raw(), coloured.as_raw());
}
