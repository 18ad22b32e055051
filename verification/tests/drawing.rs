use long_shot_rs::button::{
    draw_cancel_icon, draw_copy_icon, draw_rounded_button, draw_save_icon, draw_text_static,
    ButtonRect,
};
use long_shot_rs::label::{
    draw_char_simple, draw_text, draw_text_fallback, draw_text_with_font, Glyph,
};
use long_shot_rs::pixels::{clear, fill_box, stroke_frame};

const INK: [u8; 4] = [1, 2, 3, 4];

fn canvas(width: usize, height: usize) -> Vec<u8> {
    vec![0; 4 * width * height]
}

/// The pixels that have the ink colour, one character per pixel.
fn picture(canvas: &[u8], width: usize) -> Vec<String> {
    canvas
        .chunks(4 * width)
        .map(|row| row.chunks(4).map(|p| if p == INK { '#' } else { '.' }).collect())
        .collect()
}

#[test]
fn boxes_and_frames_are_clipped() {
    let mut c = canvas(6, 4);
    fill_box(&mut c, 24, 6, 4, -1, 2, 3, 9, &INK);
    assert_eq!(picture(&c, 6), ["......", "......", "##....", "##...."]);
    let mut c = canvas(7, 7);
    stroke_frame(&mut c, 28, 7, 7, 1, 1, 5, 6, &INK);
    assert_eq!(
        picture(&c, 7),
        [".......", ".#####.", ".#####.", ".##.##.", ".##.##.", ".#####.", ".#####."],
    );
    let mut c = canvas(3, 2);
    fill_box(&mut c, 12, 3, 2, 0, 0, -1, 5, &INK);
    assert_eq!(picture(&c, 3), ["...", "..."]);
}

#[test]
fn canvas_shorter_than_its_size_is_safe() {
    let mut c = vec![0u8; 10];
    fill_box(&mut c, 8, 2, 2, 0, 0, 2, 2, &INK);
    assert_eq!(c, vec![1, 2, 3, 4, 1, 2, 3, 4, 0, 0]);
    let mut c = vec![9u8; 6];
    clear(&mut c, &INK);
    assert_eq!(c, vec![1, 2, 3, 4, 9, 9]);
}

#[test]
fn digits_are_drawn_with_segments() {
    let mut c = canvas(8, 10);
    draw_char_simple(&mut c, 32, 8, 10, 1, 0, '2', &INK);
    assert_eq!(
        picture(&c, 8),
        [
            "..####..", ".#......", ".#......", ".#......", ".#####..", ".#......", ".#......",
            ".#......", ".#......", "..####..",
        ],
    );
    let mut c = canvas(6, 10);
    draw_char_simple(&mut c, 24, 6, 10, 0, 0, 'x', &INK);
    assert_eq!(
        picture(&c, 6),
        [
            "......", "......", "......", ".#..#.", "..##..", "..##..", ".#..#.", "......", "......",
            "......",
        ],
    );
    let mut c = canvas(6, 10);
    draw_char_simple(&mut c, 24, 6, 10, 0, 0, '(', &INK);
    assert_eq!(c, canvas(6, 10));
}

#[test]
fn fallback_text_advances_by_eight_pixels() {
    let mut text = canvas(20, 10);
    draw_text_fallback(&mut text, 80, 20, 10, 1, 0, "1x7", &INK);
    let mut single = canvas(20, 10);
    draw_char_simple(&mut single, 80, 20, 10, 1, 0, '1', &INK);
    draw_char_simple(&mut single, 80, 20, 10, 9, 0, 'x', &INK);
    draw_char_simple(&mut single, 80, 20, 10, 17, 0, '7', &INK);
    assert_eq!(text, single);
    let mut same = canvas(20, 10);
    draw_text(&mut same, 80, 20, 10, 1, 0, "1x7", &None, 14, &INK);
    assert_eq!(same, text);
}

#[test]
fn glyphs_are_blended() {
    let glyph = |ch: char, alpha: u8, advance: i32| Glyph {
        ch,
        xmin: 1,
        ymin: -1,
        width: 1,
        height: 2,
        advance,
        bitmap: vec![alpha, 0],
    };
    let mut c = vec![100u8; 4 * 6 * 6];
    // The line is three pixels high: the bitmap starts at row 0 + 3 - 2 + 1.
    let glyphs = vec![glyph('a', 255, 3), glyph('b', 51, 9)];
    draw_text_with_font(&mut c, 24, 6, 6, 0, 0, "ab", &glyphs, 3, &[200, 0, 50, 7]);
    let at = |x: usize, y: usize| &c[4 * (6 * y + x)..4 * (6 * y + x) + 4];
    assert_eq!(at(1, 2), [200, 0, 50, 255]);
    assert_eq!(at(4, 2), [120, 80, 90, 255]);
    assert_eq!(at(1, 3), [100, 100, 100, 100]);
    let mut same = vec![100u8; 4 * 6 * 6];
    let glyphs = Some(glyphs);
    draw_text(&mut same, 24, 6, 6, 0, 0, "ab", &glyphs, 3, &[200, 0, 50, 7]);
    assert_eq!(same, c);
}

#[test]
fn buttons_hold_their_points() {
    let b = ButtonRect { x: 10, y: 20, width: 5, height: 6 };
    assert!(b.contains(10, 20));
    assert!(b.contains(14, 25));
    assert!(!b.contains(15, 25));
    assert!(!b.contains(14, 26));
    assert!(!b.contains(9, 20));
    let far = ButtonRect { x: i32::MAX, y: 0, width: i32::MAX, height: 1 };
    assert!(far.contains(i32::MAX, 0));
}

#[test]
fn buttons_have_round_corners_and_a_bar() {
    let accent = [9u8, 9, 9, 9];
    let mut c = canvas(24, 20);
    draw_rounded_button(&mut c, 24, ButtonRect { x: 0, y: 0, width: 20, height: 20 }, &INK, &accent);
    let at = |x: usize, y: usize| c[4 * (24 * y + x)..4 * (24 * y + x) + 4].to_vec();
    assert_eq!(at(0, 0), vec![0, 0, 0, 0]);
    assert_eq!(at(8, 0), accent.to_vec());
    assert_eq!(at(8, 2), accent.to_vec());
    assert_eq!(at(8, 3), INK.to_vec());
    assert_eq!(at(0, 10), INK.to_vec());
    assert_eq!(at(19, 19), vec![0, 0, 0, 0]);
    assert_eq!(at(20, 10), vec![0, 0, 0, 0]);
}

#[test]
fn icons_are_drawn_in_the_middle() {
    let b = ButtonRect { x: 0, y: 0, width: 20, height: 18 };
    let mut save = canvas(20, 18);
    draw_save_icon(&mut save, 20, b, &INK);
    let rows = picture(&save, 20);
    assert_eq!(rows[1], "....................");
    assert_eq!(rows[2], "..###..........###..");
    assert_eq!(rows[3], "..#..............#..");
    assert_eq!(rows[11], "..#..##########..#..");
    assert_eq!(rows[15], "..################..");
    let mut copy = canvas(20, 18);
    draw_copy_icon(&mut copy, 20, b, &INK);
    let rows = picture(&copy, 20);
    assert_eq!(rows[3], "......##########....");
    assert_eq!(rows[6], "...##########..#....");
    assert_eq!(rows[9], "...#..#.....####....");
    assert_eq!(rows[15], "...##########.......");
    let mut cancel = canvas(20, 18);
    draw_cancel_icon(&mut cancel, 20, b, &INK);
    let rows = picture(&cancel, 20);
    assert!(rows[9].contains('#'));
    assert_ne!(rows[3], "....................");
    assert_eq!(rows[2], "....................");
}

#[test]
fn text_places_are_marked_with_a_bar() {
    let mut c = canvas(4, 14);
    draw_text_static(&mut c, 4, 14, 2, 1, &INK);
    let rows = picture(&c, 4);
    assert_eq!(rows[0], "....");
    assert_eq!(rows[1], "..##");
    assert_eq!(rows[12], "..##");
    assert_eq!(rows[13], "....");
}

#[test]
fn rows_may_lie_further_apart_than_their_pixels() {
    // Two pixels in each row, and three bytes between the rows.
    let mut c = vec![0u8; 22];
    fill_box(&mut c, 11, 2, 2, 1, 0, 5, 5, &INK);
    assert_eq!(c, vec![0, 0, 0, 0, 1, 2, 3, 4, 0, 0, 0, 0, 0, 0, 0, 1, 2, 3, 4, 0, 0, 0]);
    let mut plain = canvas(8, 10);
    draw_text_fallback(&mut plain, 32, 8, 10, 1, 0, "5", &INK);
    let mut wide = vec![0u8; 40 * 10];
    draw_text_fallback(&mut wide, 40, 8, 10, 1, 0, "5", &INK);
    for y in 0..10 {
        assert_eq!(wide[40 * y..40 * y + 32], plain[32 * y..32 * y + 32]);
        assert!(wide[40 * y + 32..40 * y + 40].iter().all(|b| *b == 0));
    }
}

#[test]
fn every_digit_is_part_of_an_eight() {
    let mut eight = canvas(6, 10);
    draw_char_simple(&mut eight, 24, 6, 10, 0, 0, '8', &INK);
    for digit in '0'..='9' {
        let mut c = canvas(6, 10);
        draw_char_simple(&mut c, 24, 6, 10, 0, 0, digit, &INK);
        for (a, b) in c.chunks(4).zip(eight.chunks(4)) {
            assert!(a != INK || b == INK);
        }
    }
}

#[test]
fn text_is_drawn_part_by_part() {
    let mut whole = canvas(40, 10);
    draw_text_fallback(&mut whole, 160, 40, 10, 2, 0, "12x3", &INK);
    let mut parts = canvas(40, 10);
    draw_text_fallback(&mut parts, 160, 40, 10, 2, 0, "12", &INK);
    draw_text_fallback(&mut parts, 160, 40, 10, 18, 0, "", &INK);
    draw_text_fallback(&mut parts, 160, 40, 10, 18, 0, "x3", &INK);
    assert_eq!(whole, parts);
}
