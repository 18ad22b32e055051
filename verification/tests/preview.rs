use long_shot_rs::preview::{draw_preview_with_scroll, PreviewScale, Span, BORDER_COLOR};

const WIDTH: u32 = 20;
const HEIGHT: u32 = 80;

/// A scale that maps `factor` rows and columns of the image to one.
fn scale(columns: u32, rows: u32, factor: u64) -> PreviewScale {
    let spans = |n: u32| {
        (0..n as u64).map(|i| Span { start: i * factor, end: (i + 1) * factor }).collect()
    };
    PreviewScale { scaled_height: rows, columns: spans(columns), rows: spans(rows) }
}

/// An RGBA image whose pixels hold their row, their column and 77.
fn image(width: u32, height: u32) -> Vec<u8> {
    let mut data = vec![];
    for y in 0..height {
        for x in 0..width {
            data.extend_from_slice(&[y as u8, x as u8, 77, 3]);
        }
    }
    data
}

fn at(canvas: &[u8], x: u32, y: u32) -> Vec<u8> {
    let i = 4 * (y * WIDTH + x) as usize;
    canvas[i..i + 4].to_vec()
}

fn draw(image_width: u32, image_height: u32, offset: i32, scale: &PreviewScale) -> Vec<u8> {
    let mut canvas = vec![5u8; (4 * WIDTH * HEIGHT) as usize];
    let data = image(image_width, image_height);
    draw_preview_with_scroll(
        &mut canvas,
        WIDTH,
        HEIGHT,
        &data,
        image_width,
        image_height,
        offset,
        scale,
    );
    canvas
}

#[test]
fn preview_shows_the_end_of_the_image() {
    // Fifteen of forty rows show: the last ones.
    let canvas = draw(10, 40, 0, &scale(10, 40, 1));
    assert_eq!(at(&canvas, 8, 63), vec![77, 3, 28, 255]);
    assert_eq!(at(&canvas, 12, 72), vec![77, 7, 37, 255]);
}

#[test]
fn scrolled_preview_shows_earlier_rows() {
    let canvas = draw(10, 40, 10, &scale(10, 40, 1));
    assert_eq!(at(&canvas, 8, 63), vec![77, 3, 18, 255]);
    let top = draw(10, 40, 1000, &scale(10, 40, 1));
    assert_eq!(at(&top, 8, 63), vec![77, 3, 3, 255]);
    let bottom = draw(10, 40, -7, &scale(10, 40, 1));
    assert_eq!(bottom, draw(10, 40, 0, &scale(10, 40, 1)));
}

#[test]
fn preview_averages_boxes() {
    let canvas = draw(20, 30, 0, &scale(10, 15, 2));
    // Rows 6 and 7, columns 8 and 9.
    assert_eq!(at(&canvas, 9, 63), vec![77, 8, 6, 255]);
}

#[test]
fn preview_has_a_red_frame_and_spares_the_rest() {
    let canvas = draw(10, 6, 0, &scale(10, 6, 1));
    for (x, y) in [(5, 60), (14, 60), (5, 61), (6, 63), (13, 63), (14, 65), (9, 65), (9, 64)] {
        assert_eq!(at(&canvas, x, y), BORDER_COLOR.to_vec(), "{} {}", x, y);
    }
    assert_eq!(at(&canvas, 7, 62), vec![77, 2, 2, 255]);
    assert_eq!(at(&canvas, 7, 66), vec![5, 5, 5, 5]);
    assert_eq!(at(&canvas, 4, 62), vec![5, 5, 5, 5]);
    assert_eq!(at(&canvas, 15, 62), vec![5, 5, 5, 5]);
    let above = 4 * (WIDTH * 58) as usize;
    assert!(canvas[..above].iter().all(|b| *b == 5));
}

#[test]
fn missing_pixels_are_not_averaged() {
    let mut canvas = vec![5u8; (4 * WIDTH * HEIGHT) as usize];
    let mut data = image(10, 10);
    data.truncate(4 * 10 * 3 + 4 * 4);
    draw_preview_with_scroll(&mut canvas, WIDTH, HEIGHT, &data, 10, 10, 0, &scale(10, 10, 1));
    assert_eq!(at(&canvas, 8, 63), vec![77, 3, 3, 255]);
    assert_eq!(at(&canvas, 9, 63), vec![5, 5, 5, 5]);
}

#[test]
fn empty_images_and_low_windows_show_nothing() {
    let plain = vec![5u8; (4 * WIDTH * HEIGHT) as usize];
    assert_eq!(draw(0, 10, 0, &scale(10, 10, 1)), plain);
    assert_eq!(draw(10, 0, 0, &scale(10, 0, 1)), plain);
    let mut canvas = vec![5u8; (4 * WIDTH * 65) as usize];
    draw_preview_with_scroll(&mut canvas, WIDTH, 65, &image(10, 10), 10, 10, 0, &scale(10, 10, 1));
    assert!(canvas.iter().all(|b| *b == 5));
}

#[test]
fn area_of_one_colour_keeps_it() {
    let mut canvas = vec![5u8; (4 * WIDTH * HEIGHT) as usize];
    let data = [11u8, 22, 33, 44].repeat(900);
    draw_preview_with_scroll(&mut canvas, WIDTH, HEIGHT, &data, 30, 30, 0, &scale(10, 10, 3));
    for y in 62..68 {
        for x in 7..13 {
            assert_eq!(at(&canvas, x, y), vec![33, 22, 11, 255]);
        }
    }
}
