use long_shot_rs::label::Glyph;
use long_shot_rs::overlay::{BUTTON_LEFT, BUTTON_RIGHT};
use long_shot_rs::preview::BORDER_COLOR;
use long_shot_rs::selector::{
    draw_size_label, draw_size_label_selector, mark_label, selection_label, BorderState,
    SelectorInput, SelectorState, DIMMED, LABEL_COLOR,
};
use long_shot_rs::types::CaptureRegion;

const MS: u64 = 1_000_000;

fn press(x: i32, y: i32) -> SelectorInput {
    SelectorInput::Press { button: BUTTON_LEFT, x: 256 * x, y: 256 * y }
}

fn move_to(x: i32, y: i32) -> SelectorInput {
    SelectorInput::Motion { x: 256 * x, y: 256 * y }
}

const RELEASE: SelectorInput = SelectorInput::Release { button: BUTTON_LEFT };

fn pixel(canvas: &[u8], width: u32, x: u32, y: u32) -> Vec<u8> {
    let i = 4 * (y * width + x) as usize;
    canvas[i..i + 4].to_vec()
}

#[test]
fn dragging_selects_a_region() {
    let mut s = SelectorState::new(0);
    assert!(!s.pointer_input(move_to(5, 5)));
    assert!(!s.pointer_input(press(100, 80)));
    assert!(s.pointer_input(move_to(40, 200)));
    let region = CaptureRegion { x: 40, y: 80, width: 60, height: 120 };
    assert_eq!(s.get_region(), region);
    assert_eq!(s.selected(), None);
    assert!(!s.pointer_input(RELEASE));
    assert!(!s.running && s.selection_complete);
    assert_eq!(s.selected(), Some(region));
}

#[test]
fn corners_may_come_in_any_order() {
    for (a, b) in [((0, 0), (30, 20)), ((30, 20), (0, 0)), ((0, 20), (30, 0)), ((30, 0), (0, 20))] {
        let mut s = SelectorState::new(0);
        s.pointer_input(press(a.0, a.1));
        s.pointer_input(move_to(b.0, b.1));
        assert_eq!(s.get_region(), CaptureRegion { x: 0, y: 0, width: 30, height: 20 });
    }
    let mut s = SelectorState::new(0);
    s.start_x = i32::MIN;
    s.current_x = i32::MAX;
    assert_eq!(s.get_region().width, u32::MAX);
    assert_eq!(s.get_region().height, 1);
}

#[test]
fn small_selections_are_dropped() {
    for (width, height, kept) in [(10, 50, false), (50, 10, false), (11, 11, true)] {
        let mut s = SelectorState::new(0);
        s.pointer_input(press(0, 0));
        s.pointer_input(move_to(width, height));
        s.pointer_input(RELEASE);
        assert_eq!(s.selected().is_some(), kept);
    }
}

#[test]
fn right_button_ends_without_a_region() {
    let mut s = SelectorState::new(0);
    s.pointer_input(press(0, 0));
    s.pointer_input(move_to(100, 100));
    s.pointer_input(SelectorInput::Release { button: BUTTON_RIGHT });
    assert!(!s.running);
    assert_eq!(s.selected(), None);
    let mut s = SelectorState::new(0);
    s.pointer_input(RELEASE);
    s.pointer_input(SelectorInput::Press { button: BUTTON_RIGHT, x: 0, y: 0 });
    s.pointer_input(SelectorInput::Other);
    assert_eq!(s, SelectorState::new(0));
    s.close();
    assert!(!s.running);
}

#[test]
fn drawing_is_limited() {
    let mut s = SelectorState::new(5);
    assert!(!s.begin_draw(5));
    s.configure(64, 0);
    assert_eq!((s.width, s.height, s.configured), (64, 1080, true));
    assert!(s.begin_draw(5));
    assert!(s.begin_draw(6));
    s.end_draw();
    assert!(!s.begin_draw(6 + 33 * MS - 1));
    assert_eq!(s.last_draw, 6);
    assert!(s.begin_draw(6 + 33 * MS));
    assert_eq!(s.last_draw, 6 + 33 * MS);
}

#[test]
fn selection_is_cut_out_of_the_dimmed_screen() {
    let mut s = SelectorState::new(0);
    s.configure(80, 90);
    let mut canvas = vec![1u8; 4 * 80 * 90];
    s.draw(&mut canvas, &None);
    assert!(canvas.chunks(4).all(|p| p == DIMMED));
    s.pointer_input(press(10, 40));
    s.pointer_input(move_to(50, 70));
    s.draw(&mut canvas, &None);
    assert_eq!(pixel(&canvas, 80, 30, 55), vec![0, 0, 0, 0]);
    assert_eq!(pixel(&canvas, 80, 10, 40), BORDER_COLOR.to_vec());
    assert_eq!(pixel(&canvas, 80, 49, 69), BORDER_COLOR.to_vec());
    assert_eq!(pixel(&canvas, 80, 51, 71), DIMMED.to_vec());
    assert_eq!(pixel(&canvas, 80, 11, 17), LABEL_COLOR.to_vec());
    // Five characters: the label is 52 pixels wide.
    assert_eq!(pixel(&canvas, 80, 61, 35), LABEL_COLOR.to_vec());
    assert_eq!(pixel(&canvas, 80, 62, 35), DIMMED.to_vec());
}

#[test]
fn labels_tell_the_size() {
    let region = CaptureRegion { x: 0, y: 0, width: 640, height: 480 };
    assert_eq!(selection_label(&region), "640x480");
    assert_eq!(mark_label(&region, 480), "640x480(480)");
    assert_eq!(mark_label(&region, 1234), "640x480(1234)");
    let mut canvas = vec![0u8; 4 * 200 * 30];
    draw_size_label_selector(&mut canvas, 800, 200, 30, &region, &None);
    assert_eq!(pixel(&canvas, 200, 67, 19), LABEL_COLOR.to_vec());
    assert_eq!(pixel(&canvas, 200, 68, 19), vec![0, 0, 0, 0]);
    let mut canvas = vec![0u8; 4 * 200 * 30];
    draw_size_label(&mut canvas, 800, 200, 30, &region, 480, &None);
    assert_eq!(pixel(&canvas, 200, 139, 19), LABEL_COLOR.to_vec());
    assert_eq!(pixel(&canvas, 200, 140, 19), vec![0, 0, 0, 0]);
}

#[test]
fn mark_stays_outside_its_region() {
    let region = CaptureRegion { x: 20, y: 30, width: 25, height: 35 };
    let mut border = BorderState::new(region);
    assert_eq!((border.width, border.height, border.total_height), (1920, 1080, 35));
    assert!(!border.wants_draw(true));
    border.configure(100, 90);
    assert!(border.wants_draw(true));
    assert!(!border.wants_draw(false));
    let deep = "25x35(35)"
        .chars()
        .map(|ch| Glyph {
            ch,
            xmin: 0,
            ymin: -7,
            width: 1,
            height: 20,
            advance: 5,
            bitmap: vec![255; 20],
        })
        .collect();
    for glyphs in [None, Some(deep)] {
        let mut canvas = vec![1u8; 4 * 100 * 90];
        border.draw(&mut canvas, &glyphs);
        for y in 30..65 {
            for x in 20..45 {
                assert_eq!(pixel(&canvas, 100, x, y), vec![0, 0, 0, 0]);
            }
        }
        assert_eq!(pixel(&canvas, 100, 18, 40), BORDER_COLOR.to_vec());
        assert_eq!(pixel(&canvas, 100, 19, 66), BORDER_COLOR.to_vec());
        assert_eq!(pixel(&canvas, 100, 46, 29), BORDER_COLOR.to_vec());
        assert_eq!(pixel(&canvas, 100, 99, 8), LABEL_COLOR.to_vec());
    }
}

#[test]
fn mark_reaches_into_a_region_without_room_for_the_label() {
    let mut border = BorderState::new(CaptureRegion { x: 0, y: 10, width: 50, height: 60 });
    border.configure(100, 90);
    let mut canvas = vec![1u8; 4 * 100 * 90];
    border.draw(&mut canvas, &None);
    assert_eq!(pixel(&canvas, 100, 1, 18), LABEL_COLOR.to_vec());
}
