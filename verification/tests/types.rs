use long_shot_rs::text::IntError;
use long_shot_rs::types::{swap_red_blue, CaptureRegion, RawFrame, SlurpError, StitchParams};

#[test]
fn test_stitch_params_default() {
    let params = StitchParams::default();
    assert!((params.ignore_y_top as f64 / 1_000_000.0 - 0.15).abs() < 0.01);
    assert!((params.match_confidence as f64 / 1_000_000.0 - 0.5).abs() < 0.01);
}

#[test]
fn default_params_are_exact() {
    let params = StitchParams::default();
    assert_eq!(params.ignore_y_top, 150_000);
    assert_eq!(params.ignore_y_bottom, 150_000);
    assert_eq!(params.match_confidence, 500_000);
    assert_eq!(params.template_ratio, 200_000);
    assert_eq!(params.max_search_range, 500);
}

fn region(text: &str) -> CaptureRegion {
    CaptureRegion::from_slurp(text).unwrap()
}

fn failure(text: &str) -> SlurpError {
    CaptureRegion::from_slurp(text).unwrap_err()
}

#[test]
fn slurp_output_is_read() {
    assert_eq!(region("10,20 300x400"), CaptureRegion { x: 10, y: 20, width: 300, height: 400 });
    assert_eq!(region("-5,-6 1x2\n"), CaptureRegion { x: -5, y: -6, width: 1, height: 2 });
    assert_eq!(region(" \t+7,0\u{3000}+8x9 "), CaptureRegion { x: 7, y: 0, width: 8, height: 9 });
    assert_eq!(
        region("-2147483648,2147483647 4294967295x0"),
        CaptureRegion { x: i32::MIN, y: i32::MAX, width: u32::MAX, height: 0 },
    );
}

#[test]
fn slurp_output_of_wrong_shape_is_refused() {
    assert_eq!(failure(" 1,2 ").message(), "Invalid slurp output format: 1,2");
    assert_eq!(failure("").message(), "Invalid slurp output format: ");
    assert_eq!(failure("1,2 3x4 5").message(), "Invalid slurp output format: 1,2 3x4 5");
    assert_eq!(failure("1;2 3x4").message(), "Invalid coordinates format: 1;2");
    assert_eq!(failure("1,2,3 3x4").message(), "Invalid coordinates format: 1,2,3");
    assert_eq!(failure("1,2 3*4").message(), "Invalid dimensions format: 3*4");
    assert_eq!(failure("1,2 3x4x5").message(), "Invalid dimensions format: 3x4x5");
}

#[test]
fn slurp_numbers_are_checked() {
    assert!(matches!(failure(",2 3x4"), SlurpError::Number(IntError::Empty)));
    assert!(matches!(failure("a,2 3x4"), SlurpError::Number(IntError::InvalidDigit)));
    assert!(matches!(failure("-,2 3x4"), SlurpError::Number(IntError::InvalidDigit)));
    assert!(matches!(failure("1,2 -3x4"), SlurpError::Number(IntError::InvalidDigit)));
    assert!(matches!(failure("2147483648,2 3x4"), SlurpError::Number(IntError::PosOverflow)));
    assert!(matches!(failure("1,-2147483649 3x4"), SlurpError::Number(IntError::NegOverflow)));
    assert!(matches!(failure("1,2 3x4294967296"), SlurpError::Number(IntError::PosOverflow)));
    assert_eq!(failure(",2 3x4").message(), "cannot parse integer from empty string");
    assert_eq!(failure("a,2 3x4").message(), "invalid digit found in string");
    assert_eq!(failure("9999999999,2 3x4").message(), "number too large to fit in target type");
    assert_eq!(failure("-9999999999,2 3x4").message(), "number too small to fit in target type");
}

#[test]
fn slurp_numbers_fail_as_the_standard_parser_does() {
    for text in ["", "+", "-", "12", "-12", "+12", "4294967295", "4294967296", "4294967295x", "1a"] {
        let line = format!("0,{} 1x1", text);
        match text.parse::<i32>() {
            Ok(y) => assert_eq!(region(&line).y, y),
            Err(e) => assert_eq!(failure(&line).message(), e.to_string()),
        }
    }
}

#[test]
fn regions_are_read_back() {
    for r in [
        CaptureRegion { x: 0, y: 0, width: 0, height: 0 },
        CaptureRegion { x: -17, y: 4096, width: 1920, height: 1080 },
        CaptureRegion { x: i32::MIN, y: i32::MAX, width: u32::MAX, height: u32::MAX },
    ] {
        assert_eq!(region(&format!("{},{} {}x{}", r.x, r.y, r.width, r.height)), r);
    }
}

#[test]
fn frames_are_converted_to_rgba() {
    let frame = RawFrame { data: vec![1, 2, 3, 4, 5, 6, 7, 8, 9], width: 2, height: 1, stride: 8 };
    assert_eq!(frame.to_rgba(), vec![3, 2, 1, 4, 7, 6, 5, 8]);
}

#[test]
fn swapping_channels_twice_changes_nothing() {
    let data: Vec<u8> = (0..40).collect();
    assert_eq!(swap_red_blue(&swap_red_blue(&data)), data);
}
