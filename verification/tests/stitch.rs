use long_shot_rs::stitch::{
    BestMatch, GrayImage, Image, ImageStitcher, MatchPlan, StitchError, MAX_IMAGE_BYTES,
};
use long_shot_rs::types::{RawFrame, StitchParams};

/// A page of pixels: the row number is in the first byte of each pixel.
fn page_frame(width: u32, height: u32, from: u32) -> RawFrame {
    let mut data = vec![];
    for y in 0..height {
        for x in 0..width {
            data.extend_from_slice(&[(from + y) as u8, x as u8, 7, 255]);
        }
    }
    RawFrame { data, width, height, stride: 4 * width }
}

fn gradient_of(frame: &RawFrame) -> Option<GrayImage> {
    let mut data = vec![];
    for y in 0..frame.height {
        for x in 0..frame.width {
            data.push(frame.data[(y * frame.stride + 4 * x) as usize]);
        }
    }
    Some(GrayImage { data, width: frame.width, height: frame.height })
}

fn stitcher() -> ImageStitcher {
    ImageStitcher::new(StitchParams::default())
}

/// The best place of a template that is found where the pixels are the same.
fn locate(stitcher: &ImageStitcher, frame: &RawFrame, direction: i32) -> Option<BestMatch> {
    match stitcher.plan_match(&gradient_of(frame).unwrap(), direction) {
        Ok(MatchPlan::Search { template, region, .. }) => {
            let width = template.width as usize;
            for y in 0..=(region.height - template.height) as usize {
                if region.data[y * width..].starts_with(&template.data) {
                    return Some(BestMatch { y: y as i32, score: 1_000_000 });
                }
            }
            Some(BestMatch { y: 0, score: 0 })
        }
        _ => None,
    }
}

fn feed(stitcher: &mut ImageStitcher, frame: &RawFrame) -> Result<bool, StitchError> {
    let best = locate(stitcher, frame, 0);
    stitcher.process_frame(frame, gradient_of(frame), 0, best)
}

#[test]
fn first_frame_becomes_the_image() {
    let mut s = stitcher();
    assert_eq!(s.get_total_height(), 0);
    assert!(s.get_result_rgba().is_none());
    let frame = page_frame(3, 40, 0);
    assert_eq!(feed(&mut s, &frame), Ok(true));
    assert_eq!(s.get_result_rgba(), Some((frame.to_rgba(), 3, 40)));
    assert_eq!(s.get_total_height(), 40);
    assert_eq!(s.get_frame_count(), 1);
}

#[test]
fn scrolling_reconstructs_the_page() {
    let mut s = stitcher();
    let mut shown = 0;
    for from in [0u32, 10, 23, 30, 60] {
        assert_eq!(feed(&mut s, &page_frame(4, 100, from)), Ok(true), "{}", from);
        shown = from + 100;
        let whole = page_frame(4, shown, 0);
        assert_eq!(s.get_result_rgba(), Some((whole.to_rgba(), 4, shown)));
    }
    assert_eq!(s.get_total_height(), shown as i32);
    assert_eq!(s.get_frame_count(), 5);
}

#[test]
fn unchanged_and_backward_frames_are_not_stitched() {
    let mut s = stitcher();
    assert_eq!(feed(&mut s, &page_frame(4, 100, 50)), Ok(true));
    assert_eq!(feed(&mut s, &page_frame(4, 100, 50)), Ok(false));
    assert_eq!(feed(&mut s, &page_frame(4, 100, 40)), Ok(false));
    assert_eq!(s.get_total_height(), 100);
    assert_eq!(s.get_frame_count(), 3);
}

#[test]
fn weak_matches_are_not_stitched() {
    let mut s = stitcher();
    feed(&mut s, &page_frame(4, 100, 0)).unwrap();
    let frame = page_frame(4, 100, 10);
    let weak = Some(BestMatch { y: 10, score: 499_999 });
    assert_eq!(s.process_frame(&frame, gradient_of(&frame), 0, weak), Ok(false));
    let mut s = stitcher();
    feed(&mut s, &page_frame(4, 100, 0)).unwrap();
    let enough = Some(BestMatch { y: 10, score: 500_000 });
    assert_eq!(s.process_frame(&frame, gradient_of(&frame), 0, enough), Ok(true));
    assert_eq!(s.get_total_height(), 110);
}

#[test]
fn effective_region_leaves_out_both_margins() {
    assert_eq!(stitcher().get_effective_region(100), (15, 85));
    assert_eq!(stitcher().get_effective_region(1079), (161, 918));
    assert_eq!(stitcher().get_effective_region(0), (0, 0));
}

#[test]
fn template_takes_a_fifth_of_the_frame() {
    let mut s = stitcher();
    let frame = page_frame(2, 200, 0);
    let gradient = gradient_of(&frame).unwrap();
    assert_eq!(s.plan_match(&gradient, 0), Ok(MatchPlan::NoSearch));
    feed(&mut s, &frame).unwrap();
    match s.plan_match(&gradient, 0).unwrap() {
        MatchPlan::Search { template, region, top } => {
            assert_eq!((template.width, template.height), (2, 40));
            assert_eq!(template.data, gradient.data[60..140].to_vec());
            assert_eq!((region.width, region.height, top), (2, 140, 30));
            assert_eq!(region.data, gradient.data[60..340].to_vec());
        }
        other => panic!("{:?}", other),
    }
}

#[test]
fn search_stays_near_the_last_match() {
    let params = StitchParams { max_search_range: 5, ..StitchParams::default() };
    let mut s = ImageStitcher::new(params);
    feed(&mut s, &page_frame(2, 100, 0)).unwrap();
    assert_eq!(feed(&mut s, &page_frame(2, 100, 20)), Ok(true));
    let gradient = gradient_of(&page_frame(2, 100, 40)).unwrap();
    match s.plan_match(&gradient, 0).unwrap() {
        MatchPlan::Search { region, top, .. } => assert_eq!((region.height, top), (30, 30)),
        other => panic!("{:?}", other),
    }
    // Ten rows further the match would lie outside the searched rows.
    assert_eq!(feed(&mut s, &page_frame(2, 100, 30)), Ok(false));
}

#[test]
fn search_follows_the_direction_of_the_scroll() {
    let mut s = stitcher();
    feed(&mut s, &page_frame(2, 100, 50)).unwrap();
    assert_eq!(feed(&mut s, &page_frame(2, 100, 60)), Ok(true));
    let gradient = gradient_of(&page_frame(2, 100, 70)).unwrap();
    for (direction, rows, first) in [(0, 100, 0), (1, 85, 15), (-1, 35, 0)] {
        match s.plan_match(&gradient, direction).unwrap() {
            MatchPlan::Search { region, top, .. } => {
                assert_eq!((region.height, top), (rows, first), "{}", direction);
            }
            other => panic!("{:?}", other),
        }
    }
    let down = page_frame(2, 100, 70);
    let best = locate(&s, &down, -1);
    assert_eq!(s.process_frame(&down, gradient_of(&down), -1, best), Ok(false));
    let best = locate(&s, &down, 1);
    assert_eq!(s.process_frame(&down, gradient_of(&down), 1, best), Ok(true));
    assert_eq!(s.get_total_height(), 120);
}

#[test]
fn frames_after_a_gap_are_refused() {
    let mut s = stitcher();
    feed(&mut s, &page_frame(4, 100, 0)).unwrap();
    // Nothing of this frame is in the image, and the next one overlaps it only.
    assert_eq!(feed(&mut s, &page_frame(4, 100, 120)), Ok(false));
    assert_eq!(feed(&mut s, &page_frame(4, 100, 130)), Ok(false));
    assert_eq!(s.get_result_rgba(), Some((page_frame(4, 100, 0).to_rgba(), 4, 100)));
    assert_eq!(feed(&mut s, &page_frame(4, 100, 30)), Ok(true));
    assert_eq!(s.get_result_rgba(), Some((page_frame(4, 130, 0).to_rgba(), 4, 130)));
}

#[test]
fn scrolling_up_and_down_repeats_no_row() {
    let mut s = stitcher();
    for (from, stitched, height) in [
        (0, true, 100),
        (10, true, 110),
        (5, false, 110),
        (10, false, 110),
        (0, false, 110),
        (20, true, 120),
    ] {
        assert_eq!(feed(&mut s, &page_frame(4, 100, from)), Ok(stitched), "{}", from);
        assert_eq!(
            s.get_result_rgba(),
            Some((page_frame(4, height, 0).to_rgba(), 4, height)),
        );
    }
}

#[test]
fn content_is_appended_where_the_frame_has_so_many_rows() {
    let mut s = stitcher();
    feed(&mut s, &page_frame(1, 30, 0)).unwrap();
    let frame = page_frame(1, 3, 30);
    let current = Image { data: frame.data, width: 1, height: 3 };
    for shift in [0, -1, 4, i32::MIN, i32::MAX] {
        assert_eq!(s.append_content(&current, shift), Ok(()));
        assert_eq!(s.get_total_height(), 30);
    }
    assert_eq!(s.append_content(&current, 3), Ok(()));
    assert_eq!(s.get_result_rgba(), Some((page_frame(1, 33, 0).to_rgba(), 1, 33)));
    assert_eq!(s.append_content(&current, 1), Ok(()));
    assert_eq!(s.get_total_height(), 34);
    assert_eq!(s.get_frame_count(), 1);
    let wide = Image { data: vec![0; 24], width: 2, height: 3 };
    assert_eq!(s.append_content(&wide, 1), Err(StitchError::Width));
}

#[test]
fn low_frames_have_no_room_for_a_template() {
    let mut s = stitcher();
    let frame = page_frame(2, 22, 0);
    feed(&mut s, &frame).unwrap();
    assert_eq!(feed(&mut s, &frame), Err(StitchError::Template));
    let mut s = stitcher();
    let frame = page_frame(2, 24, 0);
    feed(&mut s, &frame).unwrap();
    assert_eq!(s.plan_match(&gradient_of(&frame).unwrap(), 0), Ok(MatchPlan::NoSearch));
    assert_eq!(feed(&mut s, &frame), Ok(false));
}

#[test]
fn bad_frames_are_counted_and_refused() {
    let mut s = stitcher();
    let short = RawFrame { data: vec![0; 31], width: 2, height: 4, stride: 8 };
    assert_eq!(s.process_frame(&short, None, 0, None), Err(StitchError::BadFrame));
    let empty = RawFrame { data: vec![], width: 0, height: 0, stride: 0 };
    assert_eq!(s.process_frame(&empty, None, 0, None), Err(StitchError::BadFrame));
    let narrow = RawFrame { data: vec![0; 100], width: 2, height: 4, stride: 7 };
    assert_eq!(s.process_frame(&narrow, None, 0, None), Err(StitchError::BadFrame));
    let frame = page_frame(2, 30, 0);
    assert_eq!(s.process_frame(&frame, None, 0, None), Err(StitchError::Gradient));
    let small = Some(GrayImage { data: vec![0; 58], width: 2, height: 29 });
    assert_eq!(s.process_frame(&frame, small, 0, None), Err(StitchError::Gradient));
    assert_eq!(s.get_frame_count(), 5);
    assert!(s.get_result_rgba().is_none());
}

#[test]
fn missing_match_is_an_error() {
    let mut s = stitcher();
    feed(&mut s, &page_frame(2, 100, 0)).unwrap();
    let frame = page_frame(2, 100, 10);
    assert_eq!(s.process_frame(&frame, gradient_of(&frame), 0, None), Err(StitchError::Match));
    assert_eq!(feed(&mut s, &frame), Ok(true));
}

#[test]
fn wider_frames_are_refused_and_narrower_ones_cut_the_image() {
    let mut s = stitcher();
    feed(&mut s, &page_frame(2, 100, 0)).unwrap();
    let wide = page_frame(3, 100, 10);
    let best = Some(BestMatch { y: 10, score: 900_000 });
    assert_eq!(s.process_frame(&wide, gradient_of(&wide), 0, best), Err(StitchError::Width));
    let narrow = page_frame(1, 100, 10);
    assert_eq!(s.process_frame(&narrow, gradient_of(&narrow), 0, best), Ok(true));
    let (data, width, height) = s.get_result_rgba().unwrap();
    assert_eq!((data.len(), width, height), (440, 1, 110));
}

#[test]
fn gaps_between_rows_are_dropped() {
    let mut s = stitcher();
    let frame = RawFrame {
        data: vec![1, 2, 3, 4, 0, 0, 5, 6, 7, 8],
        width: 1,
        height: 2,
        stride: 6,
    };
    let gradient = Some(GrayImage { data: vec![0, 0], width: 1, height: 2 });
    assert_eq!(s.process_frame(&frame, gradient, 0, None), Ok(true));
    assert_eq!(s.get_result_rgba(), Some((vec![3, 2, 1, 4, 7, 6, 5, 8], 1, 2)));
    assert_eq!(s.image_to_save(), Ok((vec![1, 2, 3, 5, 6, 7], 1, 2)));
}

#[test]
fn reset_forgets_all_frames() {
    let mut s = stitcher();
    assert_eq!(s.image_to_save(), Err(StitchError::NoImage));
    feed(&mut s, &page_frame(2, 100, 0)).unwrap();
    feed(&mut s, &page_frame(2, 100, 5)).unwrap();
    s.reset();
    assert_eq!(s.get_total_height(), 0);
    assert_eq!(s.get_frame_count(), 0);
    assert_eq!(s.image_to_save(), Err(StitchError::NoImage));
    assert_eq!(feed(&mut s, &page_frame(2, 50, 0)), Ok(true));
    assert_eq!(s.get_total_height(), 50);
}

#[test]
fn previews_are_scaled_only_where_needed() {
    let mut s = stitcher();
    assert!(s.preview_source(10).is_none());
    assert!(s.get_preview(10, Some((vec![1, 2, 3, 4], 1))).is_none());
    let frame = page_frame(2, 40, 0);
    feed(&mut s, &frame).unwrap();
    assert!(s.preview_source(40).is_none());
    assert_eq!(s.get_preview(40, None), Some((frame.to_rgba(), 2, 40)));
    assert_eq!(s.preview_source(39).unwrap().height, 40);
    assert_eq!(s.get_preview(1, Some((vec![1, 2, 3, 4], 1))), Some((vec![3, 2, 1, 4], 1, 1)));
    assert!(s.get_preview(1, None).is_none());
}

#[test]
fn errors_have_words() {
    assert_eq!(StitchError::NoImage.message(), "No image to save");
    assert_eq!(StitchError::TooLarge.message(), "Image is too large");
    assert_eq!(MAX_IMAGE_BYTES, i32::MAX as u64);
    for e in [
        StitchError::BadFrame,
        StitchError::Gradient,
        StitchError::Template,
        StitchError::Match,
        StitchError::Width,
    ] {
        assert!(!e.message().is_empty());
    }
}
