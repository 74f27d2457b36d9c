use vent_locator::{select_in_regions, select_vent, Point, VentAction, VentError};

const WIDTH: i32 = 1000;

fn square(x: i32, y: i32, side: i32) -> Vec<Point> {
    vec![(x, y), (x + side, y), (x + side, y + side), (x, y + side)]
}

fn all_actions() -> Vec<VentAction> {
    vec![VentAction::VentUp, VentAction::VentDown, VentAction::VentRight, VentAction::VentLeft]
}

fn pick(regions: &Vec<Vec<Point>>, action: VentAction) -> Option<Point> {
    select_in_regions(regions, WIDTH, 3, 50, &action)
}

#[test]
fn single_blob_any_direction() {
    let regions = vec![square(100, 200, 10)];
    for action in all_actions() {
        assert_eq!(pick(&regions, action), Some((105, 205)));
    }
}

#[test]
fn two_equal_blobs_by_position() {
    let regions = vec![square(100, 300, 10), square(400, 100, 10)];
    assert_eq!(pick(&regions, VentAction::VentDown), Some((105, 305)));
    assert_eq!(pick(&regions, VentAction::VentUp), Some((405, 105)));
    assert_eq!(pick(&regions, VentAction::VentRight), Some((405, 105)));
    assert_eq!(pick(&regions, VentAction::VentLeft), Some((105, 305)));
}

#[test]
fn noise_blob_is_never_returned() {
    // One pixel: no area at all.
    let dot = vec![vec![(5, 5)]];
    for action in all_actions() {
        assert_eq!(pick(&dot, action), None);
    }
    // A 1x1 square: area score 1/1000, under the floor of one hundredth.
    let tiny = vec![square(700, 700, 1)];
    for action in all_actions() {
        assert_eq!(pick(&tiny, action), None);
    }
    let with_noise = vec![square(900, 900, 1), square(100, 200, 10), vec![(950, 20)]];
    for action in all_actions() {
        assert_eq!(pick(&with_noise, action), Some((105, 205)));
    }
}

#[test]
fn noise_floor_is_exclusive() {
    // Doubled area 20 at width 1000: area score exactly one hundredth.
    let at_floor = vec![vec![(0, 0), (10, 0), (10, 2)]];
    assert_eq!(pick(&at_floor, VentAction::VentDown), None);
    // Doubled area 22: just above.
    let above = vec![vec![(0, 0), (11, 0), (11, 2)]];
    assert!(pick(&above, VentAction::VentDown).is_some());
}

#[test]
fn dominant_blob_wins_every_direction() {
    let regions = vec![square(10, 10, 10), square(500, 500, 40), square(900, 10, 10)];
    for action in all_actions() {
        assert_eq!(pick(&regions, action), Some((520, 520)));
    }
}

#[test]
fn repeated_calls_agree() {
    let regions = vec![square(100, 300, 10), square(400, 100, 10), square(250, 250, 10)];
    for action in all_actions() {
        let first = pick(&regions, action);
        let second = pick(&regions, action);
        assert_eq!(first, second);
    }
}

#[test]
fn tie_break_promotes_runner_up() {
    // A is both bottommost and rightmost, B follows it in the down list and
    // C in the right list; B is closer to A vertically (0) than C is
    // horizontally (20), so C takes the right direction.
    let a = square(95, 45, 10);
    let b = square(5, 45, 10);
    let c = square(75, 45, 10);
    let regions = vec![a, b, c];
    assert_eq!(pick(&regions, VentAction::VentDown), Some((100, 50)));
    assert_eq!(pick(&regions, VentAction::VentRight), Some((80, 50)));
    assert_eq!(pick(&regions, VentAction::VentUp), Some((100, 50)));
    assert_eq!(pick(&regions, VentAction::VentLeft), Some((10, 50)));
}

#[test]
fn no_regions_gives_none() {
    let regions: Vec<Vec<Point>> = Vec::new();
    for action in all_actions() {
        assert_eq!(pick(&regions, action), None);
    }
}

#[test]
fn max_vents_caps_candidates() {
    let regions = vec![square(100, 100, 10), square(100, 600, 10)];
    let only_first = select_in_regions(&regions, WIDTH, 1, 50, &VentAction::VentDown);
    assert_eq!(only_first, Some((105, 105)));
    let both = select_in_regions(&regions, WIDTH, 2, 50, &VentAction::VentDown);
    assert_eq!(both, Some((105, 605)));
    let none = select_in_regions(&regions, WIDTH, 0, 50, &VentAction::VentDown);
    assert_eq!(none, None);
}

#[test]
fn retention_ratio_drops_smaller_blobs() {
    // Doubled areas 200 and 128: the second keeps 64% of the top.
    let regions = vec![square(100, 100, 10), square(100, 600, 8)];
    assert_eq!(
        select_in_regions(&regions, WIDTH, 3, 50, &VentAction::VentDown),
        Some((104, 604))
    );
    assert_eq!(
        select_in_regions(&regions, WIDTH, 3, 90, &VentAction::VentDown),
        Some((105, 105))
    );
}

fn frame(width: usize, height: usize) -> Vec<u8> {
    vec![0u8; width * height * 4]
}

fn paint(buf: &mut Vec<u8>, width: usize, x0: usize, y0: usize, side: usize, bgra: [u8; 4]) {
    for y in y0..y0 + side {
        for x in x0..x0 + side {
            let i = (y * width + x) * 4;
            buf[i..i + 4].copy_from_slice(&bgra);
        }
    }
}

#[test]
fn empty_frame_gives_none() {
    let buf = frame(16, 12);
    for action in all_actions() {
        assert_eq!(select_vent(&buf, 16, 12, 3, &action), Ok(None));
    }
}

#[test]
fn frame_without_vent_colour_gives_none() {
    let mut buf = frame(40, 40);
    paint(&mut buf, 40, 10, 10, 8, [200, 10, 10, 255]);
    // Right colour but not opaque.
    paint(&mut buf, 40, 25, 25, 8, [184, 179, 169, 254]);
    for action in all_actions() {
        assert_eq!(select_vent(&buf, 40, 40, 3, &action), Ok(None));
    }
}

#[test]
fn frame_with_one_glyph() {
    let mut buf = frame(40, 40);
    paint(&mut buf, 40, 10, 20, 6, [184, 179, 169, 255]);
    for action in all_actions() {
        assert_eq!(select_vent(&buf, 40, 40, 3, &action), Ok(Some((13, 23))));
    }
}

#[test]
fn frame_with_emergency_glyph_within_tolerance() {
    let mut buf = frame(40, 40);
    paint(&mut buf, 40, 20, 5, 6, [117, 111, 202, 255]);
    assert_eq!(select_vent(&buf, 40, 40, 3, &VentAction::VentUp), Ok(Some((23, 8))));
}

#[test]
fn frame_with_two_glyphs() {
    let mut buf = frame(60, 60);
    paint(&mut buf, 60, 5, 40, 6, [184, 179, 169, 255]);
    paint(&mut buf, 60, 40, 5, 6, [116, 112, 201, 255]);
    assert_eq!(select_vent(&buf, 60, 60, 3, &VentAction::VentDown), Ok(Some((8, 43))));
    assert_eq!(select_vent(&buf, 60, 60, 3, &VentAction::VentUp), Ok(Some((43, 8))));
    assert_eq!(select_vent(&buf, 60, 60, 3, &VentAction::VentRight), Ok(Some((43, 8))));
    assert_eq!(select_vent(&buf, 60, 60, 3, &VentAction::VentLeft), Ok(Some((8, 43))));
}

#[test]
fn malformed_frames_are_rejected() {
    let buf = frame(4, 4);
    assert_eq!(
        select_vent(&buf, 4, 5, 3, &VentAction::VentUp),
        Err(VentError::MalformedFrame)
    );
    assert_eq!(
        select_vent(&buf[..63], 4, 4, 3, &VentAction::VentUp),
        Err(VentError::MalformedFrame)
    );
    assert_eq!(
        select_vent(&[], 0, 0, 3, &VentAction::VentUp),
        Err(VentError::MalformedFrame)
    );
    assert_eq!(
        select_vent(&buf, -4, -4, 3, &VentAction::VentUp),
        Err(VentError::MalformedFrame)
    );
}
