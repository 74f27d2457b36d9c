use vent_locator::{
    bitwise_or, build_candidates, build_mask, centroid, contour_area, in_range, keep_comparable,
    key_transition, InputState,
    score_regions, sort_by_area, vent_bands, Candidate, ColorBand, Mat, Point, RankingTable,
    VentAction, VentError,
};

fn band() -> ColorBand {
    ColorBand { c0: 184, c1: 179, c2: 169, delta: 1 }
}

fn row(pixels: &[[u8; 4]]) -> Mat {
    let bytes: Vec<u8> = pixels.iter().flat_map(|p| p.iter().copied()).collect();
    Mat::new_from_bytes(1, pixels.len() as i32, 4, &bytes).unwrap()
}

fn cand(area: u128, x: i32, y: i32) -> Candidate {
    Candidate { doubled_area: area, center_x: x, center_y: y }
}

#[test]
fn new_from_bytes_checks_length() {
    let m = Mat::new_from_bytes(2, 3, 4, &[7u8; 24]).unwrap();
    assert_eq!((m.rows, m.cols, m.channels), (2, 3, 4));
    assert_eq!(m.data, vec![7u8; 24]);
    assert_eq!(Mat::new_from_bytes(2, 3, 4, &[7u8; 23]).unwrap_err(), VentError::MalformedFrame);
    assert_eq!(Mat::new_from_bytes(0, 3, 4, &[]).unwrap_err(), VentError::MalformedFrame);
    assert_eq!(Mat::new_from_bytes(2, 3, 0, &[]).unwrap_err(), VentError::MalformedFrame);
}

#[test]
fn in_range_is_inclusive_and_needs_opacity() {
    let m = row(&[
        [184, 179, 169, 255],
        [185, 178, 170, 255],
        [186, 179, 169, 255],
        [184, 179, 167, 255],
        [184, 179, 169, 254],
        [183, 180, 168, 255],
    ]);
    let mask = in_range(&m, &band());
    assert_eq!((mask.rows, mask.cols, mask.channels), (1, 6, 1));
    assert_eq!(mask.data, vec![255, 255, 0, 0, 0, 255]);
}

#[test]
fn bitwise_or_combines_masks() {
    let a = Mat { rows: 1, cols: 3, channels: 1, data: vec![0, 255, 0] };
    let b = Mat { rows: 1, cols: 3, channels: 1, data: vec![0, 0, 255] };
    assert_eq!(bitwise_or(&a, &b).data, vec![0, 255, 255]);
}

#[test]
fn build_mask_unions_both_palettes() {
    let m = row(&[
        [184, 179, 169, 255],
        [116, 112, 201, 255],
        [117, 113, 200, 255],
        [150, 150, 150, 255],
    ]);
    let mask = build_mask(&m, &vent_bands());
    assert_eq!(mask.data, vec![255, 255, 255, 0]);
    assert_eq!(build_mask(&m, &Vec::new()).data, vec![0, 0, 0, 0]);
}

#[test]
fn vent_bands_are_the_two_palettes() {
    let bands = vent_bands();
    assert_eq!(bands.len(), 2);
    assert_eq!(bands[0], ColorBand { c0: 184, c1: 179, c2: 169, delta: 1 });
    assert_eq!(bands[1], ColorBand { c0: 116, c1: 112, c2: 201, delta: 1 });
}

#[test]
fn contour_area_by_shoelace() {
    let sq: Vec<Point> = vec![(0, 0), (10, 0), (10, 10), (0, 10)];
    assert_eq!(contour_area(&sq), 200);
    let reversed: Vec<Point> = sq.iter().rev().copied().collect();
    assert_eq!(contour_area(&reversed), 200);
    assert_eq!(contour_area(&vec![(0, 0), (4, 0), (0, 3)]), 12);
    assert_eq!(contour_area(&vec![(3, 3)]), 0);
    assert_eq!(contour_area(&Vec::new()), 0);
    let far: Vec<Point> = vec![(i32::MIN, i32::MIN), (i32::MAX, i32::MIN), (i32::MAX, i32::MAX)];
    let side = (i32::MAX as i128 - i32::MIN as i128) as u128;
    assert_eq!(contour_area(&far), side * side);
}

#[test]
fn centroid_rounds_half_up() {
    assert_eq!(centroid(&vec![(0, 0), (1, 0)]), Some((1, 0)));
    assert_eq!(centroid(&vec![(-1, 0), (0, 0)]), Some((0, 0)));
    assert_eq!(centroid(&vec![(0, 0), (0, 1), (0, 1)]), Some((0, 1)));
    assert_eq!(centroid(&vec![(-3, -3), (-4, -4)]), Some((-3, -3)));
    assert_eq!(centroid(&vec![(i32::MAX, i32::MIN), (i32::MAX, i32::MIN)]), Some((i32::MAX, i32::MIN)));
    assert_eq!(centroid(&Vec::new()), None);
}

#[test]
fn score_regions_drops_noise_and_degenerate() {
    let regions: Vec<Vec<Point>> = vec![
        vec![(0, 0), (10, 0), (10, 2)],
        vec![(0, 0), (11, 0), (11, 2)],
        vec![(5, 5)],
        Vec::new(),
    ];
    let c = score_regions(&regions, 1000);
    assert_eq!(c, vec![cand(22, 7, 1)]);
}

#[test]
fn sort_by_area_is_stable_descending() {
    let v = vec![cand(5, 1, 1), cand(9, 2, 2), cand(5, 3, 3), cand(7, 4, 4)];
    let s = sort_by_area(&v);
    assert_eq!(s, vec![cand(9, 2, 2), cand(7, 4, 4), cand(5, 1, 1), cand(5, 3, 3)]);
}

#[test]
fn keep_comparable_cuts_at_ratio_and_cap() {
    let sorted = vec![cand(100, 0, 0), cand(50, 1, 1), cand(49, 2, 2), cand(48, 3, 3)];
    assert_eq!(keep_comparable(&sorted, 50, 9), sorted[..2].to_vec());
    assert_eq!(keep_comparable(&sorted, 50, 1), sorted[..1].to_vec());
    assert_eq!(keep_comparable(&sorted, 0, 9), sorted);
    assert_eq!(keep_comparable(&sorted, 100, 9), sorted[..1].to_vec());
    assert_eq!(keep_comparable(&Vec::new(), 50, 3), Vec::new());
}

#[test]
fn build_candidates_chains_the_steps() {
    let regions: Vec<Vec<Point>> = vec![
        vec![(0, 0), (10, 0), (10, 10), (0, 10)],
        vec![(0, 0), (1, 0), (1, 1), (0, 1)],
        vec![(20, 20), (40, 20), (40, 40), (20, 40)],
    ];
    let c = build_candidates(&regions, 100, 50, 3);
    assert_eq!(c, vec![cand(800, 30, 30)]);
    let c = build_candidates(&regions, 100, 20, 3);
    assert_eq!(c, vec![cand(800, 30, 30), cand(200, 5, 5)]);
}

#[test]
fn rank_orders_each_direction() {
    let pts: Vec<Point> = vec![(10, 20), (30, 5), (20, 40)];
    let t = RankingTable::rank(&pts);
    assert_eq!(t.down, vec![(20, 40), (10, 20), (30, 5)]);
    assert_eq!(t.up, vec![(30, 5), (10, 20), (20, 40)]);
    assert_eq!(t.right, vec![(30, 5), (20, 40), (10, 20)]);
    assert_eq!(t.left, vec![(10, 20), (20, 40), (30, 5)]);
}

#[test]
fn resolve_ties_swaps_closest_contest() {
    let pts: Vec<Point> = vec![(100, 50), (10, 50), (80, 50)];
    let mut t = RankingTable::rank(&pts);
    t.resolve_ties(&pts);
    assert_eq!(t.right, vec![(80, 50), (100, 50), (10, 50)]);
    assert_eq!(t.left, vec![(10, 50), (80, 50), (100, 50)]);
    assert_eq!(t.leader(&VentAction::VentRight), Some((80, 50)));
    assert_eq!(t.leader(&VentAction::VentDown), Some((100, 50)));
}

#[test]
fn resolve_ties_leaves_leaders_alone() {
    let pts: Vec<Point> = vec![(10, 20), (30, 5), (20, 40)];
    let mut t = RankingTable::rank(&pts);
    t.resolve_ties(&pts);
    assert_eq!(t.down, vec![(20, 40), (10, 20), (30, 5)]);
    assert_eq!(t.right, vec![(30, 5), (20, 40), (10, 20)]);
}

#[test]
fn leader_of_empty_table() {
    let t = RankingTable::rank(&Vec::new());
    assert_eq!(t.leader(&VentAction::VentUp), None);
}

#[test]
fn key_transition_debounces_axis_keys() {
    assert_eq!(key_transition(None, InputState::Down, false), (None, true));
    assert_eq!(
        key_transition(Some(InputState::Down), InputState::Down, false),
        (Some(InputState::Down), true)
    );
    assert_eq!(key_transition(None, InputState::Down, true), (Some(InputState::Down), true));
    assert_eq!(
        key_transition(Some(InputState::Down), InputState::Down, true),
        (Some(InputState::Down), false)
    );
    assert_eq!(
        key_transition(Some(InputState::Down), InputState::Up, true),
        (Some(InputState::Up), true)
    );
}
