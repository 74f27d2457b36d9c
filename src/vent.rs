//! Choosing the vent glyph for a requested direction.
use vstd::prelude::*;
use crate::candidate::{area_key, build_candidates, scored, vent_candidates, Candidate};
use crate::sorting::sort_desc;
use crate::contour::{all_background, contour_views, contours_of, find_contours, Point};
use crate::mat::{build_mask, frame_mask, pixel_matches, vent_bands, ColorBand, Mat, VentError};
use crate::ranking::{
    direction_index, leader_of, rank_lists, resolve_all, RankingTable, VentAction,
};

verus! {

/// The share of the top area, in hundredths, that a vent candidate must
/// keep to stay in the running.
pub const DEFAULT_RETENTION_PERCENT: u8 = 50;

/// The palettes that `vent_bands` returns.
pub open spec fn vent_palette() -> Seq<ColorBand> {
    seq![
        ColorBand { c0: 184u8, c1: 179u8, c2: 169u8, delta: 1u8 },
        ColorBand { c0: 116u8, c1: 112u8, c2: 201u8, delta: 1u8 },
    ]
}

/// The centroids of candidates, in their order.
pub open spec fn vent_points(cands: Seq<Candidate>) -> Seq<Point> {
    cands.map_values(|c: Candidate| c.center())
}

/// The point chosen for `action` among the boundaries `regions` of a frame
/// `width` pixels wide: the head of that direction's list once the
/// candidates are ranked and shared leaders repaired.
pub open spec fn chosen_vent(
    regions: Seq<Seq<Point>>,
    width: int,
    max_vents: int,
    percent: int,
    action: VentAction,
) -> Option<Point> {
    let points = vent_points(vent_candidates(regions, width, percent, max_vents));
    leader_of(resolve_all(rank_lists(points), points), direction_index(action))
}

/// The buffer holds `width * height` four-byte pixels, both dimensions positive.
pub open spec fn well_formed_frame(buffer: Seq<u8>, width: int, height: int) -> bool {
    width > 0 && height > 0 && buffer.len() == width * height * 4
}

/// No pixel of a four-channel buffer has a vent colour.
pub open spec fn no_vent_colour(buffer: Seq<u8>) -> bool {
    forall|i: int| 0 <= i < buffer.len() / 4 ==> !#[trigger] pixel_matches(buffer, i, vent_palette())
}

/// The point chosen for `action` in a frame, with the default palettes and
/// retention.
pub open spec fn frame_vent(
    buffer: Seq<u8>,
    width: int,
    height: int,
    max_vents: int,
    action: VentAction,
) -> Option<Point> {
    chosen_vent(
        contours_of(frame_mask(buffer, vent_palette()), width as nat, height as nat),
        width,
        max_vents,
        DEFAULT_RETENTION_PERCENT as int,
        action,
    )
}

/// Chooses the vent for `action` among the region boundaries of a frame
/// `width` pixels wide, keeping at most `max_vents` candidates whose area is
/// at least `percent` hundredths of the largest.
pub fn select_in_regions(
    regions: &Vec<Vec<Point>>,
    width: i32,
    max_vents: u8,
    percent: u8,
    action: &VentAction,
) -> (r: Option<Point>)
    requires
        width > 0,
        percent <= 100,
    ensures
        r == chosen_vent(
            contour_views(regions@),
            width as int,
            max_vents as int,
            percent as int,
            *action,
        ),
{
    let cands = build_candidates(regions, width, percent, max_vents);
    let mut points: Vec<Point> = Vec::new();
    let mut i: usize = 0;
    while i < cands.len()
        invariant
            i <= cands@.len(),
            points@ == vent_points(cands@.take(i as int)),
        decreases cands@.len() - i,
    {
        points.push((cands[i].center_x, cands[i].center_y));
        i = i + 1;
        assert(points@ =~= vent_points(cands@.take(i as int)));
    }
    assert(cands@.take(cands@.len() as int) =~= cands@);
    let mut table = RankingTable::rank(&points);
    table.resolve_ties(&points);
    table.leader(action)
}

proof fn lemma_no_regions(width: int, max_vents: int, percent: int, action: VentAction)
    requires
        max_vents >= 0,
    ensures
        chosen_vent(seq![], width, max_vents, percent, action) is None,
{
    let none: Seq<Seq<Point>> = seq![];
    assert(scored(none, width) =~= seq![]);
    assert(sort_desc(scored(none, width), area_key()) =~= seq![]);
    let cands = vent_candidates(seq![], width, percent, max_vents);
    assert(cands =~= seq![]);
    let points = vent_points(cands);
    assert(points =~= seq![]);
    assert(resolve_all(rank_lists(points), points) == rank_lists(points));
}

/// Finds the vent glyph for `action` in a frame of `width` by `height`
/// four-byte pixels, using the normal and emergency palettes. Fails when the
/// buffer does not match the dimensions, or when the frame holds more than
/// `i32::MAX` pixels.
pub fn select_vent(
    buffer: &[u8],
    width: i32,
    height: i32,
    max_vents: u8,
    action: &VentAction,
) -> (r: Result<Option<Point>, VentError>)
    ensures
        r == Err::<Option<Point>, VentError>(VentError::MalformedFrame) <==> !well_formed_frame(
            buffer@,
            width as int,
            height as int,
        ),
        r == Err::<Option<Point>, VentError>(VentError::FrameTooLarge) <==> (well_formed_frame(
            buffer@,
            width as int,
            height as int,
        ) && width * height > i32::MAX),
        r matches Ok(v) ==> v == frame_vent(
            buffer@,
            width as int,
            height as int,
            max_vents as int,
            *action,
        ),
        well_formed_frame(buffer@, width as int, height as int) && width * height <= i32::MAX
            && no_vent_colour(buffer@) ==> r == Ok::<Option<Point>, VentError>(None),
{
    proof {
        assert(height * width * 4 == width * height * 4) by (nonlinear_arith);
    }
    let frame = match Mat::new_from_bytes(height, width, 4, buffer) {
        Ok(m) => m,
        Err(e) => {
            return Err(e);
        },
    };
    proof {
        assert((height as u64) * (width as u64) <= 0x4000_0000_0000_0000) by (nonlinear_arith)
            requires
                0 < height < 0x8000_0000,
                0 < width < 0x8000_0000,
        ;
        assert(height * width == width * height) by (nonlinear_arith);
    }
    if (height as u64) * (width as u64) > i32::MAX as u64 {
        return Err(VentError::FrameTooLarge);
    }
    let bands = vent_bands();
    let mask = build_mask(&frame, &bands);
    let regions = find_contours(&mask);
    proof {
        if no_vent_colour(buffer@) {
            assert(all_background(mask.data@));
            assert(contour_views(regions@) =~= seq![]);
            lemma_no_regions(
                width as int,
                max_vents as int,
                DEFAULT_RETENTION_PERCENT as int,
                *action,
            );
        }
    }
    Ok(select_in_regions(&regions, width, max_vents, DEFAULT_RETENTION_PERCENT, action))
}

} // verus!
