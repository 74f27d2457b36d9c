//! Scoring region boundaries, and keeping the few that look like glyphs.
use vstd::prelude::*;
use vstd::arithmetic::div_mod::lemma_fundamental_div_mod;
use crate::contour::{
    centroid, centroid_of, contour_area, contour_views, doubled_area, Point,
};
use crate::sorting::{insert_desc, lemma_insert_desc_at, sort_desc};

verus! {

/// A scored region: twice its enclosed area, and its centroid.
///
/// The area score of the glyph search is the area divided by the frame
/// width; as every candidate of one frame shares that width, candidates are
/// compared by area directly.
#[derive(Clone, Copy, Debug, PartialEq, Eq, Structural)]
pub struct Candidate {
    pub doubled_area: u128,
    pub center_x: i32,
    pub center_y: i32,
}

impl Candidate {
    /// The centroid as a point.
    pub open spec fn center(self) -> Point {
        (self.center_x, self.center_y)
    }
}

/// The area score `area / width` exceeds the noise floor of one hundredth.
pub open spec fn above_noise_floor(c: Seq<Point>, width: int) -> bool {
    50 * doubled_area(c) > width
}

/// The candidate of a boundary.
pub open spec fn candidate_of(c: Seq<Point>) -> Candidate {
    Candidate {
        doubled_area: doubled_area(c) as u128,
        center_x: centroid_of(c).0,
        center_y: centroid_of(c).1,
    }
}

/// The candidates of the boundaries above the noise floor, in extraction order.
pub open spec fn scored(regions: Seq<Seq<Point>>, width: int) -> Seq<Candidate>
    decreases regions.len(),
{
    if regions.len() == 0 {
        seq![]
    } else {
        let rest = scored(regions.drop_last(), width);
        if above_noise_floor(regions.last(), width) {
            rest.push(candidate_of(regions.last()))
        } else {
            rest
        }
    }
}

/// Ordering key of candidates: their area.
pub open spec fn area_key() -> spec_fn(Candidate) -> int {
    |c: Candidate| c.doubled_area as int
}

/// An area keeps at least `percent` hundredths of the top area.
pub open spec fn comparable(area: int, top: int, percent: int) -> bool {
    100 * area >= percent * top
}

/// Length of the longest prefix of `s`, from position `i` on, whose areas
/// are all comparable to the area of `s[0]`.
pub open spec fn comparable_len(s: Seq<Candidate>, percent: int, i: int) -> int
    decreases s.len() - i,
{
    if i >= s.len() || i < 0 {
        if i < 0 { 0 } else { s.len() as int }
    } else if !comparable(s[i].doubled_area as int, s[0].doubled_area as int, percent) {
        i
    } else {
        comparable_len(s, percent, i + 1)
    }
}

/// The smaller of two integers.
pub open spec fn min(a: int, b: int) -> int {
    if a <= b {
        a
    } else {
        b
    }
}

/// The area-sorted list cut at its first candidate that is not comparable
/// to the top one, then at `max_vents`.
pub open spec fn shortlist(sorted: Seq<Candidate>, percent: int, max_vents: int) -> Seq<Candidate> {
    sorted.take(min(comparable_len(sorted, percent, 0), max_vents))
}

/// The candidates that the glyph search keeps from a list of boundaries.
pub open spec fn vent_candidates(
    regions: Seq<Seq<Point>>,
    width: int,
    percent: int,
    max_vents: int,
) -> Seq<Candidate> {
    shortlist(sort_desc(scored(regions, width), area_key()), percent, max_vents)
}

pub(crate) proof fn lemma_comparable_len_bound(s: Seq<Candidate>, percent: int, i: int)
    requires
        0 <= i <= s.len(),
    ensures
        i <= comparable_len(s, percent, i) <= s.len(),
    decreases s.len() - i,
{
    if i < s.len() && comparable(s[i].doubled_area as int, s[0].doubled_area as int, percent) {
        lemma_comparable_len_bound(s, percent, i + 1);
    }
}

proof fn lemma_noise_floor_exec(a: int, width: int)
    requires
        a >= 0,
        width >= 0,
    ensures
        (50 * a > width) == (a > width / 50),
{
    lemma_fundamental_div_mod(width, 50);
}

/// Scores every boundary and keeps the candidates above the noise floor, in
/// extraction order. A boundary without area has no centroid and is dropped.
pub fn score_regions(regions: &Vec<Vec<Point>>, width: i32) -> (r: Vec<Candidate>)
    requires
        width > 0,
    ensures
        r@ == scored(contour_views(regions@), width as int),
{
    let ghost views = contour_views(regions@);
    let mut out: Vec<Candidate> = Vec::new();
    let floor = (width / 50) as u128;
    let mut i: usize = 0;
    while i < regions.len()
        invariant
            width > 0,
            floor == width / 50,
            views == contour_views(regions@),
            i <= regions@.len(),
            out@ == scored(views.take(i as int), width as int),
        decreases regions@.len() - i,
    {
        let c = &regions[i];
        let area = contour_area(c);
        proof {
            lemma_noise_floor_exec(area as int, width as int);
            assert(views.take(i + 1).drop_last() =~= views.take(i as int));
            assert(views.take(i + 1).last() == c@);
        }
        if area > floor {
            match centroid(c) {
                Some(p) => {
                    out.push(Candidate { doubled_area: area, center_x: p.0, center_y: p.1 });
                },
                None => {},
            }
        }
        i = i + 1;
    }
    assert(views.take(regions@.len() as int) =~= views);
    out
}

/// Sorts candidates by descending area; equal areas keep their order.
pub fn sort_by_area(v: &Vec<Candidate>) -> (r: Vec<Candidate>)
    ensures
        r@ == sort_desc(v@, area_key()),
{
    let mut out: Vec<Candidate> = Vec::new();
    let mut i: usize = 0;
    while i < v.len()
        invariant
            i <= v@.len(),
            out@ == sort_desc(v@.take(i as int), area_key()),
        decreases v@.len() - i,
    {
        let x = v[i];
        let mut pos: usize = 0;
        while pos < out.len() && !(out[pos].doubled_area < x.doubled_area)
            invariant
                pos <= out@.len(),
                forall|j: int| 0 <= j < pos ==> !((area_key())(#[trigger] out@[j]) < (area_key())(x)),
            decreases out@.len() - pos,
        {
            pos = pos + 1;
        }
        proof {
            lemma_insert_desc_at(x, out@, area_key(), pos as int);
            assert(v@.take(i + 1).drop_last() =~= v@.take(i as int));
            assert(v@.take(i + 1).last() == x);
        }
        out.insert(pos, x);
        assert(out@ =~= insert_desc(x, sort_desc(v@.take(i as int), area_key()), area_key()));
        i = i + 1;
    }
    assert(v@.take(v@.len() as int) =~= v@);
    out
}

/// Decides `100 * area >= percent * top` without leaving 128 bits.
fn comparable_exec(area: u128, top: u128, percent: u8) -> (r: bool)
    requires
        percent <= 100,
    ensures
        r == comparable(area as int, top as int, percent as int),
{
    let q = top / 100;
    let rem = top % 100;
    let p = percent as u128;
    proof {
        lemma_fundamental_div_mod(top as int, 100);
        assert(p * q <= 100 * q) by (nonlinear_arith)
            requires
                p <= 100,
                q >= 0,
        ;
        assert(p * rem <= 9900) by (nonlinear_arith)
            requires
                p <= 100,
                0 <= rem < 100,
        ;
        assert(p * top == 100 * (p * q) + p * rem) by (nonlinear_arith)
            requires
                top == 100 * q + rem,
        ;
    }
    let whole = p * q;
    if area < whole {
        return false;
    }
    let part = p * rem;
    let need = (part + 99) / 100;
    proof {
        lemma_fundamental_div_mod(part + 99, 100);
    }
    area - whole >= need
}

/// Cuts an area-sorted list at its first candidate whose area falls below
/// `percent` hundredths of the top area, then at `max_vents` entries.
pub fn keep_comparable(sorted: &Vec<Candidate>, percent: u8, max_vents: u8) -> (r: Vec<Candidate>)
    requires
        percent <= 100,
    ensures
        r@ == shortlist(sorted@, percent as int, max_vents as int),
{
    let n = sorted.len();
    let mut out: Vec<Candidate> = Vec::new();
    if n == 0 {
        assert(out@ =~= shortlist(sorted@, percent as int, max_vents as int));
        return out;
    }
    let top = sorted[0].doubled_area;
    let mut i: usize = 0;
    while i < n && (i as u64) < (max_vents as u64) && comparable_exec(
        sorted[i].doubled_area,
        top,
        percent,
    )
        invariant
            n == sorted@.len(),
            n > 0,
            top == sorted@[0].doubled_area,
            percent <= 100,
            i <= n,
            i <= max_vents,
            comparable_len(sorted@, percent as int, 0) == comparable_len(
                sorted@,
                percent as int,
                i as int,
            ),
            out@ == sorted@.take(i as int),
        decreases n - i,
    {
        out.push(sorted[i]);
        i = i + 1;
        assert(out@ =~= sorted@.take(i as int));
    }
    proof {
        lemma_comparable_len_bound(sorted@, percent as int, i as int);
    }
    assert(out@ =~= shortlist(sorted@, percent as int, max_vents as int));
    out
}

/// The candidates of a list of boundaries: scored, stripped of noise,
/// sorted by area and cut as `keep_comparable` does.
pub fn build_candidates(regions: &Vec<Vec<Point>>, width: i32, percent: u8, max_vents: u8) -> (r:
    Vec<Candidate>)
    requires
        width > 0,
        percent <= 100,
    ensures
        r@ == vent_candidates(contour_views(regions@), width as int, percent as int, max_vents as int),
{
    let scored = score_regions(regions, width);
    let sorted = sort_by_area(&scored);
    keep_comparable(&sorted, percent, max_vents)
}

} // verus!
