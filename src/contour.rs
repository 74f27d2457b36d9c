//! Region boundaries: extraction from a mask, enclosed area and centroid.
use vstd::prelude::*;
use vstd::arithmetic::div_mod::{lemma_fundamental_div_mod, lemma_fundamental_div_mod_converse};
use vstd::arithmetic::mul::lemma_mul_inequality;
use crate::mat::Mat;

verus! {

/// A point of a boundary: `(x, y)` in pixels, `y` growing downwards.
pub type Point = (i32, i32);

/// The boundaries that imageproc's border following finds in a single-channel
/// mask of `width` by `height` pixels.
pub uninterp spec fn contours_of(mask: Seq<u8>, width: nat, height: nat) -> Seq<Seq<Point>>;

/// The views of a list of boundaries.
pub open spec fn contour_views(v: Seq<Vec<Point>>) -> Seq<Seq<Point>> {
    v.map_values(|c: Vec<Point>| c@)
}

/// Every pixel of the mask is background.
pub open spec fn all_background(mask: Seq<u8>) -> bool {
    forall|i: int| 0 <= i < mask.len() ==> mask[i] == 0
}

/// Relies on imageproc::contours::find_contours, which traces the border of
/// every 8-connected foreground region, outer borders and hole borders alike,
/// as a list of the pixels on it. A border is only ever started at a non-zero
/// pixel, so a mask without one has no border. It numbers borders with `i32`
/// and casts coordinates to `i32` with `unwrap`, hence the bound on the size.
/// The mask reaches it as an `image::GrayImage` built by `from_raw`, which
/// succeeds as the buffer holds `cols * rows` bytes.
#[verifier::external_body]
pub(crate) fn find_contours(mask: &Mat) -> (r: Vec<Vec<Point>>)
    requires
        mask.wf(),
        mask.channels == 1,
        mask.rows * mask.cols <= i32::MAX,
    ensures
        contour_views(r@) == contours_of(mask.data@, mask.cols as nat, mask.rows as nat),
        all_background(mask.data@) ==> r@.len() == 0,
{
    let image = image::GrayImage::from_raw(mask.cols as u32, mask.rows as u32, mask.data.clone())
        .unwrap();
    imageproc::contours::find_contours::<i32>(&image)
        .into_iter()
        .map(|c| c.points.into_iter().map(|p| (p.x, p.y)).collect())
        .collect()
}

/// Twice the signed area spanned by the origin and the edge from `p` to `q`.
pub open spec fn cross(p: Point, q: Point) -> int {
    p.0 * q.1 - q.0 * p.1
}

/// The point after position `k` on the closed boundary `c`.
pub open spec fn successor(c: Seq<Point>, k: int) -> Point {
    if k + 1 < c.len() {
        c[k + 1]
    } else {
        c[0]
    }
}

/// The shoelace sum over the first `k` edges of the closed boundary `c`.
pub open spec fn shoelace(c: Seq<Point>, k: int) -> int
    decreases k,
{
    if k <= 0 {
        0
    } else {
        shoelace(c, k - 1) + cross(c[k - 1], successor(c, k - 1))
    }
}

/// Twice the area enclosed by the polygon `c`, whatever its orientation.
pub open spec fn doubled_area(c: Seq<Point>) -> nat {
    let s = shoelace(c, c.len() as int);
    if s < 0 {
        (-s) as nat
    } else {
        s as nat
    }
}

/// Sum of the `x` coordinates of the first `k` points.
pub open spec fn sum_x(c: Seq<Point>, k: int) -> int
    decreases k,
{
    if k <= 0 {
        0
    } else {
        sum_x(c, k - 1) + c[k - 1].0
    }
}

/// Sum of the `y` coordinates of the first `k` points.
pub open spec fn sum_y(c: Seq<Point>, k: int) -> int
    decreases k,
{
    if k <= 0 {
        0
    } else {
        sum_y(c, k - 1) + c[k - 1].1
    }
}

/// `s / n` rounded to the nearest integer, halves rounded up.
pub open spec fn nearest_quotient(s: int, n: int) -> int {
    (2 * s + n) / (2 * n)
}

/// The centroid of a non-empty boundary: the mean of its points, each
/// coordinate rounded to the nearest integer with halves rounded up.
pub open spec fn centroid_of(c: Seq<Point>) -> Point {
    (
        nearest_quotient(sum_x(c, c.len() as int), c.len() as int) as i32,
        nearest_quotient(sum_y(c, c.len() as int), c.len() as int) as i32,
    )
}

pub(crate) proof fn lemma_cross_bound(p: Point, q: Point)
    ensures
        -0x4000_0000_0000_0000 <= p.0 * q.1 <= 0x4000_0000_0000_0000,
        -0x4000_0000_0000_0000 <= q.0 * p.1 <= 0x4000_0000_0000_0000,
        -0x8000_0000_0000_0000 <= cross(p, q) <= 0x8000_0000_0000_0000,
{
    let (a, b, c, d) = (p.0 as int, q.1 as int, q.0 as int, p.1 as int);
    assert(-0x4000_0000_0000_0000 <= a * b <= 0x4000_0000_0000_0000) by (nonlinear_arith)
        requires
            -0x8000_0000 <= a <= 0x8000_0000,
            -0x8000_0000 <= b <= 0x8000_0000,
    ;
    assert(-0x4000_0000_0000_0000 <= c * d <= 0x4000_0000_0000_0000) by (nonlinear_arith)
        requires
            -0x8000_0000 <= c <= 0x8000_0000,
            -0x8000_0000 <= d <= 0x8000_0000,
    ;
}

/// Twice the area enclosed by the boundary, by the shoelace formula.
pub fn contour_area(contour: &Vec<Point>) -> (r: u128)
    ensures
        r == doubled_area(contour@),
{
    let n = contour.len();
    let mut acc: i128 = 0;
    let mut i: usize = 0;
    while i < n
        invariant
            n == contour@.len(),
            i <= n,
            acc == shoelace(contour@, i as int),
            -0x8000_0000_0000_0000 * i <= acc <= 0x8000_0000_0000_0000 * i,
        decreases n - i,
    {
        let p = contour[i];
        let q = if i + 1 < n {
            contour[i + 1]
        } else {
            contour[0]
        };
        proof {
            lemma_cross_bound(p, q);
        }
        let term = (p.0 as i128) * (q.1 as i128) - (q.0 as i128) * (p.1 as i128);
        acc = acc + term;
        i = i + 1;
    }
    if acc < 0 {
        (-acc) as u128
    } else {
        acc as u128
    }
}

/// `floor(num / d)` for a positive `d`.
fn floor_div(num: i128, d: i128) -> (q: i128)
    requires
        d > 0,
        num > i128::MIN,
    ensures
        q == num / d,
{
    if num >= 0 {
        ((num as u128) / (d as u128)) as i128
    } else {
        let m = (-num) as u128;
        let up = (m - 1) / (d as u128);
        proof {
            let r = (m - 1) % (d as int);
            lemma_fundamental_div_mod(m - 1, d as int);
            assert((-up - 1) * d == -(d * up) - d) by (nonlinear_arith);
            lemma_fundamental_div_mod_converse(num as int, d as int, -up - 1, d - 1 - r);
        }
        -(up as i128) - 1
    }
}

proof fn lemma_nearest_quotient_range(s: int, n: int)
    requires
        n > 0,
        -0x8000_0000 * n <= s <= 0x7fff_ffff * n,
    ensures
        -0x8000_0000 <= nearest_quotient(s, n) <= 0x7fff_ffff,
{
    let d = 2 * n;
    let num = 2 * s + n;
    let q = num / d;
    lemma_fundamental_div_mod(num, d);
    assert(q * d <= num < q * d + d);
    if q < -0x8000_0000 {
        lemma_mul_inequality(q + 1, -0x8000_0000, d);
        assert((q + 1) * d == q * d + d) by (nonlinear_arith);
        assert(false);
    }
    if q > 0x7fff_ffff {
        lemma_mul_inequality(0x8000_0000, q, d);
        assert(0x8000_0000 * d <= q * d);
        assert(num < 0x8000_0000 * d);
        assert(false);
    }
}

/// The nearest integer to `sum / n`, halves rounded up.
fn nearest_mean(sum: i128, n: usize) -> (r: i32)
    requires
        n > 0,
        -0x8000_0000 * n <= sum <= 0x7fff_ffff * n,
    ensures
        r == nearest_quotient(sum as int, n as int),
{
    proof {
        lemma_nearest_quotient_range(sum as int, n as int);
    }
    let d = 2 * (n as i128);
    floor_div(2 * sum + n as i128, d) as i32
}

/// The centroid of the boundary, or `None` for an empty one.
pub fn centroid(contour: &Vec<Point>) -> (r: Option<Point>)
    ensures
        r is None <==> contour@.len() == 0,
        r matches Some(p) ==> p == centroid_of(contour@),
{
    let n = contour.len();
    if n == 0 {
        return None;
    }
    let mut sx: i128 = 0;
    let mut sy: i128 = 0;
    let mut i: usize = 0;
    while i < n
        invariant
            n == contour@.len(),
            i <= n,
            sx == sum_x(contour@, i as int),
            sy == sum_y(contour@, i as int),
            -0x8000_0000 * i <= sx <= 0x7fff_ffff * i,
            -0x8000_0000 * i <= sy <= 0x7fff_ffff * i,
        decreases n - i,
    {
        sx = sx + contour[i].0 as i128;
        sy = sy + contour[i].1 as i128;
        i = i + 1;
    }
    Some((nearest_mean(sx, n), nearest_mean(sy, n)))
}

} // verus!
