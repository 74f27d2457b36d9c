//! Properties of the vent choice over region boundaries.
use vstd::prelude::*;
use crate::candidate::{
    above_noise_floor, area_key, candidate_of, comparable, comparable_len,
    lemma_comparable_len_bound, scored, shortlist,
    vent_candidates, Candidate,
};
use crate::contour::{centroid_of, doubled_area, lemma_cross_bound, shoelace, successor, Point};
use crate::ranking::{
    closest_contest, contends, direction_index, direction_key, is_leader, leader_of, promote,
    rank_lists, resolve_all, swap_leaders,
    VentAction,
};
use crate::sorting::{
    insert_desc, is_sorted_desc, lemma_sort_desc_permutes, lemma_sort_desc_sorted,
    lemma_sort_desc_unique_top, sort_desc,
};
use crate::vent::{chosen_vent, frame_vent, vent_points};

verus! {

proof fn lemma_one_point(p: Point, action: VentAction)
    ensures
        leader_of(resolve_all(rank_lists(seq![p]), seq![p]), direction_index(action)) == Some(p),
{
    let pts = seq![p];
    let lists = rank_lists(pts);
    assert forall|d: int| 0 <= d < 4 implies #[trigger] lists[d] == pts by {
        assert(pts.drop_last() =~= seq![]);
        assert(sort_desc(pts, direction_key(d)) == insert_desc(
            p,
            sort_desc(seq![], direction_key(d)),
            direction_key(d),
        ));
    }
    assert(lists[0][0] == p);
    assert(is_leader(lists, p));
    assert(pts.drop_last() =~= seq![]);
    assert(resolve_all(lists, pts) == promote(resolve_all(lists, seq![]), p));
}

proof fn lemma_one_candidate(c: Candidate, percent: int, max_vents: int, action: VentAction)
    requires
        0 <= percent <= 100,
        max_vents >= 1,
    ensures
        ({
            let points = vent_points(shortlist(seq![c], percent, max_vents));
            leader_of(resolve_all(rank_lists(points), points), direction_index(action))
        }) == Some(c.center()),
{
    let s = seq![c];
    assert(comparable(c.doubled_area as int, c.doubled_area as int, percent)) by (nonlinear_arith)
        requires
            0 <= percent <= 100,
            c.doubled_area >= 0,
    ;
    assert(comparable_len(s, percent, 1) == 1);
    assert(comparable_len(s, percent, 0) == 1);
    assert(shortlist(s, percent, max_vents) =~= s);
    assert(vent_points(s) =~= seq![c.center()]);
    lemma_one_point(c.center(), action);
}

proof fn lemma_sort_one(c: Candidate)
    ensures
        sort_desc(seq![c], area_key()) == seq![c],
{
    let s = seq![c];
    assert(s.drop_last() =~= seq![]);
    assert(s.last() == c);
    let e = sort_desc(s.drop_last(), area_key());
    assert(e.len() == 0);
    assert(insert_desc(c, e, area_key()) =~= seq![c]);
}

/// A single boundary above the noise floor yields its centroid, whatever
/// direction is asked for.
pub proof fn lemma_single_blob(
    region: Seq<Point>,
    width: int,
    max_vents: int,
    percent: int,
    action: VentAction,
)
    requires
        width > 0,
        above_noise_floor(region, width),
        max_vents >= 1,
        0 <= percent <= 100,
    ensures
        chosen_vent(seq![region], width, max_vents, percent, action) == Some(centroid_of(region)),
{
    let regions = seq![region];
    assert(regions.drop_last() =~= seq![]);
    assert(regions.last() == region);
    let c = candidate_of(region);
    let none: Seq<Seq<Point>> = seq![];
    assert(scored(none, width) =~= seq![]);
    assert(scored(regions, width) =~= seq![c]);
    lemma_sort_one(c);
    lemma_one_candidate(c, percent, max_vents, action);
}

proof fn lemma_scored_append(a: Seq<Seq<Point>>, b: Seq<Seq<Point>>, width: int)
    ensures
        scored(a + b, width) == scored(a, width) + scored(b, width),
    decreases b.len(),
{
    if b.len() == 0 {
        assert(a + b =~= a);
        assert(scored(a, width) + scored(b, width) =~= scored(a, width));
    } else {
        lemma_scored_append(a, b.drop_last(), width);
        assert((a + b).drop_last() =~= a + b.drop_last());
        assert((a + b).last() == b.last());
        if above_noise_floor(b.last(), width) {
            assert(scored(a, width) + scored(b.drop_last(), width).push(candidate_of(b.last()))
                =~= (scored(a, width) + scored(b.drop_last(), width)).push(
                candidate_of(b.last()),
            ));
        }
    }
}

/// A boundary whose area score does not exceed the noise floor changes
/// nothing, wherever it stands among the others.
pub proof fn lemma_noise_ignored(
    front: Seq<Seq<Point>>,
    noise: Seq<Point>,
    back: Seq<Seq<Point>>,
    width: int,
    max_vents: int,
    percent: int,
    action: VentAction,
)
    requires
        !above_noise_floor(noise, width),
    ensures
        chosen_vent(front + seq![noise] + back, width, max_vents, percent, action) == chosen_vent(
            front + back,
            width,
            max_vents,
            percent,
            action,
        ),
{
    let single = seq![noise];
    assert(single.drop_last() =~= seq![]);
    let none: Seq<Seq<Point>> = seq![];
    assert(scored(none, width) =~= seq![]);
    assert(scored(single, width) =~= seq![]);
    lemma_scored_append(front, single, width);
    lemma_scored_append(front + single, back, width);
    lemma_scored_append(front, back, width);
    assert(scored(front, width) + scored(single, width) =~= scored(front, width));
}

proof fn lemma_shoelace_bound(c: Seq<Point>, k: int)
    requires
        0 <= k <= c.len(),
    ensures
        -0x8000_0000_0000_0000 * k <= shoelace(c, k) <= 0x8000_0000_0000_0000 * k,
    decreases k,
{
    if k > 0 {
        lemma_shoelace_bound(c, k - 1);
        lemma_cross_bound(c[k - 1], successor(c, k - 1));
    }
}

/// The doubled area of a boundary held in memory fits in 128 bits.
proof fn lemma_doubled_area_fits(c: Seq<Point>)
    requires
        c.len() <= usize::MAX,
    ensures
        doubled_area(c) <= u128::MAX,
{
    lemma_shoelace_bound(c, c.len() as int);
}

proof fn lemma_scored_small(regions: Seq<Seq<Point>>, width: int, top: int)
    requires
        forall|j: int|
            0 <= j < regions.len() ==> (#[trigger] regions[j]).len() <= usize::MAX && 10
                * doubled_area(regions[j]) <= top,
    ensures
        forall|j: int|
            0 <= j < scored(regions, width).len() ==> 10 * (#[trigger] scored(regions, width)[j]).doubled_area
                <= top,
    decreases regions.len(),
{
    if regions.len() > 0 {
        let d = regions.drop_last();
        assert forall|j: int|
            0 <= j < d.len() implies (#[trigger] d[j]).len() <= usize::MAX && 10 * doubled_area(d[j])
            <= top by {
            assert(d[j] == regions[j]);
        }
        lemma_scored_small(d, width, top);
        let last = regions[regions.len() - 1];
        lemma_doubled_area_fits(last);
        assert(10 * doubled_area(last) <= top);
        let rest = scored(d, width);
        let all = scored(regions, width);
        assert forall|j: int| 0 <= j < all.len() implies 10 * (#[trigger] all[j]).doubled_area
            <= top by {
            if j < rest.len() {
                assert(all[j] == rest[j]);
            } else {
                assert(all[j] == candidate_of(last));
            }
        }
    }
}

/// When one boundary encloses at least ten times the area of every other,
/// and a candidate must keep more than a tenth of the top area, that
/// boundary's centroid is chosen for every direction.
pub proof fn lemma_dominant_blob(
    regions: Seq<Seq<Point>>,
    i: int,
    width: int,
    max_vents: int,
    percent: int,
    action: VentAction,
)
    requires
        width > 0,
        0 <= i < regions.len(),
        forall|j: int| 0 <= j < regions.len() ==> (#[trigger] regions[j]).len() <= usize::MAX,
        above_noise_floor(regions[i], width),
        forall|j: int|
            0 <= j < regions.len() && j != i ==> 10 * doubled_area(#[trigger] regions[j])
                <= doubled_area(regions[i]),
        max_vents >= 1,
        10 < percent <= 100,
    ensures
        chosen_vent(regions, width, max_vents, percent, action) == Some(centroid_of(regions[i])),
{
    let r = regions[i];
    let front = regions.take(i);
    let back = regions.skip(i + 1);
    let single = seq![r];
    assert(regions =~= front + single + back);
    let top = doubled_area(r) as int;
    lemma_doubled_area_fits(r);
    let k = candidate_of(r);
    assert(k.doubled_area == top);
    assert(top > 0);

    assert(single.drop_last() =~= seq![]);
    let none: Seq<Seq<Point>> = seq![];
    assert(scored(none, width) =~= seq![]);
    assert(scored(single, width) =~= seq![k]);
    lemma_scored_append(front, single, width);
    lemma_scored_append(front + single, back, width);
    assert forall|j: int|
        0 <= j < front.len() implies (#[trigger] front[j]).len() <= usize::MAX && 10 * doubled_area(
        front[j],
    ) <= top by {
        assert(front[j] == regions[j]);
    }
    assert forall|j: int|
        0 <= j < back.len() implies (#[trigger] back[j]).len() <= usize::MAX && 10 * doubled_area(
        back[j],
    ) <= top by {
        assert(back[j] == regions[i + 1 + j]);
    }
    lemma_scored_small(front, width, top);
    lemma_scored_small(back, width, top);

    let sf = scored(front, width);
    let sb = scored(back, width);
    let all_scored = scored(regions, width);
    assert(all_scored == sf + seq![k] + sb);
    let idx = sf.len() as int;
    let bound = top / 10 + 1;
    assert forall|j: int|
        0 <= j < all_scored.len() && j != idx implies (area_key())(#[trigger] all_scored[j]) < bound by {
        if j < idx {
            assert(all_scored[j] == sf[j]);
        } else {
            assert(all_scored[j] == sb[j - idx - 1]);
        }
    }
    assert(all_scored[idx] == k);
    lemma_sort_desc_unique_top(all_scored, area_key(), idx, bound);
    let sorted = sort_desc(all_scored, area_key());
    assert(comparable(top, top, percent)) by (nonlinear_arith)
        requires
            0 <= percent <= 100,
            top > 0,
    ;
    if sorted.len() > 1 {
        let second = sorted[1].doubled_area as int;
        assert(second < bound);
        assert(!comparable(second, top, percent)) by (nonlinear_arith)
            requires
                0 <= second,
                second < top / 10 + 1,
                top > 0,
                10 < percent,
        ;
        assert(comparable_len(sorted, percent, 1) == 1);
    } else {
        assert(comparable_len(sorted, percent, 1) == 1);
    }
    assert(comparable_len(sorted, percent, 0) == 1);
    let kept = shortlist(sorted, percent, max_vents);
    assert(kept =~= seq![k]);
    assert(vent_candidates(regions, width, percent, max_vents) == kept);
    assert(vent_points(kept) =~= seq![k.center()]);
    lemma_one_point(k.center(), action);
}

proof fn lemma_two_points(p: Point, q: Point, pts: Seq<Point>)
    requires
        pts == seq![p, q],
    ensures
        forall|d: int|
            0 <= d < 4 ==> #[trigger] rank_lists(pts)[d] == (if (direction_key(d))(p) < (
            direction_key(d))(q) {
                seq![q, p]
            } else {
                seq![p, q]
            }),
        resolve_all(rank_lists(pts), pts) == rank_lists(pts),
{
    let lists = rank_lists(pts);
    assert forall|d: int|
        0 <= d < 4 implies #[trigger] lists[d] == (if (direction_key(d))(p) < (direction_key(d))(
        q) {
            seq![q, p]
        } else {
            seq![p, q]
        }) by {
        let key = direction_key(d);
        assert(pts.drop_last() =~= seq![p]);
        assert(seq![p].drop_last() =~= seq![]);
        let e = sort_desc(seq![p].drop_last(), key);
        assert(e.len() == 0);
        assert(insert_desc(p, e, key) =~= seq![p]);
        assert(sort_desc(seq![p], key) =~= seq![p]);
        let one = seq![p];
        assert(one.drop_first() =~= seq![]);
        assert(insert_desc(q, one.drop_first(), key) =~= seq![q]);
        if key(p) < key(q) {
            assert(insert_desc(q, one, key) =~= seq![q, p]);
        } else {
            assert(insert_desc(q, one, key) =~= seq![p, q]);
        }
    }
    assert(lists[0][0] == p || lists[1][0] == p);
    assert(is_leader(lists, p));
    assert(lists[0][0] == q || lists[1][0] == q || lists[2][0] == q || lists[3][0] == q);
    assert(is_leader(lists, q));
    assert(pts.drop_last() =~= seq![p]);
    assert(seq![p].drop_last() =~= seq![]);
    assert(resolve_all(lists, seq![p]) == promote(resolve_all(lists, seq![]), p));
    assert(resolve_all(lists, pts) == promote(resolve_all(lists, seq![p]), q));
}

/// Two boundaries of equal area: the lower centroid is chosen for down and
/// the higher for up, the one further right for right and the other for left.
pub proof fn lemma_two_equal_blobs(
    a: Seq<Point>,
    b: Seq<Point>,
    width: int,
    max_vents: int,
    percent: int,
)
    requires
        width > 0,
        above_noise_floor(a, width),
        above_noise_floor(b, width),
        doubled_area(a) == doubled_area(b),
        max_vents >= 2,
        0 <= percent <= 100,
    ensures
        ({
            let regions = seq![a, b];
            let (p, q) = (centroid_of(a), centroid_of(b));
            let down = chosen_vent(regions, width, max_vents, percent, VentAction::VentDown);
            let up = chosen_vent(regions, width, max_vents, percent, VentAction::VentUp);
            let right = chosen_vent(regions, width, max_vents, percent, VentAction::VentRight);
            let left = chosen_vent(regions, width, max_vents, percent, VentAction::VentLeft);
            &&& p.1 > q.1 ==> down == Some(p) && up == Some(q)
            &&& p.1 < q.1 ==> down == Some(q) && up == Some(p)
            &&& p.0 > q.0 ==> right == Some(p) && left == Some(q)
            &&& p.0 < q.0 ==> right == Some(q) && left == Some(p)
        }),
{
    let regions = seq![a, b];
    let ka = candidate_of(a);
    let kb = candidate_of(b);
    let none: Seq<Seq<Point>> = seq![];
    assert(scored(none, width) =~= seq![]);
    assert(seq![a].drop_last() =~= none);
    assert(seq![b].drop_last() =~= none);
    assert(scored(seq![a], width) =~= seq![ka]);
    assert(scored(seq![b], width) =~= seq![kb]);
    lemma_scored_append(seq![a], seq![b], width);
    assert(regions =~= seq![a] + seq![b]);
    assert(scored(regions, width) =~= seq![ka, kb]);

    let two = seq![ka, kb];
    lemma_sort_one(ka);
    assert(two.drop_last() =~= seq![ka]);
    let rest = seq![ka].drop_first();
    assert(rest =~= seq![]);
    assert(insert_desc(kb, rest, area_key()) =~= seq![kb]);
    assert(insert_desc(kb, seq![ka], area_key()) =~= two);
    assert(sort_desc(two, area_key()) == two);

    let x = ka.doubled_area as int;
    assert(comparable(x, x, percent)) by (nonlinear_arith)
        requires
            0 <= percent <= 100,
            x >= 0,
    ;
    assert(comparable_len(two, percent, 2) == 2);
    assert(comparable_len(two, percent, 1) == 2);
    assert(comparable_len(two, percent, 0) == 2);
    assert(shortlist(two, percent, max_vents) =~= two);
    let (p, q) = (centroid_of(a), centroid_of(b));
    assert(vent_points(two) =~= seq![p, q]);
    let pts = seq![p, q];
    lemma_two_points(p, q, pts);
    let lists = rank_lists(pts);
    assert(lists[0] == (if (direction_key(0))(p) < (direction_key(0))(q) {
        seq![q, p]
    } else {
        seq![p, q]
    }));
    assert(lists[1] == (if (direction_key(1))(p) < (direction_key(1))(q) {
        seq![q, p]
    } else {
        seq![p, q]
    }));
    assert(lists[2] == (if (direction_key(2))(p) < (direction_key(2))(q) {
        seq![q, p]
    } else {
        seq![p, q]
    }));
    assert(lists[3] == (if (direction_key(3))(p) < (direction_key(3))(q) {
        seq![q, p]
    } else {
        seq![p, q]
    }));
}

/// The choice is a function of its inputs alone: the same frame, or the same
/// boundaries from the region extractor, with the same parameters always give
/// the same point.
pub proof fn lemma_deterministic(
    buffer1: Seq<u8>,
    buffer2: Seq<u8>,
    regions1: Seq<Seq<Point>>,
    regions2: Seq<Seq<Point>>,
    width: int,
    height: int,
    max_vents: int,
    percent: int,
    action: VentAction,
)
    requires
        buffer1 == buffer2,
        regions1 == regions2,
    ensures
        frame_vent(buffer1, width, height, max_vents, action) == frame_vent(
            buffer2,
            width,
            height,
            max_vents,
            action,
        ),
        chosen_vent(regions1, width, max_vents, percent, action) == chosen_vent(
            regions2,
            width,
            max_vents,
            percent,
            action,
        ),
{
}

proof fn lemma_comparable_prefix(s: Seq<Candidate>, percent: int, k: int)
    requires
        0 <= k <= s.len(),
    ensures
        forall|i: int|
            k <= i < comparable_len(s, percent, k) ==> comparable(
                (#[trigger] s[i]).doubled_area as int,
                s[0].doubled_area as int,
                percent,
            ),
    decreases s.len() - k,
{
    if k < s.len() && comparable(s[k].doubled_area as int, s[0].doubled_area as int, percent) {
        lemma_comparable_prefix(s, percent, k + 1);
    }
}

proof fn lemma_closest_contest_contends(lists: Seq<Seq<Point>>, v: Point, k: int)
    ensures
        closest_contest(lists, v, k) matches Some(d) ==> 0 <= d < k && contends(lists, d, v),
    decreases k,
{
    if k > 0 {
        lemma_closest_contest_contends(lists, v, k - 1);
    }
}

proof fn lemma_swap_leaders_permutes(s: Seq<Point>)
    requires
        s.len() >= 2,
    ensures
        swap_leaders(s).to_multiset() == s.to_multiset(),
        swap_leaders(s).len() == s.len(),
{
    broadcast use vstd::seq_lib::group_to_multiset_ensures, vstd::seq_lib::lemma_multiset_commutative;

    let rest = s.skip(2);
    assert(s =~= seq![s[0], s[1]] + rest);
    assert(swap_leaders(s) =~= seq![s[1], s[0]] + rest);
    assert(seq![s[0], s[1]] =~= seq![s[0]].push(s[1]));
    assert(seq![s[1], s[0]] =~= seq![s[1]].push(s[0]));
    assert(seq![s[0]] =~= Seq::<Point>::empty().push(s[0]));
    assert(seq![s[1]] =~= Seq::<Point>::empty().push(s[1]));
    assert(seq![s[0], s[1]].to_multiset() =~= seq![s[1], s[0]].to_multiset());
}

proof fn lemma_resolve_permutes(lists: Seq<Seq<Point>>, vents: Seq<Point>)
    requires
        lists.len() == 4,
    ensures
        resolve_all(lists, vents).len() == 4,
        forall|d: int|
            0 <= d < 4 ==> (#[trigger] resolve_all(lists, vents)[d]).to_multiset()
                == lists[d].to_multiset(),
    decreases vents.len(),
{
    if vents.len() > 0 {
        let before = resolve_all(lists, vents.drop_last());
        lemma_resolve_permutes(lists, vents.drop_last());
        let v = vents.last();
        if !is_leader(before, v) {
            lemma_closest_contest_contends(before, v, 4);
            match closest_contest(before, v, 4) {
                Some(d) => {
                    lemma_swap_leaders_permutes(before[d]);
                    let after = before.update(d, swap_leaders(before[d]));
                    assert forall|e: int|
                        0 <= e < 4 implies (#[trigger] after[e]).to_multiset()
                        == lists[e].to_multiset() by {
                        assert(before[e].to_multiset() == lists[e].to_multiset());
                    }
                },
                None => {},
            }
        }
    }
}

/// The invariants of one choice, whatever the boundaries: at most
/// `max_vents` candidates are kept, in descending order of area, each with
/// at least `percent` hundredths of the top area; after the tie-break every
/// direction's list holds exactly the kept centroids; and no point is chosen
/// exactly when no candidate is kept.
pub proof fn lemma_selection_invariants(
    regions: Seq<Seq<Point>>,
    width: int,
    max_vents: int,
    percent: int,
    action: VentAction,
)
    requires
        max_vents >= 0,
    ensures
        ({
            let kept = vent_candidates(regions, width, percent, max_vents);
            let points = vent_points(kept);
            let lists = resolve_all(rank_lists(points), points);
            &&& kept.len() <= max_vents
            &&& is_sorted_desc(kept, area_key())
            &&& forall|i: int|
                0 <= i < kept.len() ==> comparable(
                    (#[trigger] kept[i]).doubled_area as int,
                    kept[0].doubled_area as int,
                    percent,
                )
            &&& lists.len() == 4
            &&& forall|d: int|
                0 <= d < 4 ==> (#[trigger] lists[d]).to_multiset() == points.to_multiset()
            &&& (chosen_vent(regions, width, max_vents, percent, action) is None <==> kept.len()
                == 0)
        }),
{
    broadcast use vstd::seq_lib::group_to_multiset_ensures;

    let sorted = sort_desc(scored(regions, width), area_key());
    let kept = vent_candidates(regions, width, percent, max_vents);
    lemma_comparable_len_bound(sorted, percent, 0);
    lemma_comparable_prefix(sorted, percent, 0);
    lemma_sort_desc_sorted(scored(regions, width), area_key());
    assert(is_sorted_desc(kept, area_key())) by {
        assert forall|i: int, j: int|
            0 <= i < j < kept.len() implies (area_key())(#[trigger] kept[i]) >= (area_key())(
            #[trigger] kept[j],
        ) by {
            assert(kept[i] == sorted[i] && kept[j] == sorted[j]);
        }
    }
    assert forall|i: int| 0 <= i < kept.len() implies comparable(
        (#[trigger] kept[i]).doubled_area as int,
        kept[0].doubled_area as int,
        percent,
    ) by {
        assert(kept[i] == sorted[i]);
        assert(kept[0] == sorted[0]);
    }
    let points = vent_points(kept);
    let ranked = rank_lists(points);
    assert forall|d: int| 0 <= d < 4 implies (#[trigger] ranked[d]).to_multiset()
        == points.to_multiset() by {
        lemma_sort_desc_permutes(points, direction_key(d));
    }
    lemma_resolve_permutes(ranked, points);
    let lists = resolve_all(ranked, points);
    let idx = direction_index(action);
    assert(lists[idx].to_multiset() == points.to_multiset());
    assert(lists[idx].to_multiset().len() == lists[idx].len());
    assert(points.to_multiset().len() == points.len());
    assert(points.len() == kept.len());
}

} // verus!
