//! Per-direction preference lists and the repair of shared leaders.
use vstd::prelude::*;
use crate::contour::Point;
use crate::sorting::{insert_desc, lemma_insert_desc_at, sort_desc};

verus! {

/// A requested compass direction on screen.
#[derive(Clone, Copy, Debug, PartialEq, Eq, Hash, Structural)]
pub enum VentAction {
    VentUp,
    VentDown,
    VentRight,
    VentLeft,
}

/// Position of a direction's list in a ranking table: down, up, right, left.
pub open spec fn direction_index(a: VentAction) -> int {
    match a {
        VentAction::VentDown => 0,
        VentAction::VentUp => 1,
        VentAction::VentRight => 2,
        VentAction::VentLeft => 3,
    }
}

/// How far towards a direction's screen edge a point lies: its `y` for down,
/// `-y` for up, its `x` for right and `-x` for left.
pub open spec fn direction_key(d: int) -> spec_fn(Point) -> int {
    |p: Point|
        if d == 0 {
            p.1 as int
        } else if d == 1 {
            -(p.1 as int)
        } else if d == 2 {
            p.0 as int
        } else {
            -(p.0 as int)
        }
}

/// The four preference lists of a set of points: each holds them all,
/// nearest to its edge first, ties in the given order.
pub open spec fn rank_lists(points: Seq<Point>) -> Seq<Seq<Point>> {
    Seq::new(4, |d: int| sort_desc(points, direction_key(d)))
}

/// `v` heads at least one list.
pub open spec fn is_leader(lists: Seq<Seq<Point>>, v: Point) -> bool {
    exists|d: int| 0 <= d < lists.len() && lists[d].len() > 0 && #[trigger] lists[d][0] == v
}

/// `v` is the runner-up of list `d`.
pub open spec fn contends(lists: Seq<Seq<Point>>, d: int, v: Point) -> bool {
    lists[d].len() >= 2 && lists[d][1] == v
}

/// How far the leader of list `d` is ahead of its runner-up.
pub open spec fn margin(lists: Seq<Seq<Point>>, d: int) -> int {
    (direction_key(d))(lists[d][0]) - (direction_key(d))(lists[d][1])
}

/// Among the first `k` lists in which `v` is runner-up, the one with the
/// smallest margin; the earliest such list on equal margins.
pub open spec fn closest_contest(lists: Seq<Seq<Point>>, v: Point, k: int) -> Option<int>
    decreases k,
{
    if k <= 0 {
        None
    } else {
        let best = closest_contest(lists, v, k - 1);
        if contends(lists, k - 1, v) && (best is None || margin(lists, k - 1) < margin(
            lists,
            best->0,
        )) {
            Some(k - 1)
        } else {
            best
        }
    }
}

/// The list with its first two entries exchanged.
pub open spec fn swap_leaders(s: Seq<Point>) -> Seq<Point> {
    s.update(0, s[1]).update(1, s[0])
}

/// One repair step for `v`: unless it already leads a list, it is promoted
/// in the list where it is runner-up by the smallest margin, if any.
pub open spec fn promote(lists: Seq<Seq<Point>>, v: Point) -> Seq<Seq<Point>> {
    if is_leader(lists, v) {
        lists
    } else {
        match closest_contest(lists, v, 4) {
            None => lists,
            Some(d) => lists.update(d, swap_leaders(lists[d])),
        }
    }
}

/// The repair steps for each of `vents` in turn.
pub open spec fn resolve_all(lists: Seq<Seq<Point>>, vents: Seq<Point>) -> Seq<Seq<Point>>
    decreases vents.len(),
{
    if vents.len() == 0 {
        lists
    } else {
        promote(resolve_all(lists, vents.drop_last()), vents.last())
    }
}

/// The head of list `d`, if it has one.
pub open spec fn leader_of(lists: Seq<Seq<Point>>, d: int) -> Option<Point> {
    if lists[d].len() > 0 {
        Some(lists[d][0])
    } else {
        None
    }
}

fn direction_key_exec(p: Point, d: usize) -> (k: i64)
    requires
        d < 4,
    ensures
        k == (direction_key(d as int))(p),
{
    if d == 0 {
        p.1 as i64
    } else if d == 1 {
        -(p.1 as i64)
    } else if d == 2 {
        p.0 as i64
    } else {
        -(p.0 as i64)
    }
}

fn same_point(a: Point, b: Point) -> (r: bool)
    ensures
        r == (a == b),
{
    a.0 == b.0 && a.1 == b.1
}

/// The points nearest to the edge of direction `d` first; ties keep their order.
fn sort_towards(points: &Vec<Point>, d: usize) -> (r: Vec<Point>)
    requires
        d < 4,
    ensures
        r@ == sort_desc(points@, direction_key(d as int)),
{
    let ghost key = direction_key(d as int);
    let mut out: Vec<Point> = Vec::new();
    let mut i: usize = 0;
    while i < points.len()
        invariant
            d < 4,
            key == direction_key(d as int),
            i <= points@.len(),
            out@ == sort_desc(points@.take(i as int), key),
        decreases points@.len() - i,
    {
        let x = points[i];
        let kx = direction_key_exec(x, d);
        let mut pos: usize = 0;
        while pos < out.len() && !(direction_key_exec(out[pos], d) < kx)
            invariant
                d < 4,
                key == direction_key(d as int),
                kx == key(x),
                pos <= out@.len(),
                forall|j: int| 0 <= j < pos ==> !(key(#[trigger] out@[j]) < key(x)),
            decreases out@.len() - pos,
        {
            pos = pos + 1;
        }
        proof {
            lemma_insert_desc_at(x, out@, key, pos as int);
            assert(points@.take(i + 1).drop_last() =~= points@.take(i as int));
            assert(points@.take(i + 1).last() == x);
        }
        out.insert(pos, x);
        assert(out@ =~= insert_desc(x, sort_desc(points@.take(i as int), key), key));
        i = i + 1;
    }
    assert(points@.take(points@.len() as int) =~= points@);
    out
}

/// Four preference lists, one per direction, each ordering the same points.
pub struct RankingTable {
    pub down: Vec<Point>,
    pub up: Vec<Point>,
    pub right: Vec<Point>,
    pub left: Vec<Point>,
}

impl RankingTable {
    /// The lists in the order down, up, right, left.
    pub open spec fn lists(&self) -> Seq<Seq<Point>> {
        seq![self.down@, self.up@, self.right@, self.left@]
    }

    /// Ranks the points along the four directions.
    pub fn rank(points: &Vec<Point>) -> (r: RankingTable)
        ensures
            r.lists() == rank_lists(points@),
    {
        let r = RankingTable {
            down: sort_towards(points, 0),
            up: sort_towards(points, 1),
            right: sort_towards(points, 2),
            left: sort_towards(points, 3),
        };
        assert(r.lists() =~= rank_lists(points@));
        r
    }

    fn list(&self, d: usize) -> (r: &Vec<Point>)
        requires
            d < 4,
        ensures
            r@ == self.lists()[d as int],
    {
        if d == 0 {
            &self.down
        } else if d == 1 {
            &self.up
        } else if d == 2 {
            &self.right
        } else {
            &self.left
        }
    }

    fn swap_in(v: &mut Vec<Point>)
        requires
            old(v)@.len() >= 2,
        ensures
            final(v)@ == swap_leaders(old(v)@),
    {
        let a = v[0];
        let b = v[1];
        v.set(0, b);
        v.set(1, a);
    }

    fn swap_leaders_of(&mut self, d: usize)
        requires
            d < 4,
            old(self).lists()[d as int].len() >= 2,
        ensures
            final(self).lists() == old(self).lists().update(
                d as int,
                swap_leaders(old(self).lists()[d as int]),
            ),
    {
        if d == 0 {
            Self::swap_in(&mut self.down);
        } else if d == 1 {
            Self::swap_in(&mut self.up);
        } else if d == 2 {
            Self::swap_in(&mut self.right);
        } else {
            Self::swap_in(&mut self.left);
        }
        assert(self.lists() =~= old(self).lists().update(
            d as int,
            swap_leaders(old(self).lists()[d as int]),
        ));
    }

    fn leads_any(&self, v: Point) -> (r: bool)
        ensures
            r == is_leader(self.lists(), v),
    {
        let mut d: usize = 0;
        while d < 4
            invariant
                d <= 4,
                forall|e: int|
                    0 <= e < d ==> !(self.lists()[e].len() > 0 && #[trigger] self.lists()[e][0]
                        == v),
            decreases 4 - d,
        {
            let l = self.list(d);
            if l.len() > 0 && same_point(l[0], v) {
                return true;
            }
            d = d + 1;
        }
        false
    }

    fn margin_of(&self, d: usize) -> (m: i64)
        requires
            d < 4,
            self.lists()[d as int].len() >= 2,
        ensures
            m == margin(self.lists(), d as int),
    {
        let l = self.list(d);
        direction_key_exec(l[0], d) - direction_key_exec(l[1], d)
    }

    fn closest_contest_of(&self, v: Point) -> (r: Option<usize>)
        ensures
            r matches Some(d) ==> d < 4 && closest_contest(self.lists(), v, 4) == Some(d as int)
                && self.lists()[d as int].len() >= 2,
            r is None ==> closest_contest(self.lists(), v, 4) is None,
    {
        let mut best: Option<usize> = None;
        let mut best_margin: i64 = 0;
        let mut d: usize = 0;
        while d < 4
            invariant
                d <= 4,
                best matches Some(b) ==> b < 4 && closest_contest(self.lists(), v, d as int)
                    == Some(b as int) && self.lists()[b as int].len() >= 2 && best_margin
                    == margin(self.lists(), b as int),
                best is None ==> closest_contest(self.lists(), v, d as int) is None,
            decreases 4 - d,
        {
            let l = self.list(d);
            if l.len() >= 2 && same_point(l[1], v) {
                let m = self.margin_of(d);
                match best {
                    None => {
                        best = Some(d);
                        best_margin = m;
                    },
                    Some(_) => {
                        if m < best_margin {
                            best = Some(d);
                            best_margin = m;
                        }
                    },
                }
            }
            d = d + 1;
        }
        best
    }

    /// Promotes `v` where it is runner-up by the smallest margin, unless it
    /// already heads a list.
    fn promote_one(&mut self, v: Point)
        ensures
            final(self).lists() == promote(old(self).lists(), v),
    {
        if self.leads_any(v) {
            return;
        }
        match self.closest_contest_of(v) {
            None => {},
            Some(d) => {
                self.swap_leaders_of(d);
            },
        }
    }

    /// Repairs shared leaders: each of `vents` in turn that heads no list is
    /// promoted in the list where it is runner-up by the smallest margin.
    pub fn resolve_ties(&mut self, vents: &Vec<Point>)
        ensures
            final(self).lists() == resolve_all(old(self).lists(), vents@),
    {
        let ghost start = self.lists();
        let mut i: usize = 0;
        while i < vents.len()
            invariant
                i <= vents@.len(),
                self.lists() == resolve_all(start, vents@.take(i as int)),
            decreases vents@.len() - i,
        {
            proof {
                assert(vents@.take(i + 1).drop_last() =~= vents@.take(i as int));
                assert(vents@.take(i + 1).last() == vents@[i as int]);
            }
            self.promote_one(vents[i]);
            i = i + 1;
        }
        assert(vents@.take(vents@.len() as int) =~= vents@);
    }

    /// The head of the list of the requested direction, if any.
    pub fn leader(&self, action: &VentAction) -> (r: Option<Point>)
        ensures
            r == leader_of(self.lists(), direction_index(*action)),
    {
        let d: usize = match action {
            VentAction::VentDown => 0,
            VentAction::VentUp => 1,
            VentAction::VentRight => 2,
            VentAction::VentLeft => 3,
        };
        let l = self.list(d);
        if l.len() > 0 {
            Some(l[0])
        } else {
            None
        }
    }
}

} // verus!
