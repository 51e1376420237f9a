//! Grid pathfinding.
//!
//! The level's walkable cells form an 8-connected graph: straight moves
//! need a walkable destination, diagonal moves also need both orthogonal
//! cells beside the destination, so paths cannot cut across a solid
//! corner. Every edge costs one. The search itself is `pathfinding`'s
//! A*; the neighbour enumeration and the heuristic are verified here, and
//! the returned path is stated to be a walk of this edge relation.

use vstd::prelude::*;
use crate::geometry::Point;
use crate::level::Level;
use crate::spawn::manhattan;
use crate::tiles::TileType;

verus! {

/// Coordinate bound under which neighbour and distance arithmetic cannot
/// overflow.
pub const COORD_LIMIT: i32 = 1_000_000;

/// Whether the cell (x, y) is walkable. Out-of-bounds cells are not.
pub open spec fn floor_at(l: Level, x: int, y: int) -> bool {
    l.tile_at(x, y) != TileType::Nothing
}

/// One move of the 8-connected floor graph, from `a` to `b`.
pub open spec fn spec_edge(l: Level, a: Point, b: Point) -> bool {
    let ax = a.x as int;
    let ay = a.y as int;
    let bx = b.x as int;
    let by = b.y as int;
    let straight = (bx == ax && (by == ay - 1 || by == ay + 1)) || (by == ay && (bx == ax - 1 || bx
        == ax + 1));
    let diagonal = (bx == ax - 1 || bx == ax + 1) && (by == ay - 1 || by == ay + 1);
    if straight {
        floor_at(l, bx, by)
    } else if diagonal {
        floor_at(l, bx, by) && floor_at(l, bx, ay) && floor_at(l, ax, by)
    } else {
        false
    }
}

/// Every consecutive pair of the sequence is one move.
pub open spec fn is_walk(l: Level, path: Seq<Point>) -> bool {
    forall|i: int| 0 <= i < path.len() - 1 ==> spec_edge(l, #[trigger] path[i], path[i + 1])
}

/// A walk from `from` to `to`, both included.
pub open spec fn is_path_between(l: Level, path: Seq<Point>, from: Point, to: Point) -> bool {
    path.len() >= 1 && path[0] == from && path.last() == to && is_walk(l, path)
}

/// Whether some walk joins the two points.
pub open spec fn reachable(l: Level, from: Point, to: Point) -> bool {
    exists|path: Seq<Point>| is_path_between(l, path, from, to)
}

/// A point reaches itself by the one-point walk.
pub proof fn lemma_reachable_self(l: Level, p: Point)
    ensures
        reachable(l, p, p),
{
    let path = seq![p];
    assert(is_path_between(l, path, p, p));
}

/// The eight neighbour candidates of a point, in enumeration order:
/// straight moves first, then diagonals.
pub open spec fn neighbor_candidates(p: Point) -> Seq<Point> {
    let x = p.x as int;
    let y = p.y as int;
    seq![
        Point { x: p.x, y: (y - 1) as i32 },
        Point { x: (x + 1) as i32, y: p.y },
        Point { x: p.x, y: (y + 1) as i32 },
        Point { x: (x - 1) as i32, y: p.y },
        Point { x: (x - 1) as i32, y: (y - 1) as i32 },
        Point { x: (x + 1) as i32, y: (y - 1) as i32 },
        Point { x: (x + 1) as i32, y: (y + 1) as i32 },
        Point { x: (x - 1) as i32, y: (y + 1) as i32 },
    ]
}

/// The neighbours of a point: the candidates that are one move away.
pub open spec fn neighbors_model(l: Level, p: Point) -> Seq<Point> {
    neighbor_candidates(p).filter(|q: Point| spec_edge(l, p, q))
}

/// The neighbour list holds exactly the points one move away.
pub proof fn lemma_neighbors_model(l: Level, p: Point, q: Point)
    requires
        -COORD_LIMIT <= p.x <= COORD_LIMIT,
        -COORD_LIMIT <= p.y <= COORD_LIMIT,
    ensures
        neighbors_model(l, p).contains(q) <==> spec_edge(l, p, q),
{
    let cands = neighbor_candidates(p);
    let pred = |qq: Point| spec_edge(l, p, qq);
    if neighbors_model(l, p).contains(q) {
        assert(neighbors_model(l, p) == cands.filter(pred));
        let i = choose|i: int| 0 <= i < neighbors_model(l, p).len() && neighbors_model(l, p)[i] == q;
        cands.lemma_filter_pred(pred, i);
    }
    if spec_edge(l, p, q) {
        assert(cands.contains(q)) by {
            if q.x as int == p.x as int && q.y as int == p.y as int - 1 {
                assert(cands[0] == q);
            } else if q.x as int == p.x as int + 1 && q.y as int == p.y as int {
                assert(cands[1] == q);
            } else if q.x as int == p.x as int && q.y as int == p.y as int + 1 {
                assert(cands[2] == q);
            } else if q.x as int == p.x as int - 1 && q.y as int == p.y as int {
                assert(cands[3] == q);
            } else if q.x as int == p.x as int - 1 && q.y as int == p.y as int - 1 {
                assert(cands[4] == q);
            } else if q.x as int == p.x as int + 1 && q.y as int == p.y as int - 1 {
                assert(cands[5] == q);
            } else if q.x as int == p.x as int + 1 && q.y as int == p.y as int + 1 {
                assert(cands[6] == q);
            } else {
                assert(cands[7] == q);
            }
        }
        let i = choose|i: int| 0 <= i < cands.len() && cands[i] == q;
        cands.lemma_filter_contains(pred, i);
    }
}

impl Point {
    /// The Manhattan distance between two points.
    pub fn distance(&self, other: &Point) -> (r: u32)
        requires
            -COORD_LIMIT <= self.x <= COORD_LIMIT,
            -COORD_LIMIT <= self.y <= COORD_LIMIT,
            -COORD_LIMIT <= other.x <= COORD_LIMIT,
            -COORD_LIMIT <= other.y <= COORD_LIMIT,
        ensures
            r == manhattan(*self, *other),
    {
        let dx = if self.x >= other.x {
            self.x - other.x
        } else {
            other.x - self.x
        };
        let dy = if self.y >= other.y {
            self.y - other.y
        } else {
            other.y - self.y
        };
        (dx + dy) as u32
    }
}

impl Level {
    /// The points one move away from `pos`, in enumeration order.
    pub fn get_neighbors(&self, pos: &Point) -> (r: Vec<Point>)
        requires
            self.grid_wf(),
            -COORD_LIMIT <= pos.x <= COORD_LIMIT,
            -COORD_LIMIT <= pos.y <= COORD_LIMIT,
        ensures
            r@ == neighbors_model(*self, *pos),
    {
        let ghost cands = neighbor_candidates(*pos);
        let ghost pred = |q: Point| spec_edge(*self, *pos, q);
        let x = pos.x;
        let y = pos.y;
        let mut out: Vec<Point> = Vec::new();
        let s0 = self.tile_type(x, y - 1) != TileType::Nothing;
        let s1 = self.tile_type(x + 1, y) != TileType::Nothing;
        let s2 = self.tile_type(x, y + 1) != TileType::Nothing;
        let s3 = self.tile_type(x - 1, y) != TileType::Nothing;
        if s0 {
            out.push(Point { x, y: y - 1 });
        }
        proof {
            assert(cands.take(1) =~= Seq::<Point>::empty().push(cands[0]));
            Seq::<Point>::empty().lemma_filter_push(cands[0], pred);
            assert(Seq::<Point>::empty().filter(pred) =~= Seq::<Point>::empty());
            assert(out@ =~= cands.take(1).filter(pred));
        }
        if s1 {
            out.push(Point { x: x + 1, y });
        }
        proof {
            assert(cands.take(2) =~= cands.take(1).push(cands[1]));
            cands.take(1).lemma_filter_push(cands[1], pred);
            assert(out@ =~= cands.take(2).filter(pred));
        }
        if s2 {
            out.push(Point { x, y: y + 1 });
        }
        proof {
            assert(cands.take(3) =~= cands.take(2).push(cands[2]));
            cands.take(2).lemma_filter_push(cands[2], pred);
            assert(out@ =~= cands.take(3).filter(pred));
        }
        if s3 {
            out.push(Point { x: x - 1, y });
        }
        proof {
            assert(cands.take(4) =~= cands.take(3).push(cands[3]));
            cands.take(3).lemma_filter_push(cands[3], pred);
            assert(out@ =~= cands.take(4).filter(pred));
        }
        let d0 = s3 && s0;
        let d1 = s0 && s1;
        let d2 = s1 && s2;
        let d3 = s2 && s3;
        if d0 && self.tile_type(x - 1, y - 1) != TileType::Nothing {
            out.push(Point { x: x - 1, y: y - 1 });
        }
        proof {
            assert(cands.take(5) =~= cands.take(4).push(cands[4]));
            cands.take(4).lemma_filter_push(cands[4], pred);
            assert(out@ =~= cands.take(5).filter(pred));
        }
        if d1 && self.tile_type(x + 1, y - 1) != TileType::Nothing {
            out.push(Point { x: x + 1, y: y - 1 });
        }
        proof {
            assert(cands.take(6) =~= cands.take(5).push(cands[5]));
            cands.take(5).lemma_filter_push(cands[5], pred);
            assert(out@ =~= cands.take(6).filter(pred));
        }
        if d2 && self.tile_type(x + 1, y + 1) != TileType::Nothing {
            out.push(Point { x: x + 1, y: y + 1 });
        }
        proof {
            assert(cands.take(7) =~= cands.take(6).push(cands[6]));
            cands.take(6).lemma_filter_push(cands[6], pred);
            assert(out@ =~= cands.take(7).filter(pred));
        }
        if d3 && self.tile_type(x - 1, y + 1) != TileType::Nothing {
            out.push(Point { x: x - 1, y: y + 1 });
        }
        proof {
            assert(cands.take(8) =~= cands.take(7).push(cands[7]));
            cands.take(7).lemma_filter_push(cands[7], pred);
            assert(cands.take(8) =~= cands);
            assert(out@ =~= cands.filter(pred));
        }
        out
    }

    /// Shortest-path query between two grid points over the 8-connected
    /// floor graph. Returns the path excluding the start point itself, and
    /// `None` exactly when no path exists; a query from a point to itself
    /// always succeeds with the empty path.
    pub fn find_path(&self, from: Point, to: Point) -> (r: Option<Vec<Point>>)
        requires
            self.grid_wf(),
            -COORD_LIMIT <= from.x <= COORD_LIMIT,
            -COORD_LIMIT <= from.y <= COORD_LIMIT,
            -COORD_LIMIT <= to.x <= COORD_LIMIT,
            -COORD_LIMIT <= to.y <= COORD_LIMIT,
        ensures
            (r is Some) <==> reachable(*self, from, to),
            from == to ==> (r matches Some(path) && path@.len() == 0),
            r matches Some(path) ==> is_path_between(
                *self,
                seq![from] + path@,
                from,
                to,
            ),
    {
        let r = astar_search(self, from, to);
        match r {
            Option::None => {
                proof {
                    if reachable(*self, from, to) {
                        assert(false);
                    }
                }
                Option::None
            },
            Option::Some(mut path) => {
                let ghost full = path@;
                path.remove(0);
                proof {
                    assert(seq![from] + path@ =~= full);
                    assert(reachable(*self, from, to)) by {
                        assert(is_path_between(*self, full, from, to));
                    }
                }
                Option::Some(path)
            },
        }
    }
}

/// Relies on pathfinding's `astar`: it returns a path exactly when the
/// goal can be reached through the successor closure; the path starts at
/// `start`, ends at the goal, and each step is one returned successor.
/// The successors here are the verified `get_neighbors`, whose output is
/// exactly the `spec_edge` moves, and a query from a point to itself
/// succeeds at once with the one-point path. The closures are only ever
/// applied to the start point and to returned neighbours, all of which
/// satisfy the preconditions of the verified functions they call.
#[verifier::external_body]
fn astar_search(level: &Level, from: Point, to: Point) -> (r: Option<Vec<Point>>)
    requires
        level.grid_wf(),
        -COORD_LIMIT <= from.x <= COORD_LIMIT,
        -COORD_LIMIT <= from.y <= COORD_LIMIT,
        -COORD_LIMIT <= to.x <= COORD_LIMIT,
        -COORD_LIMIT <= to.y <= COORD_LIMIT,
    ensures
        r is Some ==> is_path_between(*level, r->Some_0@, from, to),
        r is None ==> from != to && !reachable(*level, from, to),
        from == to ==> r is Some && r->Some_0@ == seq![from],
{
    let result = pathfinding::prelude::astar(
        &from,
        |p: &Point| level.get_neighbors(p).into_iter().map(|q| (q, 1u32)),
        |p: &Point| p.distance(&to) / 3,
        |p: &Point| *p == to,
    );
    result.map(|(path, _cost)| path)
}

} // verus!
