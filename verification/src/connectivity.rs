//! Connectivity of generated levels.
//!
//! Every walkable tile of a generated level is covered by a placed room or
//! by a corridor strip; rooms and strips are internally connected by
//! straight moves, and consecutive rooms are joined through their shared
//! corridor. `lemma_generated_connected` assembles these facts: every
//! `Dirt` or `Exit` tile is reachable from the player start.

use vstd::prelude::*;
use crate::corridors::Segment;
use crate::corridors::corridors_upto;
use crate::corridors::covered_by_seg;
use crate::corridors::lemma_room_centre_margin;
use crate::corridors::pair_segments;
use crate::corridors::seg_covers;
use crate::generator::gen_exit;
use crate::generator::gen_rng0;
use crate::generator::gen_rooms_placed;
use crate::generator::gen_segments;
use crate::generator::gen_sorted_rooms;
use crate::generator::gen_st_rooms;
use crate::generator::gen_tile;
use crate::generator::gen_tile_pre;
use crate::geometry::Point;
use crate::geometry::Rect;
use crate::level::Level;
use crate::level::MAX_DIM;
use crate::path::floor_at;
use crate::path::is_path_between;
use crate::path::lemma_reachable_self;
use crate::path::reachable;
use crate::path::spec_edge;
use crate::rng::RngState;
use crate::rooms::MAX_ROOMS;
use crate::rooms::MAX_ROOM_SIZE;
use crate::rooms::covered_by_room;
use crate::rooms::lemma_rooms_after_nonempty;
use crate::rooms::lemma_rooms_after_wf;
use crate::rooms::room_wf;
use crate::spawn::abs_int;
use crate::spawn::lemma_sort_rooms_props;
use crate::tiles::TileType;

verus! {

/// Extending a walk by one move keeps it a walk.
proof fn lemma_reachable_extend(l: Level, a: Point, b: Point, c: Point)
    requires
        reachable(l, a, b),
        spec_edge(l, b, c),
    ensures
        reachable(l, a, c),
{
    let path = choose|path: Seq<Point>| is_path_between(l, path, a, b);
    let path2 = path.push(c);
    assert forall|i: int| #![trigger path2[i]] 0 <= i < path2.len() - 1 implies spec_edge(
        l,
        path2[i],
        path2[i + 1],
    ) by {
        if i < path.len() - 1 {
            assert(path2[i] == path[i]);
            assert(path2[i + 1] == path[i + 1]);
            assert(spec_edge(l, path[i], path[i + 1]));
        } else {
            assert(path2[i] == path.last());
            assert(path2[i + 1] == c);
        }
    }
    assert(is_path_between(l, path2, a, c));
}

/// Joining a walk to `b` with a walk from `b` gives a walk.
proof fn lemma_reachable_trans(l: Level, a: Point, b: Point, c: Point)
    requires
        reachable(l, a, b),
        reachable(l, b, c),
    ensures
        reachable(l, a, c),
{
    let p1 = choose|p: Seq<Point>| is_path_between(l, p, a, b);
    let p2 = choose|p: Seq<Point>| is_path_between(l, p, b, c);
    let joined = p1 + p2.skip(1);
    assert(joined.len() == p1.len() + p2.len() - 1);
    assert(joined[0] == p1[0]);
    if p2.len() == 1 {
        assert(joined =~= p1);
        assert(c == b);
        assert(is_path_between(l, joined, a, c));
    } else {
        assert(joined.last() == p2.last());
        assert forall|i: int| #![trigger joined[i]] 0 <= i < joined.len() - 1 implies spec_edge(
            l,
            joined[i],
            joined[i + 1],
        ) by {
            if i < p1.len() - 1 {
                assert(joined[i] == p1[i]);
                assert(joined[i + 1] == p1[i + 1]);
                assert(spec_edge(l, p1[i], p1[i + 1]));
            } else if i == p1.len() - 1 {
                assert(joined[i] == p1.last());
                assert(joined[i + 1] == p2.skip(1)[0]);
                assert(p2.skip(1)[0] == p2[1]);
                assert(spec_edge(l, p2[0], p2[1]));
            } else {
                let k = i - p1.len();
                assert(joined[i] == p2.skip(1)[k]);
                assert(joined[i + 1] == p2.skip(1)[k + 1]);
                assert(p2.skip(1)[k] == p2[k + 1]);
                assert(p2.skip(1)[k + 1] == p2[k + 2]);
                assert(spec_edge(l, p2[k + 1], p2[k + 2]));
            }
        }
        assert(is_path_between(l, joined, a, c));
    }
}

/// A horizontal run of walkable cells is traversable in both directions.
proof fn lemma_walk_horizontal(l: Level, x1: int, x2: int, y: int)
    requires
        0 <= x1 <= x2 <= MAX_DIM,
        0 <= y <= MAX_DIM,
        forall|t: int| x1 <= t <= x2 ==> floor_at(l, t, y),
    ensures
        reachable(l, Point { x: x1 as i32, y: y as i32 }, Point { x: x2 as i32, y: y as i32 }),
        reachable(l, Point { x: x2 as i32, y: y as i32 }, Point { x: x1 as i32, y: y as i32 }),
    decreases x2 - x1,
{
    let a = Point { x: x1 as i32, y: y as i32 };
    let b = Point { x: x2 as i32, y: y as i32 };
    if x1 == x2 {
        lemma_reachable_self(l, a);
    } else {
        let m = Point { x: (x2 - 1) as i32, y: y as i32 };
        lemma_walk_horizontal(l, x1, x2 - 1, y);
        assert(floor_at(l, x2, y));
        assert(spec_edge(l, m, b));
        lemma_reachable_extend(l, a, m, b);
        assert(floor_at(l, x2 - 1, y));
        assert(spec_edge(l, b, m));
        let pm = seq![b, m];
        assert(is_path_between(l, pm, b, m));
        lemma_reachable_trans(l, b, m, a);
    }
}

/// A vertical run of walkable cells is traversable in both directions.
proof fn lemma_walk_vertical(l: Level, y1: int, y2: int, x: int)
    requires
        0 <= y1 <= y2 <= MAX_DIM,
        0 <= x <= MAX_DIM,
        forall|t: int| y1 <= t <= y2 ==> floor_at(l, x, t),
    ensures
        reachable(l, Point { x: x as i32, y: y1 as i32 }, Point { x: x as i32, y: y2 as i32 }),
        reachable(l, Point { x: x as i32, y: y2 as i32 }, Point { x: x as i32, y: y1 as i32 }),
    decreases y2 - y1,
{
    let a = Point { x: x as i32, y: y1 as i32 };
    let b = Point { x: x as i32, y: y2 as i32 };
    if y1 == y2 {
        lemma_reachable_self(l, a);
    } else {
        let m = Point { x: x as i32, y: (y2 - 1) as i32 };
        lemma_walk_vertical(l, y1, y2 - 1, x);
        assert(floor_at(l, x, y2));
        assert(spec_edge(l, m, b));
        lemma_reachable_extend(l, a, m, b);
        assert(floor_at(l, x, y2 - 1));
        assert(spec_edge(l, b, m));
        let pm = seq![b, m];
        assert(is_path_between(l, pm, b, m));
        lemma_reachable_trans(l, b, m, a);
    }
}

/// An L-shaped move between any two points of an all-walkable rectangle.
proof fn lemma_room_reach(l: Level, r: Rect, a: Point, b: Point)
    requires
        r.wf(),
        0 <= r.x,
        r.x2 <= MAX_DIM,
        0 <= r.y,
        r.y2 <= MAX_DIM,
        r.spec_contains_tile(a.x as int, a.y as int),
        r.spec_contains_tile(b.x as int, b.y as int),
        forall|x: int, y: int| r.spec_contains_tile(x, y) ==> floor_at(l, x, y),
    ensures
        reachable(l, a, b),
        reachable(l, b, a),
{
    let ax = a.x as int;
    let ay = a.y as int;
    let bx = b.x as int;
    let by = b.y as int;
    let corner = Point { x: b.x, y: a.y };
    // along row ay between ax and bx: all inside the rectangle
    assert forall|t: int| (if ax <= bx { ax <= t <= bx } else { bx <= t <= ax }) implies floor_at(
        l,
        t,
        ay,
    ) by {
        assert(r.spec_contains_tile(t, ay));
    }
    // along column bx between ay and by: all inside the rectangle
    assert forall|t: int| (if ay <= by { ay <= t <= by } else { by <= t <= ay }) implies floor_at(
        l,
        bx,
        t,
    ) by {
        assert(r.spec_contains_tile(bx, t));
    }
    if ax <= bx {
        lemma_walk_horizontal(l, ax, bx, ay);
    } else {
        lemma_walk_horizontal(l, bx, ax, ay);
    }
    if ay <= by {
        lemma_walk_vertical(l, ay, by, bx);
    } else {
        lemma_walk_vertical(l, by, ay, bx);
    }
    lemma_reachable_trans(l, a, corner, b);
    lemma_reachable_trans(l, b, corner, a);
}


/// A strip that belongs to one of the first `n` consecutive room pairs.
pub open spec fn seg_of_some_pair(rooms: Seq<Rect>, n: int, s: Segment) -> bool {
    exists|i: int|
        0 <= i < n && (s == (#[trigger] pair_segments(rooms[i], rooms[i + 1])).0 || s
            == pair_segments(rooms[i], rooms[i + 1]).1)
}

/// The corridor model lists, in order, exactly the two strips of each
/// consecutive pair of rooms.
proof fn lemma_corridors_pairs(rooms: Seq<Rect>, st: RngState, n: nat)
    requires
        rooms.len() >= 1,
        n <= rooms.len() - 1,
    ensures
        corridors_upto(rooms, st, n).0.len() == 2 * n,
        forall|i: int|
            0 <= i < n ==> corridors_upto(rooms, st, n).0[2 * i] == (#[trigger] pair_segments(
                rooms[i],
                rooms[i + 1],
            )).0,
        forall|i: int|
            0 <= i < n ==> corridors_upto(rooms, st, n).0[2 * i + 1] == (#[trigger] pair_segments(
                rooms[i],
                rooms[i + 1],
            )).1,
        forall|k: int|
            0 <= k < 2 * n ==> seg_of_some_pair(
                rooms,
                n as int,
                #[trigger] corridors_upto(rooms, st, n).0[k],
            ),
    decreases n,
{
    if n > 0 {
        lemma_corridors_pairs(rooms, st, (n - 1) as nat);
        let prev = corridors_upto(rooms, st, (n - 1) as nat).0;
        let cur = corridors_upto(rooms, st, n).0;
        let p = pair_segments(rooms[n - 1], rooms[n - 1 + 1]);
        assert(cur == prev.push(p.0).push(p.1));
        assert(cur[2 * (n - 1)] == p.0);
        assert(cur[2 * (n - 1) + 1] == p.1);
        assert forall|i: int|
            0 <= i < n implies cur[2 * i] == (#[trigger] pair_segments(rooms[i], rooms[i + 1])).0
            && cur[2 * i + 1] == pair_segments(rooms[i], rooms[i + 1]).1 by {
            if i < n - 1 {
                assert(cur[2 * i] == prev[2 * i]);
                assert(cur[2 * i + 1] == prev[2 * i + 1]);
            }
        }
        assert forall|k: int| 0 <= k < 2 * n implies seg_of_some_pair(
            rooms,
            n as int,
            #[trigger] cur[k],
        ) by {
            if k < 2 * (n - 1) {
                assert(cur[k] == prev[k]);
                assert(seg_of_some_pair(rooms, n as int - 1, prev[k]));
                let i = choose|i: int|
                    0 <= i < n - 1 && (prev[k] == (#[trigger] pair_segments(
                        rooms[i],
                        rooms[i + 1],
                    )).0 || prev[k] == pair_segments(rooms[i], rooms[i + 1]).1);
                assert(0 <= i < n && (cur[k] == pair_segments(rooms[i], rooms[i + 1]).0 || cur[k]
                    == pair_segments(rooms[i], rooms[i + 1]).1));
            } else if k == 2 * (n - 1) {
                assert(0 <= n - 1 < n && cur[k] == pair_segments(rooms[n - 1], rooms[n - 1 + 1]).0);
            } else {
                assert(0 <= n - 1 < n && cur[k] == pair_segments(rooms[n - 1], rooms[n - 1 + 1]).1);
            }
        }
    }
}

/// The centres of two corridor-joined rooms reach each other through the
/// two strips of their corridor.
proof fn lemma_centres_linked(l: Level, a: Rect, b: Rect, w: int, h: int)
    requires
        room_wf(a, w, h),
        room_wf(b, w, h),
        MAX_ROOM_SIZE <= w <= MAX_DIM,
        MAX_ROOM_SIZE + 1 <= h <= MAX_DIM,
        forall|x: int, y: int|
            seg_covers(pair_segments(a, b).0, x, y) ==> #[trigger] floor_at(l, x, y),
        forall|x: int, y: int|
            seg_covers(pair_segments(a, b).1, x, y) ==> #[trigger] floor_at(l, x, y),
    ensures
        reachable(l, a.centre, b.centre),
        reachable(l, b.centre, a.centre),
{
    lemma_room_centre_margin(a, w, h);
    lemma_room_centre_margin(b, w, h);
    let ax = a.centre.x as int;
    let ay = a.centre.y as int;
    let bx = b.centre.x as int;
    let by = b.centre.y as int;
    let corner = Point { x: b.centre.x, y: a.centre.y };
    let s0 = pair_segments(a, b).0;
    let s1 = pair_segments(a, b).1;
    assert forall|t: int| (if ax <= bx { ax <= t <= bx } else { bx <= t <= ax }) implies floor_at(
        l,
        t,
        ay,
    ) by {
        assert(seg_covers(s0, t, ay));
    }
    assert forall|t: int| (if ay <= by { ay <= t <= by } else { by <= t <= ay }) implies floor_at(
        l,
        bx,
        t,
    ) by {
        assert(seg_covers(s1, bx, t));
    }
    if ax <= bx {
        lemma_walk_horizontal(l, ax, bx, ay);
    } else {
        lemma_walk_horizontal(l, bx, ax, ay);
    }
    if ay <= by {
        lemma_walk_vertical(l, ay, by, bx);
    } else {
        lemma_walk_vertical(l, by, ay, bx);
    }
    lemma_reachable_trans(l, a.centre, corner, b.centre);
    lemma_reachable_trans(l, b.centre, corner, a.centre);
}



/// The corridor of consecutive pair `k` joins its two room centres.
proof fn lemma_link_pair(l: Level, rooms: Seq<Rect>, st: RngState, w: int, h: int, k: int)
    requires
        rooms.len() >= 1,
        0 <= k < rooms.len() - 1,
        MAX_ROOM_SIZE <= w <= MAX_DIM,
        MAX_ROOM_SIZE + 1 <= h <= MAX_DIM,
        forall|m: int| 0 <= m < rooms.len() ==> room_wf(#[trigger] rooms[m], w, h),
        forall|x: int, y: int|
            covered_by_seg(corridors_upto(rooms, st, (rooms.len() - 1) as nat).0, x, y)
                ==> #[trigger] floor_at(l, x, y),
    ensures
        reachable(l, rooms[k].centre, rooms[k + 1].centre),
        reachable(l, rooms[k + 1].centre, rooms[k].centre),
{
    let n = (rooms.len() - 1) as nat;
    let segs = corridors_upto(rooms, st, n).0;
    lemma_corridors_pairs(rooms, st, n);
    assert(segs[2 * k] == pair_segments(rooms[k], rooms[k + 1]).0);
    assert(segs[2 * k + 1] == pair_segments(rooms[k], rooms[k + 1]).1);
    assert forall|x: int, y: int|
        seg_covers(pair_segments(rooms[k], rooms[k + 1]).0, x, y) implies #[trigger] floor_at(
        l,
        x,
        y,
    ) by {
        assert(0 <= 2 * k < segs.len() && seg_covers(segs[2 * k], x, y));
        assert(covered_by_seg(segs, x, y));
    }
    assert forall|x: int, y: int|
        seg_covers(pair_segments(rooms[k], rooms[k + 1]).1, x, y) implies #[trigger] floor_at(
        l,
        x,
        y,
    ) by {
        assert(0 <= 2 * k + 1 < segs.len() && seg_covers(segs[2 * k + 1], x, y));
        assert(covered_by_seg(segs, x, y));
    }
    lemma_centres_linked(l, rooms[k], rooms[k + 1], w, h);
}

/// Any two room centres of the placement-ordered list reach each other
/// along the chain of corridors.
proof fn lemma_centre_route(l: Level, rooms: Seq<Rect>, st: RngState, w: int, h: int, i: int, j: int)
    requires
        rooms.len() >= 1,
        0 <= i < rooms.len(),
        0 <= j < rooms.len(),
        MAX_ROOM_SIZE <= w <= MAX_DIM,
        MAX_ROOM_SIZE + 1 <= h <= MAX_DIM,
        forall|m: int| 0 <= m < rooms.len() ==> room_wf(#[trigger] rooms[m], w, h),
        forall|x: int, y: int|
            covered_by_seg(corridors_upto(rooms, st, (rooms.len() - 1) as nat).0, x, y)
                ==> #[trigger] floor_at(l, x, y),
    ensures
        reachable(l, rooms[i].centre, rooms[j].centre),
    decreases abs_int(j - i),
{
    if i == j {
        lemma_reachable_self(l, rooms[i].centre);
    } else if i < j {
        lemma_link_pair(l, rooms, st, w, h, j - 1);
        lemma_centre_route(l, rooms, st, w, h, i, j - 1);
        lemma_reachable_trans(l, rooms[i].centre, rooms[j - 1].centre, rooms[j].centre);
    } else {
        lemma_link_pair(l, rooms, st, w, h, j);
        lemma_centre_route(l, rooms, st, w, h, i, j + 1);
        lemma_reachable_trans(l, rooms[i].centre, rooms[j + 1].centre, rooms[j].centre);
    }
}


/// From the centre of room `m` to any cell of room `j`.
proof fn lemma_reach_room_cell(
    l: Level,
    placed: Seq<Rect>,
    st: RngState,
    w: int,
    h: int,
    m: int,
    j: int,
    x: int,
    y: int,
)
    requires
        placed.len() >= 1,
        0 <= m < placed.len(),
        0 <= j < placed.len(),
        MAX_ROOM_SIZE <= w <= MAX_DIM,
        MAX_ROOM_SIZE + 1 <= h <= MAX_DIM,
        forall|k: int| 0 <= k < placed.len() ==> room_wf(#[trigger] placed[k], w, h),
        forall|xx: int, yy: int|
            covered_by_seg(corridors_upto(placed, st, (placed.len() - 1) as nat).0, xx, yy)
                ==> #[trigger] floor_at(l, xx, yy),
        forall|xx: int, yy: int|
            covered_by_room(placed, xx, yy) ==> #[trigger] floor_at(l, xx, yy),
        placed[j].spec_contains_tile(x, y),
    ensures
        reachable(l, placed[m].centre, Point { x: x as i32, y: y as i32 }),
{
    lemma_centre_route(l, placed, st, w, h, m, j);
    lemma_room_centre_margin(placed[j], w, h);
    let r = placed[j];
    assert(r.spec_contains_tile(r.centre.x as int, r.centre.y as int));
    assert forall|xx: int, yy: int| r.spec_contains_tile(xx, yy) implies floor_at(l, xx, yy) by {
        assert(covered_by_room(placed, xx, yy));
    }
    let target = Point { x: x as i32, y: y as i32 };
    lemma_room_reach(l, r, r.centre, target);
    lemma_reachable_trans(l, placed[m].centre, r.centre, target);
}

/// From the centre of room `m` to any cell of the horizontal strip of
/// pair `i`.
proof fn lemma_reach_hseg_cell(
    l: Level,
    placed: Seq<Rect>,
    st: RngState,
    w: int,
    h: int,
    m: int,
    i: int,
    x: int,
    y: int,
)
    requires
        placed.len() >= 1,
        0 <= m < placed.len(),
        0 <= i < placed.len() - 1,
        MAX_ROOM_SIZE <= w <= MAX_DIM,
        MAX_ROOM_SIZE + 1 <= h <= MAX_DIM,
        forall|k: int| 0 <= k < placed.len() ==> room_wf(#[trigger] placed[k], w, h),
        forall|xx: int, yy: int|
            covered_by_seg(corridors_upto(placed, st, (placed.len() - 1) as nat).0, xx, yy)
                ==> #[trigger] floor_at(l, xx, yy),
        seg_covers(pair_segments(placed[i], placed[i + 1]).0, x, y),
    ensures
        reachable(l, placed[m].centre, Point { x: x as i32, y: y as i32 }),
{
    let n = (placed.len() - 1) as nat;
    let segs = corridors_upto(placed, st, n).0;
    lemma_corridors_pairs(placed, st, n);
    let s = pair_segments(placed[i], placed[i + 1]).0;
    assert(segs[2 * i] == s);
    assert forall|xx: int, yy: int| seg_covers(s, xx, yy) implies floor_at(l, xx, yy) by {
        assert(seg_covers(segs[2 * i], xx, yy));
        assert(covered_by_seg(segs, xx, yy));
    }
    lemma_room_centre_margin(placed[i], w, h);
    lemma_room_centre_margin(placed[i + 1], w, h);
    lemma_centre_route(l, placed, st, w, h, m, i);
    let acx = placed[i].centre.x as int;
    let at = s.at;
    assert(at == placed[i].centre.y as int);
    let corner = Point { x: x as i32, y: at as i32 };
    let target = Point { x: x as i32, y: y as i32 };
    // along the strip's centre row to the cell's column
    assert forall|t: int| (if acx <= x { acx <= t <= x } else { x <= t <= acx }) implies floor_at(
        l,
        t,
        at,
    ) by {
        assert(seg_covers(s, t, at));
    }
    if acx <= x {
        lemma_walk_horizontal(l, acx, x, at);
    } else {
        lemma_walk_horizontal(l, x, acx, at);
    }
    assert(placed[i].centre == Point { x: acx as i32, y: at as i32 });
    lemma_reachable_trans(l, placed[m].centre, placed[i].centre, corner);
    // one or two steps within the strip to the cell's row
    assert forall|t: int| (if at <= y { at <= t <= y } else { y <= t <= at }) implies floor_at(
        l,
        x,
        t,
    ) by {
        assert(seg_covers(s, x, t));
    }
    if at <= y {
        lemma_walk_vertical(l, at, y, x);
    } else {
        lemma_walk_vertical(l, y, at, x);
    }
    lemma_reachable_trans(l, placed[m].centre, corner, target);
}

/// From the centre of room `m` to any cell of the vertical strip of
/// pair `i`.
proof fn lemma_reach_vseg_cell(
    l: Level,
    placed: Seq<Rect>,
    st: RngState,
    w: int,
    h: int,
    m: int,
    i: int,
    x: int,
    y: int,
)
    requires
        placed.len() >= 1,
        0 <= m < placed.len(),
        0 <= i < placed.len() - 1,
        MAX_ROOM_SIZE <= w <= MAX_DIM,
        MAX_ROOM_SIZE + 1 <= h <= MAX_DIM,
        forall|k: int| 0 <= k < placed.len() ==> room_wf(#[trigger] placed[k], w, h),
        forall|xx: int, yy: int|
            covered_by_seg(corridors_upto(placed, st, (placed.len() - 1) as nat).0, xx, yy)
                ==> #[trigger] floor_at(l, xx, yy),
        seg_covers(pair_segments(placed[i], placed[i + 1]).1, x, y),
    ensures
        reachable(l, placed[m].centre, Point { x: x as i32, y: y as i32 }),
{
    let n = (placed.len() - 1) as nat;
    let segs = corridors_upto(placed, st, n).0;
    lemma_corridors_pairs(placed, st, n);
    let s = pair_segments(placed[i], placed[i + 1]).1;
    assert(segs[2 * i + 1] == s);
    assert forall|xx: int, yy: int| seg_covers(s, xx, yy) implies floor_at(l, xx, yy) by {
        assert(seg_covers(segs[2 * i + 1], xx, yy));
        assert(covered_by_seg(segs, xx, yy));
    }
    lemma_room_centre_margin(placed[i], w, h);
    lemma_room_centre_margin(placed[i + 1], w, h);
    lemma_centre_route(l, placed, st, w, h, m, i + 1);
    let bcy = placed[i + 1].centre.y as int;
    let at = s.at;
    assert(at == placed[i + 1].centre.x as int);
    let corner = Point { x: x as i32, y: bcy as i32 };
    let target = Point { x: x as i32, y: y as i32 };
    // one or two steps across the strip to the cell's column
    assert forall|t: int| (if at <= x { at <= t <= x } else { x <= t <= at }) implies floor_at(
        l,
        t,
        bcy,
    ) by {
        assert(seg_covers(s, t, bcy));
    }
    if at <= x {
        lemma_walk_horizontal(l, at, x, bcy);
    } else {
        lemma_walk_horizontal(l, x, at, bcy);
    }
    assert(placed[i + 1].centre == Point { x: at as i32, y: bcy as i32 });
    lemma_reachable_trans(l, placed[m].centre, placed[i + 1].centre, corner);
    // along the strip's centre column to the cell's row
    assert forall|t: int| (if bcy <= y { bcy <= t <= y } else { y <= t <= bcy }) implies floor_at(
        l,
        x,
        t,
    ) by {
        assert(seg_covers(s, x, t));
    }
    if bcy <= y {
        lemma_walk_vertical(l, bcy, y, x);
    } else {
        lemma_walk_vertical(l, y, bcy, x);
    }
    lemma_reachable_trans(l, placed[m].centre, corner, target);
}

/// Every walkable tile of a generated level is reachable from the player
/// start along the 8-connected floor graph.
pub proof fn lemma_generated_connected(l: Level, seed: Seq<u8>, width: u32, height: u32)
    requires
        l.matches_generation(seed, width, height),
        MAX_ROOM_SIZE <= width <= MAX_DIM,
        MAX_ROOM_SIZE + 1 <= height <= MAX_DIM,
    ensures
        forall|x: int, y: int|
            #[trigger] floor_at(l, x, y) ==> reachable(
                l,
                l.player_start_position,
                Point { x: x as i32, y: y as i32 },
            ),
{
    let w = width as int;
    let h = height as int;
    let st0 = gen_rng0(seed);
    let placed = gen_rooms_placed(seed, w, h);
    let st1 = gen_st_rooms(seed, w, h);
    let segs = gen_segments(seed, w, h);
    let sorted = gen_sorted_rooms(seed, w, h);
    lemma_rooms_after_nonempty(w, h, st0, MAX_ROOMS as nat);
    lemma_rooms_after_wf(w, h, st0, MAX_ROOMS as nat);
    lemma_sort_rooms_props(placed);
    let n = (placed.len() - 1) as nat;
    lemma_corridors_pairs(placed, st1, n);
    assert(segs == corridors_upto(placed, st1, n).0);
    // cells covered by a room are walkable
    assert forall|x: int, y: int| covered_by_room(placed, x, y) implies #[trigger] floor_at(
        l,
        x,
        y,
    ) by {
        let j = choose|j: int|
            0 <= j < placed.len() && (#[trigger] placed[j]).spec_contains_tile(x, y);
        assert(room_wf(placed[j], w, h));
        assert(gen_tile_pre(seed, w, h, x, y) == TileType::Dirt);
        assert(l.tile_at(x, y) == gen_tile(seed, w, h, x, y));
    }
    // cells covered by a corridor strip are walkable
    assert forall|x: int, y: int| covered_by_seg(segs, x, y) implies #[trigger] floor_at(
        l,
        x,
        y,
    ) by {
        let k = choose|k: int| 0 <= k < segs.len() && seg_covers(#[trigger] segs[k], x, y);
        assert(seg_of_some_pair(placed, n as int, segs[k]));
        let i = choose|i: int|
            0 <= i < n && (segs[k] == (#[trigger] pair_segments(placed[i], placed[i + 1])).0
                || segs[k] == pair_segments(placed[i], placed[i + 1]).1);
        lemma_room_centre_margin(placed[i], w, h);
        lemma_room_centre_margin(placed[i + 1], w, h);
        assert(gen_tile_pre(seed, w, h, x, y) == TileType::Dirt);
        assert(l.tile_at(x, y) == gen_tile(seed, w, h, x, y));
    }
    // the start is the centre of some placed room
    let start = l.player_start_position;
    assert(start == sorted[0].centre);
    assert(placed.contains(sorted[0]));
    let m = choose|m: int| 0 <= m < placed.len() && placed[m] == sorted[0];
    assert forall|x: int, y: int| #[trigger] floor_at(l, x, y) implies reachable(
        l,
        start,
        Point { x: x as i32, y: y as i32 },
    ) by {
        assert(l.tile_at(x, y) == gen_tile(seed, w, h, x, y));
        if x == gen_exit(seed, w, h).x as int && y == gen_exit(seed, w, h).y as int {
            // the exit cell lies inside the last sorted room
            let lastr = sorted[sorted.len() - 1];
            assert(placed.contains(lastr));
            let j = choose|j: int| 0 <= j < placed.len() && placed[j] == lastr;
            lemma_room_centre_margin(placed[j], w, h);
            assert(placed[j].spec_contains_tile(x, y));
            lemma_reach_room_cell(l, placed, st1, w, h, m, j, x, y);
        } else {
            assert(gen_tile_pre(seed, w, h, x, y) == TileType::Dirt);
            if covered_by_room(placed, x, y) {
                let j = choose|j: int|
                    0 <= j < placed.len() && (#[trigger] placed[j]).spec_contains_tile(x, y);
                lemma_reach_room_cell(l, placed, st1, w, h, m, j, x, y);
            } else {
                let k = choose|k: int| 0 <= k < segs.len() && seg_covers(#[trigger] segs[k], x, y);
                assert(seg_of_some_pair(placed, n as int, segs[k]));
                let i = choose|i: int|
                    0 <= i < n && (segs[k] == (#[trigger] pair_segments(
                        placed[i],
                        placed[i + 1],
                    )).0 || segs[k] == pair_segments(placed[i], placed[i + 1]).1);
                if segs[k] == pair_segments(placed[i], placed[i + 1]).0 {
                    lemma_reach_hseg_cell(l, placed, st1, w, h, m, i, x, y);
                } else {
                    lemma_reach_vseg_cell(l, placed, st1, w, h, m, i, x, y);
                }
            }
        }
    }
}

} // verus!
