//! Spawn-point scattering and start/exit placement.
//!
//! The rooms are sorted by the y coordinate of their centres: the first
//! room's centre becomes the player start, the last room's centre becomes
//! the exit, and its tile is overwritten to `Exit`. Every room strictly
//! between the two scatters candidate spawn points through its interior,
//! dropping previously accepted points that sit within the minimum
//! Manhattan distance of a new candidate.

use vstd::prelude::*;
use crate::geometry::Point;
use crate::geometry::Rect;
use crate::level::Level;
use crate::level::MAX_DIM;
use crate::rng::RngState;
use crate::rng::SeededRng;
use crate::rng::draw_state;
use crate::rng::draw_value;
use crate::rooms::room_wf;
use crate::tiles::TileType;

verus! {

/// Accepted spawn points closer than this (in Manhattan distance) to a new
/// candidate are dropped in its favour.
pub const SPAWN_MIN_DIST: i32 = 1;

pub open spec fn abs_int(v: int) -> int {
    if v < 0 {
        -v
    } else {
        v
    }
}

pub open spec fn manhattan(a: Point, b: Point) -> int {
    abs_int(a.x - b.x) + abs_int(a.y - b.y)
}

/// Insert a room into a list sorted by centre y, after every room whose
/// centre is not below it (a stable insertion).
pub open spec fn insert_room(s: Seq<Rect>, r: Rect) -> Seq<Rect>
    decreases s.len(),
{
    if s.len() == 0 {
        seq![r]
    } else if r.centre.y < s.last().centre.y {
        insert_room(s.drop_last(), r).push(s.last())
    } else {
        s.push(r)
    }
}

/// Stable insertion sort of rooms by the y coordinate of their centres.
pub open spec fn sort_rooms(s: Seq<Rect>) -> Seq<Rect>
    decreases s.len(),
{
    if s.len() == 0 {
        Seq::<Rect>::empty()
    } else {
        insert_room(sort_rooms(s.drop_last()), s.last())
    }
}

pub open spec fn sorted_by_centre_y(s: Seq<Rect>) -> bool {
    forall|i: int, j: int|
        0 <= i <= j < s.len() ==> (#[trigger] s[i]).centre.y <= (#[trigger] s[j]).centre.y
}

pub proof fn lemma_insert_room_sorted(s: Seq<Rect>, r: Rect)
    requires
        sorted_by_centre_y(s),
    ensures
        sorted_by_centre_y(insert_room(s, r)),
        insert_room(s, r).len() == s.len() + 1,
        forall|k: int|
            0 <= k < insert_room(s, r).len() ==> (#[trigger] insert_room(s, r)[k] == r
                || s.contains(insert_room(s, r)[k])),
    decreases s.len(),
{
    if s.len() == 0 {
    } else if r.centre.y < s.last().centre.y {
        assert(sorted_by_centre_y(s.drop_last()));
        assert forall|k: int| 0 <= k < s.drop_last().len() implies s.contains(
            s.drop_last()[k],
        ) by {
            assert(s[k] == s.drop_last()[k]);
        }
        lemma_insert_room_sorted(s.drop_last(), r);
        let inner = insert_room(s.drop_last(), r);
        let out = inner.push(s.last());
        assert forall|i: int, j: int|
            0 <= i <= j < out.len() implies (#[trigger] out[i]).centre.y <= (
        #[trigger] out[j]).centre.y by {
            if j < out.len() - 1 {
                assert(inner[i].centre.y <= inner[j].centre.y);
            } else if i < out.len() - 1 {
                // every element of `inner` is r or an element of s, and
                // both lie at or below s.last()
                assert(out[i] == inner[i]);
                if inner[i] == r {
                } else {
                    assert(s.contains(inner[i]));
                    let m = choose|m: int| 0 <= m < s.len() && s[m] == inner[i];
                    assert(s[m].centre.y <= s.last().centre.y);
                }
            }
        }
        assert forall|k: int| 0 <= k < out.len() implies (#[trigger] out[k] == r || s.contains(
            out[k],
        )) by {
            if k < out.len() - 1 {
                if inner[k] != r {
                    assert(s.drop_last().contains(inner[k]));
                    let m = choose|m: int| 0 <= m < s.drop_last().len() && s.drop_last()[m]
                        == inner[k];
                    assert(s[m] == inner[k]);
                }
            } else {
                assert(out[k] == s.last());
                assert(s[s.len() - 1] == s.last());
            }
        }
    } else {
        let out = s.push(r);
        assert forall|i: int, j: int|
            0 <= i <= j < out.len() implies (#[trigger] out[i]).centre.y <= (
        #[trigger] out[j]).centre.y by {
            if j == out.len() - 1 && i < j {
                assert(s[i].centre.y <= s.last().centre.y);
            }
        }
        assert forall|k: int| 0 <= k < out.len() implies (#[trigger] out[k] == r || s.contains(
            out[k],
        )) by {
            if k < s.len() {
                assert(s[k] == out[k]);
            }
        }
    }
}

pub proof fn lemma_sort_rooms_props(s: Seq<Rect>)
    ensures
        sort_rooms(s).len() == s.len(),
        sorted_by_centre_y(sort_rooms(s)),
        forall|k: int| 0 <= k < sort_rooms(s).len() ==> s.contains(#[trigger] sort_rooms(s)[k]),
    decreases s.len(),
{
    if s.len() > 0 {
        lemma_sort_rooms_props(s.drop_last());
        lemma_insert_room_sorted(sort_rooms(s.drop_last()), s.last());
        let inner = sort_rooms(s.drop_last());
        let out = insert_room(inner, s.last());
        assert forall|k: int| 0 <= k < out.len() implies s.contains(#[trigger] out[k]) by {
            if out[k] == s.last() {
                assert(s[s.len() - 1] == s.last());
            } else {
                assert(inner.contains(out[k]));
                let m = choose|m: int| 0 <= m < inner.len() && inner[m] == out[k];
                assert(s.drop_last().contains(inner[m]));
                let m2 = choose|m2: int|
                    0 <= m2 < s.drop_last().len() && s.drop_last()[m2] == inner[m];
                assert(s[m2] == out[k]);
            }
        }
    }
}

/// `insert_room` puts the new room at the position the in-place scan finds:
/// before every room strictly below it and after everything else.
proof fn lemma_insert_room_at(s: Seq<Rect>, r: Rect, j: int)
    requires
        0 <= j <= s.len(),
        forall|k: int| j <= k < s.len() ==> (#[trigger] s[k]).centre.y > r.centre.y,
        j > 0 ==> s[j - 1].centre.y <= r.centre.y,
    ensures
        insert_room(s, r) == s.insert(j, r),
    decreases s.len(),
{
    if s.len() == 0 {
        assert(insert_room(s, r) =~= s.insert(0, r));
    } else if j == s.len() {
        assert(!(r.centre.y < s.last().centre.y) ==> insert_room(s, r) == s.push(r));
        assert(s.last() == s[j - 1]);
        assert(insert_room(s, r) =~= s.insert(j, r));
    } else {
        assert(s[s.len() - 1].centre.y > r.centre.y);
        lemma_insert_room_at(s.drop_last(), r, j);
        assert(insert_room(s, r) == s.drop_last().insert(j, r).push(s.last()));
        assert(s.drop_last().insert(j, r).push(s.last()) =~= s.insert(j, r));
    }
}

/// Points the scatter can produce: inside the grid with a margin.
pub open spec fn pt_in_grid(p: Point) -> bool {
    0 <= p.x <= MAX_DIM && 0 <= p.y <= MAX_DIM
}

/// Accepted points far enough from a new candidate.
pub open spec fn far_filter(pts: Seq<Point>, p: Point) -> Seq<Point> {
    pts.filter(|q: Point| manhattan(q, p) > SPAWN_MIN_DIST as int)
}

/// One candidate draw inside a room's interior: drop every accepted point
/// within the minimum distance of the candidate, then accept it.
pub open spec fn scatter_step(room: Rect, pts: Seq<Point>, st: RngState) -> (Seq<Point>,
    RngState) {
    let x = draw_value(st, room.x as int + 1, room.x2 as int - 2);
    let st1 = draw_state(st, room.x as int + 1, room.x2 as int - 2);
    let y = draw_value(st1, room.y as int + 1, room.y2 as int - 2);
    let st2 = draw_state(st1, room.y as int + 1, room.y2 as int - 2);
    let p = Point { x: x as i32, y: y as i32 };
    (far_filter(pts, p).push(p), st2)
}

/// As many candidate draws as the room has area.
pub open spec fn scatter_room(room: Rect, pts: Seq<Point>, st: RngState, count: nat) -> (Seq<
    Point,
>, RngState)
    decreases count,
{
    if count == 0 {
        (pts, st)
    } else {
        let prev = scatter_room(room, pts, st, (count - 1) as nat);
        scatter_step(room, prev.0, prev.1)
    }
}

/// Scatter over the interior rooms `rooms[1] ..= rooms[k]` of the sorted
/// list.
pub open spec fn scatter_upto(rooms: Seq<Rect>, st: RngState, k: nat) -> (Seq<Point>, RngState)
    decreases k,
{
    if k == 0 {
        (Seq::<Point>::empty(), st)
    } else {
        let prev = scatter_upto(rooms, st, (k - 1) as nat);
        scatter_room(rooms[k as int], prev.0, prev.1, rooms[k as int].spec_area() as nat)
    }
}

/// All spawn points of a sorted room list: nothing with fewer than two
/// rooms, otherwise a scatter over every room but the first and the last.
pub open spec fn scatter_model(rooms: Seq<Rect>, st: RngState) -> (Seq<Point>, RngState) {
    if rooms.len() >= 2 {
        scatter_upto(rooms, st, (rooms.len() - 2) as nat)
    } else {
        (Seq::<Point>::empty(), st)
    }
}

proof fn lemma_far_filter_push(s: Seq<Point>, e: Point, p: Point)
    ensures
        far_filter(s.push(e), p) == (if manhattan(e, p) > SPAWN_MIN_DIST as int {
            far_filter(s, p).push(e)
        } else {
            far_filter(s, p)
        }),
{
    s.lemma_filter_push(e, |q: Point| manhattan(q, p) > SPAWN_MIN_DIST as int);
}

proof fn lemma_contains_push(s: Seq<Point>, e: Point, p: Point)
    ensures
        s.push(e).contains(p) == (s.contains(p) || p == e),
{
    if s.push(e).contains(p) {
        let i = choose|i: int| 0 <= i < s.push(e).len() && s.push(e)[i] == p;
        if i < s.len() {
            assert(s[i] == p);
        }
    }
    if s.contains(p) {
        let i = choose|i: int| 0 <= i < s.len() && s[i] == p;
        assert(s.push(e)[i] == p);
    } else if p == e {
        assert(s.push(e)[s.len() as int] == p);
    }
}

/// Keep the points farther than the minimum distance from the candidate.
fn filter_far(pts: &Vec<Point>, p: Point) -> (r: Vec<Point>)
    requires
        forall|m: int| 0 <= m < pts@.len() ==> pt_in_grid(#[trigger] pts@[m]),
        pt_in_grid(p),
    ensures
        r@ == far_filter(pts@, p),
        forall|m: int| 0 <= m < r@.len() ==> pt_in_grid(#[trigger] r@[m]),
{
    let mut kept: Vec<Point> = Vec::new();
    let mut q: usize = 0;
    while q < pts.len()
        invariant
            0 <= q <= pts@.len(),
            forall|m: int| 0 <= m < pts@.len() ==> pt_in_grid(#[trigger] pts@[m]),
            pt_in_grid(p),
            kept@ == far_filter(pts@.take(q as int), p),
            forall|m: int| 0 <= m < kept@.len() ==> pt_in_grid(#[trigger] kept@[m]),
        decreases pts@.len() - q,
    {
        let cand = pts[q];
        let dx = if cand.x >= p.x {
            cand.x - p.x
        } else {
            p.x - cand.x
        };
        let dy = if cand.y >= p.y {
            cand.y - p.y
        } else {
            p.y - cand.y
        };
        proof {
            assert(pts@.take(q as int + 1) =~= pts@.take(q as int).push(cand));
            lemma_far_filter_push(pts@.take(q as int), cand, p);
            assert(dx + dy == manhattan(cand, p));
        }
        if dx + dy > SPAWN_MIN_DIST {
            kept.push(cand);
        }
        q = q + 1;
    }
    proof {
        assert(pts@.take(pts@.len() as int) =~= pts@);
    }
    kept
}

/// Stable sort of the rooms by centre y.
fn rooms_sorted_by_centre(v: &Vec<Rect>) -> (r: Vec<Rect>)
    ensures
        r@ == sort_rooms(v@),
        r@.len() == v@.len(),
{
    let mut sorted: Vec<Rect> = Vec::new();
    let mut i: usize = 0;
    while i < v.len()
        invariant
            0 <= i <= v@.len(),
            sorted@ == sort_rooms(v@.take(i as int)),
            sorted@.len() == i,
        decreases v@.len() - i,
    {
        let r = v[i];
        let mut j: usize = sorted.len();
        while j > 0
            invariant_except_break
                0 <= j <= sorted@.len(),
                forall|k: int|
                    j <= k < sorted@.len() ==> (#[trigger] sorted@[k]).centre.y > r.centre.y,
            ensures
                0 <= j <= sorted@.len(),
                forall|k: int|
                    j <= k < sorted@.len() ==> (#[trigger] sorted@[k]).centre.y > r.centre.y,
                j > 0 ==> sorted@[j - 1].centre.y <= r.centre.y,
            decreases j,
        {
            if sorted[j - 1].centre.y <= r.centre.y {
                break ;
            }
            j = j - 1;
        }
        proof {
            lemma_insert_room_at(sorted@, r, j as int);
            assert(v@.take(i as int + 1).drop_last() =~= v@.take(i as int));
            assert(v@.take(i as int + 1).last() == v@[i as int]);
        }
        sorted.insert(j, r);
        i = i + 1;
    }
    proof {
        assert(v@.take(v@.len() as int) =~= v@);
    }
    sorted
}

impl Level {
    /// Sort the rooms by centre y; the bottommost centre becomes the
    /// player start, the topmost becomes the exit (its tile is overwritten
    /// to `Exit`), and the interior rooms scatter spawn points with the
    /// minimum-separation rule. Everything follows `sort_rooms` and
    /// `scatter_model` exactly.
    pub fn calculate_spawn_points(&mut self, rng: &mut SeededRng)
        requires
            old(self).grid_wf(),
            old(self).rooms@.len() >= 1,
            forall|i: int|
                0 <= i < old(self).rooms@.len() ==> room_wf(
                    #[trigger] old(self).rooms@[i],
                    old(self).width as int,
                    old(self).height as int,
                ),
        ensures
            final(self).grid_wf(),
            final(self).width == old(self).width,
            final(self).height == old(self).height,
            final(self).collision_shapes@ == old(self).collision_shapes@,
            final(self).rooms@ == sort_rooms(old(self).rooms@),
            final(self).player_start_position == sort_rooms(old(self).rooms@)[0].centre,
            final(self).exit_point == sort_rooms(old(self).rooms@).last().centre,
            final(rng)@ == scatter_model(sort_rooms(old(self).rooms@), old(rng)@).1,
            forall|xx: int, yy: int| #[trigger] final(self).tile_at(xx, yy) == (if xx == final(self).exit_point.x
                && yy == final(self).exit_point.y {
                TileType::Exit
            } else {
                old(self).tile_at(xx, yy)
            }),
            forall|xx: int, yy: int| #[trigger] final(self).wall_at(xx, yy) == old(self).wall_at(
                xx,
                yy,
            ),
            forall|xx: int, yy: int| #[trigger] final(self).spawn_at(xx, yy) == (old(
                self,
            ).spawn_at(xx, yy) || (old(self).in_bounds(xx, yy) && scatter_model(
                sort_rooms(old(self).rooms@),
                old(rng)@,
            ).0.contains(Point { x: xx as i32, y: yy as i32 }))),
            forall|xx: int, yy: int| #[trigger] final(self).spawned_at(xx, yy) == old(
                self,
            ).spawned_at(xx, yy),
    {
        let ghost pre = *self;
        let ghost w = old(self).width as int;
        let ghost h = old(self).height as int;
        let sorted = rooms_sorted_by_centre(&self.rooms);
        proof {
            lemma_sort_rooms_props(pre.rooms@);
            assert forall|k: int| 0 <= k < sorted@.len() implies room_wf(
                #[trigger] sorted@[k],
                w,
                h,
            ) by {
                assert(pre.rooms@.contains(sorted@[k]));
                let m = choose|m: int| 0 <= m < pre.rooms@.len() && pre.rooms@[m] == sorted@[k];
            }
        }
        let n = sorted.len();
        let exit_centre = sorted[n - 1].centre;
        let start_centre = sorted[0].centre;
        self.rooms = sorted;
        self.exit_point = exit_centre;
        self.player_start_position = start_centre;
        let ghost sr = sort_rooms(pre.rooms@);
        let ghost st0 = rng@;
        let mut pts: Vec<Point> = Vec::new();
        if n >= 2 {
            let mut ri: usize = 1;
            while ri < n - 1
                invariant
                    1 <= ri <= n - 1,
                    n == sr.len(),
                    n >= 2,
                    self.rooms@ == sr,
                    forall|k: int| 0 <= k < sr.len() ==> room_wf(#[trigger] sr[k], w, h),
                    1 <= w <= MAX_DIM,
                    1 <= h <= MAX_DIM,
                    pts@ == scatter_upto(sr, st0, (ri - 1) as nat).0,
                    rng@ == scatter_upto(sr, st0, (ri - 1) as nat).1,
                    forall|m: int| 0 <= m < pts@.len() ==> pt_in_grid(#[trigger] pts@[m]),
                decreases n - 1 - ri,
            {
                let room = self.rooms[ri];
                proof {
                    assert(room.spec_area() <= 400) by (nonlinear_arith)
                        requires
                            0 <= room.width <= 20,
                            0 <= room.height <= 20,
                            room.spec_area() == room.width * room.height,
                    ;
                }
                let area = room.area();
                let ghost pts0 = pts@;
                let ghost st_room = rng@;
                let mut c: i32 = 0;
                while c < area
                    invariant
                        0 <= c <= area,
                        area == room.spec_area(),
                        room_wf(room, w, h),
                        1 <= w <= MAX_DIM,
                        1 <= h <= MAX_DIM,
                        pts@ == scatter_room(room, pts0, st_room, c as nat).0,
                        rng@ == scatter_room(room, pts0, st_room, c as nat).1,
                        forall|m: int| 0 <= m < pts@.len() ==> pt_in_grid(#[trigger] pts@[m]),
                    decreases area - c,
                {
                    let px = rng.range((room.x + 1) as u32, (room.x2 - 2) as u32);
                    let py = rng.range((room.y + 1) as u32, (room.y2 - 2) as u32);
                    let p = Point { x: px as i32, y: py as i32 };
                    let kept = filter_far(&pts, p);
                    pts = kept;
                    pts.push(p);
                    c = c + 1;
                }
                ri = ri + 1;
            }
        }
        proof {
            assert(pts@ == scatter_model(sr, st0).0);
            assert(rng@ == scatter_model(sr, st0).1);
        }
        // record the accepted points on their tiles
        let ghost mid = *self;
        let mut k: usize = 0;
        while k < pts.len()
            invariant
                0 <= k <= pts@.len(),
                forall|m: int| 0 <= m < pts@.len() ==> pt_in_grid(#[trigger] pts@[m]),
                self.grid_wf(),
                self.width == mid.width,
                self.height == mid.height,
                self.rooms@ == mid.rooms@,
                self.collision_shapes@ == mid.collision_shapes@,
                self.player_start_position == mid.player_start_position,
                self.exit_point == mid.exit_point,
                forall|xx: int, yy: int| #[trigger] self.tile_at(xx, yy) == mid.tile_at(xx, yy),
                forall|xx: int, yy: int| #[trigger] self.wall_at(xx, yy) == mid.wall_at(xx, yy),
                forall|xx: int, yy: int| #[trigger] self.spawn_at(xx, yy) == (mid.spawn_at(xx, yy)
                    || (mid.in_bounds(xx, yy) && pts@.take(k as int).contains(
                    Point { x: xx as i32, y: yy as i32 },
                ))),
                forall|xx: int, yy: int| #[trigger] self.spawned_at(xx, yy) == mid.spawned_at(
                    xx,
                    yy,
                ),
            decreases pts@.len() - k,
        {
            let p = pts[k];
            if p.x >= 0 && (p.x as u32) < self.width && p.y >= 0 && (p.y as u32) < self.height {
                self.set_spawn_flag(p.x as u32, p.y as u32);
            }
            proof {
                assert(pts@.take(k as int + 1) =~= pts@.take(k as int).push(pts@[k as int]));
                assert forall|xx: int, yy: int| #[trigger] self.spawn_at(xx, yy) == (mid.spawn_at(
                    xx,
                    yy,
                ) || (mid.in_bounds(xx, yy) && pts@.take(k as int + 1).contains(
                    Point { x: xx as i32, y: yy as i32 },
                ))) by {
                    lemma_contains_push(
                        pts@.take(k as int),
                        pts@[k as int],
                        Point { x: xx as i32, y: yy as i32 },
                    );
                }
            }
            k = k + 1;
        }
        proof {
            assert(pts@.take(pts@.len() as int) =~= pts@);
        }
        // overwrite the exit room's centre tile
        proof {
            crate::corridors::lemma_room_centre_margin(sr[sr.len() - 1], w, h);
        }
        self.set_tile(exit_centre.x as u32, exit_centre.y as u32, TileType::Exit);
    }
}

} // verus!
