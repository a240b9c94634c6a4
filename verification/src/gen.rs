use vstd::prelude::*;

use crate::map::{cell, idx, in_grid, lemma_idx, on_ring, stamp, GameMap, Tile};
use crate::pos::Pos;
use crate::rng::{pcg_seeded, pcg_step, range_draw, Rng};

verus! {

// The dungeon generator.  Every random draw goes through the seeded
// generator of `rng`, so the whole pipeline below is a function of the seed:
// the specification functions mirror the executable phases draw for draw,
// and `generate` is proved to return exactly `gen_result(seed)`.

/// The blank dungeon: a Border ring around a solid Wall interior.
pub open spec fn initial_grid() -> Seq<Tile> {
    Seq::new(
        1369,
        |i: int|
            if on_ring(i % 37, i / 37) {
                Tile::BORDER
            } else {
                Tile::WALL
            },
    )
}

/// `n` single Stone tiles scattered at drawn interior positions.
pub open spec fn scatter_stones(g: Seq<Tile>, st: u64, inc: u64, n: nat) -> (Seq<Tile>, u64)
    decreases n,
{
    if n == 0 {
        (g, st)
    } else {
        let dx = range_draw(st, inc, 2, 35);
        let dy = range_draw(dx.1, inc, 2, 35);
        let g2 = stamp(g, dx.0 as int, dx.0 + 1, dy.0 as int, dy.0 + 1, Tile::STONE);
        scatter_stones(g2, dy.1, inc, (n - 1) as nat)
    }
}

/// One room: a 9 x 9 Empty interior at a drawn anchor, with side and
/// top/bottom openings each carved on a coin flip; yields the room's center.
pub open spec fn carve_room(g: Seq<Tile>, st: u64, inc: u64) -> (Seq<Tile>, u64, Pos) {
    let dt = range_draw(st, inc, 2, 25);
    let dl = range_draw(dt.1, inc, 2, 25);
    let top = dt.0 as int;
    let left = dl.0 as int;
    let g1 = stamp(g, left + 1, left + 10, top + 1, top + 10, Tile::EMPTY);
    let c1 = pcg_step(dl.1, inc);
    let g2 = if c1.0 < 0x8000_0000 {
        stamp(
            stamp(g1, left, left + 1, top + 2, top + 9, Tile::EMPTY),
            left + 10,
            left + 11,
            top + 2,
            top + 9,
            Tile::EMPTY,
        )
    } else {
        g1
    };
    let c2 = pcg_step(c1.1, inc);
    let g3 = if c2.0 < 0x8000_0000 {
        stamp(
            stamp(g2, left + 2, left + 9, top, top + 1, Tile::EMPTY),
            left + 2,
            left + 9,
            top + 10,
            top + 11,
            Tile::EMPTY,
        )
    } else {
        g2
    };
    (g3, c2.1, Pos { x: (left + 5) as u32, y: (top + 5) as u32 })
}

/// `n` rooms carved in sequence; yields the centers in carving order.
pub open spec fn carve_rooms(g: Seq<Tile>, st: u64, inc: u64, n: nat) -> (Seq<Tile>, u64, Seq<Pos>)
    decreases n,
{
    if n == 0 {
        (g, st, Seq::empty())
    } else {
        let r = carve_room(g, st, inc);
        let rest = carve_rooms(r.0, r.1, inc, (n - 1) as nat);
        (rest.0, rest.1, seq![r.2] + rest.2)
    }
}

/// Every room center marked with a Border tile.
pub open spec fn stamp_centers(g: Seq<Tile>, cs: Seq<Pos>) -> Seq<Tile>
    decreases cs.len(),
{
    if cs.len() == 0 {
        g
    } else {
        stamp_centers(
            stamp(g, cs[0].x as int, cs[0].x + 1, cs[0].y as int, cs[0].y + 1, Tile::BORDER),
            cs.skip(1),
        )
    }
}

/// An axis-aligned L-shaped corridor of Empty tiles: a horizontal run at
/// `a`'s row over to `b`'s column, then a vertical run at `b`'s column over
/// to `a`'s row, endpoints inclusive.
pub open spec fn carve_corridor(g: Seq<Tile>, a: Pos, b: Pos) -> Seq<Tile> {
    let g1 = if a.x < b.x {
        stamp(g, a.x as int, b.x + 1, a.y as int, a.y + 1, Tile::EMPTY)
    } else {
        stamp(g, b.x as int, a.x + 1, a.y as int, a.y + 1, Tile::EMPTY)
    };
    if a.y < b.y {
        stamp(g1, b.x as int, b.x + 1, a.y as int, b.y + 1, Tile::EMPTY)
    } else {
        stamp(g1, b.x as int, b.x + 1, b.y as int, a.y + 1, Tile::EMPTY)
    }
}

/// Corridors from room `i` to each room `j`, `j` counting up from `i + 1`,
/// each carved on a coin flip.
pub open spec fn corridors_row(g: Seq<Tile>, st: u64, inc: u64, cs: Seq<Pos>, i: int, j: int) -> (
    Seq<Tile>,
    u64,
)
    decreases cs.len() - j,
{
    if j < 0 || j >= cs.len() || i < 0 || i >= cs.len() {
        (g, st)
    } else {
        let c = pcg_step(st, inc);
        let g2 = if c.0 < 0x8000_0000 {
            carve_corridor(g, cs[i], cs[j])
        } else {
            g
        };
        corridors_row(g2, c.1, inc, cs, i, j + 1)
    }
}

/// Corridors over every unordered pair of rooms.
pub open spec fn corridors_all(g: Seq<Tile>, st: u64, inc: u64, cs: Seq<Pos>, i: int) -> (
    Seq<Tile>,
    u64,
)
    decreases cs.len() - i,
{
    if i < 0 || i >= cs.len() {
        (g, st)
    } else {
        let r = corridors_row(g, st, inc, cs, i, i + 1);
        corridors_all(r.0, r.1, inc, cs, i + 1)
    }
}

/// One diamond at a drawn interior position.  A non-Empty cell is carved
/// out first: the whole 3 x 3 block around it when it is fully enclosed by
/// non-Empty neighbours, the single cell otherwise.
pub open spec fn place_diamond(g: Seq<Tile>, st: u64, inc: u64) -> (Seq<Tile>, u64, Pos) {
    let dx = range_draw(st, inc, 2, 35);
    let dy = range_draw(dx.1, inc, 2, 35);
    let x = dx.0 as int;
    let y = dy.0 as int;
    let g2 = if cell(g, x, y) != Tile::EMPTY {
        if cell(g, x, y - 1) != Tile::EMPTY && cell(g, x - 1, y) != Tile::EMPTY && cell(
            g,
            x,
            y + 1,
        ) != Tile::EMPTY && cell(g, x + 1, y) != Tile::EMPTY {
            stamp(g, x - 1, x + 2, y - 1, y + 2, Tile::EMPTY)
        } else {
            stamp(g, x, x + 1, y, y + 1, Tile::EMPTY)
        }
    } else {
        g
    };
    (g2, dy.1, Pos { x: dx.0, y: dy.0 })
}

/// `n` diamonds placed in sequence; yields their positions in placing order.
pub open spec fn place_diamonds(g: Seq<Tile>, st: u64, inc: u64, n: nat) -> (
    Seq<Tile>,
    u64,
    Seq<Pos>,
)
    decreases n,
{
    if n == 0 {
        (g, st, Seq::empty())
    } else {
        let d = place_diamond(g, st, inc);
        let rest = place_diamonds(d.0, d.1, inc, (n - 1) as nat);
        (rest.0, rest.1, seq![d.2] + rest.2)
    }
}

/// Squared Euclidean distance from a room center to the exit cell.
pub open spec fn exit_dist2(c: Pos) -> int {
    (c.x - 18) * (c.x - 18) + (c.y - 18) * (c.y - 18)
}

/// The index of the first room center nearest to the exit, scanning from
/// `i` with `best` the nearest seen so far.
pub open spec fn nearest_from(cs: Seq<Pos>, i: int, best: int) -> int
    decreases cs.len() - i,
{
    if i < 0 || i >= cs.len() {
        best
    } else if 0 <= best < cs.len() && exit_dist2(cs[i]) < exit_dist2(cs[best]) {
        nearest_from(cs, i + 1, i)
    } else {
        nearest_from(cs, i + 1, best)
    }
}

pub open spec fn nearest_center(cs: Seq<Pos>) -> int {
    nearest_from(cs, 1, 0)
}

/// The exit area: when the exit cell is not yet Empty, a corridor from the
/// nearest room center first; then a 3 x 3 Empty block and the Exit stamp.
pub open spec fn exit_grid(g: Seq<Tile>, cs: Seq<Pos>) -> Seq<Tile> {
    let g1 = if cell(g, 18, 18) != Tile::EMPTY {
        carve_corridor(g, cs[nearest_center(cs)], Pos { x: 18, y: 18 })
    } else {
        g
    };
    let g2 = stamp(g1, 17, 20, 17, 20, Tile::EMPTY);
    stamp(g2, 18, 19, 18, 19, Tile::EXIT)
}

/// The player's spawn: drawn interior cells rejected until one is Empty,
/// with a bounded number of tries and the cell next to the exit — always
/// Empty by then — as the deterministic fallback.
pub open spec fn pick_spawn(g: Seq<Tile>, st: u64, inc: u64, fuel: nat) -> (Pos, u64)
    decreases fuel,
{
    if fuel == 0 {
        (Pos { x: 17, y: 17 }, st)
    } else {
        let dx = range_draw(st, inc, 4, 33);
        let dy = range_draw(dx.1, inc, 4, 33);
        if cell(g, dx.0 as int, dy.0 as int) == Tile::EMPTY {
            (Pos { x: dx.0, y: dy.0 }, dy.1)
        } else {
            pick_spawn(g, dy.1, inc, (fuel - 1) as nat)
        }
    }
}

/// The whole generated world — terrain, spawn, diamonds — as a function of
/// the seed alone.
pub open spec fn gen_result(seed: u32) -> (Seq<Tile>, Pos, Seq<Pos>) {
    let s0 = pcg_seeded(seed);
    let inc = s0.1;
    let dn = range_draw(s0.0, inc, 10, 40);
    let a = scatter_stones(initial_grid(), dn.1, inc, dn.0 as nat);
    let dr = range_draw(a.1, inc, 4, 7);
    let b = carve_rooms(a.0, dr.1, inc, dr.0 as nat);
    let gc = stamp_centers(b.0, b.2);
    let d = corridors_all(gc, b.1, inc, b.2, 0);
    let e = place_diamonds(d.0, d.1, inc, 10);
    let gf = exit_grid(e.0, b.2);
    let sp = pick_spawn(gf, e.1, inc, 1369);
    (gf, sp.0, e.2)
}

// ---------------------------------------------------------------------------
// What the pipeline guarantees, phase by phase.

/// `b` agrees with `a` on every ring cell.
pub open spec fn ring_same(a: Seq<Tile>, b: Seq<Tile>) -> bool {
    forall|x: int, y: int|
        in_grid(x, y) && on_ring(x, y) ==> #[trigger] cell(b, x, y) == cell(a, x, y)
}

/// The blank dungeon's ring is entirely Border.
pub proof fn lemma_initial_grid()
    ensures
        initial_grid().len() == 1369,
        forall|x: int, y: int|
            in_grid(x, y) && on_ring(x, y) ==> #[trigger] cell(initial_grid(), x, y)
                == Tile::BORDER,
{
    assert forall|x: int, y: int| in_grid(x, y) && on_ring(x, y) implies #[trigger] cell(
        initial_grid(),
        x,
        y,
    ) == Tile::BORDER by {
        crate::map::lemma_idx(x, y);
    }
}

pub proof fn lemma_scatter_stones(g: Seq<Tile>, st: u64, inc: u64, n: nat)
    requires
        g.len() == 1369,
    ensures
        scatter_stones(g, st, inc, n).0.len() == 1369,
        ring_same(g, scatter_stones(g, st, inc, n).0),
    decreases n,
{
    if n != 0 {
        let dx = range_draw(st, inc, 2, 35);
        let dy = range_draw(dx.1, inc, 2, 35);
        let g2 = stamp(g, dx.0 as int, dx.0 + 1, dy.0 as int, dy.0 + 1, Tile::STONE);
        crate::map::lemma_stamp_interior(g, dx.0 as int, dx.0 + 1, dy.0 as int, dy.0 + 1, Tile::STONE);
        lemma_scatter_stones(g2, dy.1, inc, (n - 1) as nat);
    }
}

pub proof fn lemma_carve_room(g: Seq<Tile>, st: u64, inc: u64)
    requires
        g.len() == 1369,
    ensures
        carve_room(g, st, inc).0.len() == 1369,
        ring_same(g, carve_room(g, st, inc).0),
        7 <= carve_room(g, st, inc).2.x <= 29,
        7 <= carve_room(g, st, inc).2.y <= 29,
{
    let dt = range_draw(st, inc, 2, 25);
    let dl = range_draw(dt.1, inc, 2, 25);
    let top = dt.0 as int;
    let left = dl.0 as int;
    let g1 = stamp(g, left + 1, left + 10, top + 1, top + 10, Tile::EMPTY);
    crate::map::lemma_stamp_interior(g, left + 1, left + 10, top + 1, top + 10, Tile::EMPTY);
    let c1 = pcg_step(dl.1, inc);
    let g1a = stamp(g1, left, left + 1, top + 2, top + 9, Tile::EMPTY);
    crate::map::lemma_stamp_interior(g1, left, left + 1, top + 2, top + 9, Tile::EMPTY);
    crate::map::lemma_stamp_interior(g1a, left + 10, left + 11, top + 2, top + 9, Tile::EMPTY);
    let g2 = if c1.0 < 0x8000_0000 {
        stamp(g1a, left + 10, left + 11, top + 2, top + 9, Tile::EMPTY)
    } else {
        g1
    };
    let g2a = stamp(g2, left + 2, left + 9, top, top + 1, Tile::EMPTY);
    crate::map::lemma_stamp_interior(g2, left + 2, left + 9, top, top + 1, Tile::EMPTY);
    crate::map::lemma_stamp_interior(g2a, left + 2, left + 9, top + 10, top + 11, Tile::EMPTY);
}

pub proof fn lemma_carve_rooms(g: Seq<Tile>, st: u64, inc: u64, n: nat)
    requires
        g.len() == 1369,
    ensures
        carve_rooms(g, st, inc, n).0.len() == 1369,
        ring_same(g, carve_rooms(g, st, inc, n).0),
        carve_rooms(g, st, inc, n).2.len() == n,
        forall|k: int|
            0 <= k < n ==> 7 <= #[trigger] carve_rooms(g, st, inc, n).2[k].x <= 29 && 7
                <= carve_rooms(g, st, inc, n).2[k].y <= 29,
    decreases n,
{
    if n != 0 {
        let r = carve_room(g, st, inc);
        lemma_carve_room(g, st, inc);
        lemma_carve_rooms(r.0, r.1, inc, (n - 1) as nat);
        let rest = carve_rooms(r.0, r.1, inc, (n - 1) as nat);
        assert forall|k: int| 0 <= k < n implies 7 <= #[trigger] carve_rooms(
            g,
            st,
            inc,
            n,
        ).2[k].x <= 29 && 7 <= carve_rooms(g, st, inc, n).2[k].y <= 29 by {
            if k > 0 {
                assert(carve_rooms(g, st, inc, n).2[k] == rest.2[k - 1]);
            }
        }
    }
}

pub proof fn lemma_stamp_centers(g: Seq<Tile>, cs: Seq<Pos>)
    requires
        g.len() == 1369,
        forall|k: int|
            0 <= k < cs.len() ==> 1 <= #[trigger] cs[k].x <= 35 && 1 <= cs[k].y <= 35,
    ensures
        stamp_centers(g, cs).len() == 1369,
        ring_same(g, stamp_centers(g, cs)),
    decreases cs.len(),
{
    if cs.len() != 0 {
        let g2 = stamp(g, cs[0].x as int, cs[0].x + 1, cs[0].y as int, cs[0].y + 1, Tile::BORDER);
        crate::map::lemma_stamp_interior(
            g,
            cs[0].x as int,
            cs[0].x + 1,
            cs[0].y as int,
            cs[0].y + 1,
            Tile::BORDER,
        );
        assert forall|k: int| 0 <= k < cs.skip(1).len() implies 1 <= #[trigger] cs.skip(
            1,
        )[k].x <= 35 && 1 <= cs.skip(1)[k].y <= 35 by {
            assert(cs.skip(1)[k] == cs[k + 1]);
        }
        lemma_stamp_centers(g2, cs.skip(1));
    }
}

pub proof fn lemma_carve_corridor(g: Seq<Tile>, a: Pos, b: Pos)
    requires
        g.len() == 1369,
        1 <= a.x <= 35,
        1 <= a.y <= 35,
        1 <= b.x <= 35,
        1 <= b.y <= 35,
    ensures
        carve_corridor(g, a, b).len() == 1369,
        ring_same(g, carve_corridor(g, a, b)),
{
    let g1 = if a.x < b.x {
        stamp(g, a.x as int, b.x + 1, a.y as int, a.y + 1, Tile::EMPTY)
    } else {
        stamp(g, b.x as int, a.x + 1, a.y as int, a.y + 1, Tile::EMPTY)
    };
    if a.x < b.x {
        crate::map::lemma_stamp_interior(g, a.x as int, b.x + 1, a.y as int, a.y + 1, Tile::EMPTY);
    } else {
        crate::map::lemma_stamp_interior(g, b.x as int, a.x + 1, a.y as int, a.y + 1, Tile::EMPTY);
    }
    if a.y < b.y {
        crate::map::lemma_stamp_interior(g1, b.x as int, b.x + 1, a.y as int, b.y + 1, Tile::EMPTY);
    } else {
        crate::map::lemma_stamp_interior(g1, b.x as int, b.x + 1, b.y as int, a.y + 1, Tile::EMPTY);
    }
}

pub proof fn lemma_corridors_row(g: Seq<Tile>, st: u64, inc: u64, cs: Seq<Pos>, i: int, j: int)
    requires
        g.len() == 1369,
        forall|k: int|
            0 <= k < cs.len() ==> 1 <= #[trigger] cs[k].x <= 35 && 1 <= cs[k].y <= 35,
    ensures
        corridors_row(g, st, inc, cs, i, j).0.len() == 1369,
        ring_same(g, corridors_row(g, st, inc, cs, i, j).0),
    decreases cs.len() - j,
{
    if !(j < 0 || j >= cs.len() || i < 0 || i >= cs.len()) {
        let c = pcg_step(st, inc);
        let g2 = if c.0 < 0x8000_0000 {
            carve_corridor(g, cs[i], cs[j])
        } else {
            g
        };
        if c.0 < 0x8000_0000 {
            lemma_carve_corridor(g, cs[i], cs[j]);
        }
        lemma_corridors_row(g2, c.1, inc, cs, i, j + 1);
    }
}

pub proof fn lemma_corridors_all(g: Seq<Tile>, st: u64, inc: u64, cs: Seq<Pos>, i: int)
    requires
        g.len() == 1369,
        forall|k: int|
            0 <= k < cs.len() ==> 1 <= #[trigger] cs[k].x <= 35 && 1 <= cs[k].y <= 35,
    ensures
        corridors_all(g, st, inc, cs, i).0.len() == 1369,
        ring_same(g, corridors_all(g, st, inc, cs, i).0),
    decreases cs.len() - i,
{
    if !(i < 0 || i >= cs.len()) {
        let r = corridors_row(g, st, inc, cs, i, i + 1);
        lemma_corridors_row(g, st, inc, cs, i, i + 1);
        lemma_corridors_all(r.0, r.1, inc, cs, i + 1);
    }
}

pub proof fn lemma_place_diamond(g: Seq<Tile>, st: u64, inc: u64)
    requires
        g.len() == 1369,
    ensures
        place_diamond(g, st, inc).0.len() == 1369,
        ring_same(g, place_diamond(g, st, inc).0),
        2 <= place_diamond(g, st, inc).2.x < 35,
        2 <= place_diamond(g, st, inc).2.y < 35,
        cell(
            place_diamond(g, st, inc).0,
            place_diamond(g, st, inc).2.x as int,
            place_diamond(g, st, inc).2.y as int,
        ) == Tile::EMPTY,
        forall|x: int, y: int|
            in_grid(x, y) && cell(g, x, y) == Tile::EMPTY ==> #[trigger] cell(
                place_diamond(g, st, inc).0,
                x,
                y,
            ) == Tile::EMPTY,
{
    let dx = range_draw(st, inc, 2, 35);
    let dy = range_draw(dx.1, inc, 2, 35);
    let x = dx.0 as int;
    let y = dy.0 as int;
    let r = place_diamond(g, st, inc);
    crate::map::lemma_stamp_interior(g, x - 1, x + 2, y - 1, y + 2, Tile::EMPTY);
    crate::map::lemma_stamp_interior(g, x, x + 1, y, y + 1, Tile::EMPTY);
    crate::map::lemma_stamp_cell(g, x - 1, x + 2, y - 1, y + 2, Tile::EMPTY, x, y);
    crate::map::lemma_stamp_cell(g, x, x + 1, y, y + 1, Tile::EMPTY, x, y);
    assert forall|x2: int, y2: int| in_grid(x2, y2) && cell(g, x2, y2) == Tile::EMPTY implies
        #[trigger] cell(r.0, x2, y2) == Tile::EMPTY by {
        crate::map::lemma_stamp_cell(g, x - 1, x + 2, y - 1, y + 2, Tile::EMPTY, x2, y2);
        crate::map::lemma_stamp_cell(g, x, x + 1, y, y + 1, Tile::EMPTY, x2, y2);
    }
}

pub proof fn lemma_place_diamonds(g: Seq<Tile>, st: u64, inc: u64, n: nat)
    requires
        g.len() == 1369,
    ensures
        place_diamonds(g, st, inc, n).0.len() == 1369,
        ring_same(g, place_diamonds(g, st, inc, n).0),
        place_diamonds(g, st, inc, n).2.len() == n,
        forall|k: int|
            0 <= k < n ==> 2 <= #[trigger] place_diamonds(g, st, inc, n).2[k].x < 35 && 2
                <= place_diamonds(g, st, inc, n).2[k].y < 35,
        forall|k: int|
            0 <= k < n ==> #[trigger] cell(
                place_diamonds(g, st, inc, n).0,
                place_diamonds(g, st, inc, n).2[k].x as int,
                place_diamonds(g, st, inc, n).2[k].y as int,
            ) == Tile::EMPTY,
        forall|x: int, y: int|
            in_grid(x, y) && cell(g, x, y) == Tile::EMPTY ==> #[trigger] cell(
                place_diamonds(g, st, inc, n).0,
                x,
                y,
            ) == Tile::EMPTY,
    decreases n,
{
    if n != 0 {
        let d = place_diamond(g, st, inc);
        lemma_place_diamond(g, st, inc);
        lemma_place_diamonds(d.0, d.1, inc, (n - 1) as nat);
        let rest = place_diamonds(d.0, d.1, inc, (n - 1) as nat);
        let all = place_diamonds(g, st, inc, n);
        assert forall|k: int| 0 <= k < n implies 2 <= #[trigger] all.2[k].x < 35 && 2
            <= all.2[k].y < 35 by {
            if k > 0 {
                assert(all.2[k] == rest.2[k - 1]);
            }
        }
        assert forall|k: int| 0 <= k < n implies #[trigger] cell(
            all.0,
            all.2[k].x as int,
            all.2[k].y as int,
        ) == Tile::EMPTY by {
            if k == 0 {
                assert(all.2[0] == d.2);
                assert(in_grid(d.2.x as int, d.2.y as int));
            } else {
                assert(all.2[k] == rest.2[k - 1]);
            }
        }
    }
}

/// The nearest-room scan stays within the list.
pub proof fn lemma_nearest_from(cs: Seq<Pos>, i: int, best: int)
    requires
        0 <= best < cs.len(),
    ensures
        0 <= nearest_from(cs, i, best) < cs.len(),
    decreases cs.len() - i,
{
    if !(i < 0 || i >= cs.len()) {
        if exit_dist2(cs[i]) < exit_dist2(cs[best]) {
            lemma_nearest_from(cs, i + 1, i);
        } else {
            lemma_nearest_from(cs, i + 1, best);
        }
    }
}

pub proof fn lemma_exit_grid(g: Seq<Tile>, cs: Seq<Pos>)
    requires
        g.len() == 1369,
        cs.len() > 0,
        forall|k: int|
            0 <= k < cs.len() ==> 1 <= #[trigger] cs[k].x <= 35 && 1 <= cs[k].y <= 35,
    ensures
        exit_grid(g, cs).len() == 1369,
        ring_same(g, exit_grid(g, cs)),
        cell(exit_grid(g, cs), 18, 18) == Tile::EXIT,
        cell(exit_grid(g, cs), 17, 17) == Tile::EMPTY,
        forall|x: int, y: int|
            in_grid(x, y) && cell(g, x, y) == Tile::EMPTY && !(x == 18 && y == 18) ==> #[trigger] cell(
                exit_grid(g, cs),
                x,
                y,
            ) == Tile::EMPTY,
{
    let nearest = nearest_center(cs);
    let g1 = if cell(g, 18, 18) != Tile::EMPTY {
        carve_corridor(g, cs[nearest], Pos { x: 18, y: 18 })
    } else {
        g
    };
    if cell(g, 18, 18) != Tile::EMPTY {
        lemma_nearest_from(cs, 1, 0);
        lemma_carve_corridor(g, cs[nearest], Pos { x: 18, y: 18 });
    }
    let g2 = stamp(g1, 17, 20, 17, 20, Tile::EMPTY);
    crate::map::lemma_stamp_interior(g1, 17, 20, 17, 20, Tile::EMPTY);
    crate::map::lemma_stamp_interior(g2, 18, 19, 18, 19, Tile::EXIT);
    crate::map::lemma_stamp_cell(g2, 18, 19, 18, 19, Tile::EXIT, 18, 18);
    crate::map::lemma_stamp_cell(g1, 17, 20, 17, 20, Tile::EMPTY, 17, 17);
    crate::map::lemma_stamp_cell(g2, 18, 19, 18, 19, Tile::EXIT, 17, 17);
    assert forall|x: int, y: int|
        in_grid(x, y) && cell(g, x, y) == Tile::EMPTY && !(x == 18 && y == 18) implies #[trigger] cell(
        exit_grid(g, cs),
        x,
        y,
    ) == Tile::EMPTY by {
        if cell(g, 18, 18) != Tile::EMPTY {
            let a = cs[nearest];
            let b = Pos { x: 18u32, y: 18u32 };
            if a.x < b.x {
                crate::map::lemma_stamp_cell(g, a.x as int, b.x + 1, a.y as int, a.y + 1, Tile::EMPTY, x, y);
            } else {
                crate::map::lemma_stamp_cell(g, b.x as int, a.x + 1, a.y as int, a.y + 1, Tile::EMPTY, x, y);
            }
            let gmid = if a.x < b.x {
                stamp(g, a.x as int, b.x + 1, a.y as int, a.y + 1, Tile::EMPTY)
            } else {
                stamp(g, b.x as int, a.x + 1, a.y as int, a.y + 1, Tile::EMPTY)
            };
            if a.y < b.y {
                crate::map::lemma_stamp_cell(gmid, b.x as int, b.x + 1, a.y as int, b.y + 1, Tile::EMPTY, x, y);
            } else {
                crate::map::lemma_stamp_cell(gmid, b.x as int, b.x + 1, b.y as int, a.y + 1, Tile::EMPTY, x, y);
            }
        }
        crate::map::lemma_stamp_cell(g1, 17, 20, 17, 20, Tile::EMPTY, x, y);
        crate::map::lemma_stamp_cell(g2, 18, 19, 18, 19, Tile::EXIT, x, y);
    }
}

pub proof fn lemma_pick_spawn(g: Seq<Tile>, st: u64, inc: u64, fuel: nat)
    requires
        g.len() == 1369,
        cell(g, 17, 17) == Tile::EMPTY,
    ensures
        in_grid(pick_spawn(g, st, inc, fuel).0.x as int, pick_spawn(g, st, inc, fuel).0.y as int),
        cell(
            g,
            pick_spawn(g, st, inc, fuel).0.x as int,
            pick_spawn(g, st, inc, fuel).0.y as int,
        ) == Tile::EMPTY,
    decreases fuel,
{
    if fuel != 0 {
        let dx = range_draw(st, inc, 4, 33);
        let dy = range_draw(dx.1, inc, 4, 33);
        if cell(g, dx.0 as int, dy.0 as int) != Tile::EMPTY {
            lemma_pick_spawn(g, dy.1, inc, (fuel - 1) as nat);
        }
    }
}

/// Everything the generated world guarantees, stated of the specification
/// pipeline: a full terrain, a Border ring, the Exit at (18, 18), an Empty
/// spawn cell, and ten diamonds on interior Empty-or-Exit cells.
pub proof fn lemma_gen_result(seed: u32)
    ensures
        gen_result(seed).0.len() == 1369,
        forall|x: int, y: int|
            in_grid(x, y) && on_ring(x, y) ==> #[trigger] cell(gen_result(seed).0, x, y)
                == Tile::BORDER,
        cell(gen_result(seed).0, 18, 18) == Tile::EXIT,
        in_grid(gen_result(seed).1.x as int, gen_result(seed).1.y as int),
        cell(gen_result(seed).0, gen_result(seed).1.x as int, gen_result(seed).1.y as int)
            == Tile::EMPTY,
        gen_result(seed).2.len() == 10,
        forall|k: int|
            0 <= k < 10 ==> 2 <= #[trigger] gen_result(seed).2[k].x < 35 && 2 <= gen_result(
                seed,
            ).2[k].y < 35,
        forall|k: int|
            0 <= k < 10 ==> #[trigger] cell(
                gen_result(seed).0,
                gen_result(seed).2[k].x as int,
                gen_result(seed).2[k].y as int,
            ) == Tile::EMPTY || cell(
                gen_result(seed).0,
                gen_result(seed).2[k].x as int,
                gen_result(seed).2[k].y as int,
            ) == Tile::EXIT,
{
    let s0 = pcg_seeded(seed);
    let inc = s0.1;
    let dn = range_draw(s0.0, inc, 10, 40);
    let a = scatter_stones(initial_grid(), dn.1, inc, dn.0 as nat);
    let dr = range_draw(a.1, inc, 4, 7);
    let b = carve_rooms(a.0, dr.1, inc, dr.0 as nat);
    let gc = stamp_centers(b.0, b.2);
    let d = corridors_all(gc, b.1, inc, b.2, 0);
    let e = place_diamonds(d.0, d.1, inc, 10);
    let gf = exit_grid(e.0, b.2);
    let sp = pick_spawn(gf, e.1, inc, 1369);

    lemma_initial_grid();
    lemma_scatter_stones(initial_grid(), dn.1, inc, dn.0 as nat);
    lemma_carve_rooms(a.0, dr.1, inc, dr.0 as nat);
    assert forall|k: int| 0 <= k < b.2.len() implies 1 <= #[trigger] b.2[k].x <= 35 && 1
        <= b.2[k].y <= 35 by {}
    lemma_stamp_centers(b.0, b.2);
    lemma_corridors_all(gc, b.1, inc, b.2, 0);
    lemma_place_diamonds(d.0, d.1, inc, 10);
    assert(dr.0 >= 4);
    lemma_exit_grid(e.0, b.2);
    lemma_pick_spawn(gf, e.1, inc, 1369);

    assert forall|k: int| 0 <= k < 10 implies #[trigger] cell(
        gf,
        e.2[k].x as int,
        e.2[k].y as int,
    ) == Tile::EMPTY || cell(gf, e.2[k].x as int, e.2[k].y as int) == Tile::EXIT by {
        assert(cell(e.0, e.2[k].x as int, e.2[k].y as int) == Tile::EMPTY);
        if !(e.2[k].x == 18 && e.2[k].y == 18) {
        } else {
            assert(cell(gf, 18, 18) == Tile::EXIT);
        }
    }
}

/// Determinism: two worlds generated from the same seed are identical, down
/// to the byte-for-byte wire representation.  `GameMap::generate` ensures
/// that its result equals `gen_result(seed)`, so this applies to any two of
/// its results for one seed.
pub proof fn lemma_generate_deterministic(seed: u32, m1: GameMap, m2: GameMap)
    requires
        m1.tiles@ == gen_result(seed).0,
        m1.player == gen_result(seed).1,
        m1.diamonds@ == gen_result(seed).2,
        m2.tiles@ == gen_result(seed).0,
        m2.player == gen_result(seed).1,
        m2.diamonds@ == gen_result(seed).2,
    ensures
        m1.tiles@ == m2.tiles@,
        m1.player == m2.player,
        m1.diamonds@ == m2.diamonds@,
        m1.spec_repr() == m2.spec_repr(),
{
    assert(m1.spec_repr() =~= m2.spec_repr());
}

// ---------------------------------------------------------------------------
// The executable generator, pinned to the pipeline above.

/// Builds the blank dungeon.
fn initial_tiles() -> (r: Vec<Tile>)
    ensures
        r@ == initial_grid(),
{
    let mut out: Vec<Tile> = Vec::new();
    let mut i: usize = 0;
    while i < 1369
        invariant
            i <= 1369,
            out@.len() == i,
            forall|j: int| 0 <= j < i ==> out@[j] == initial_grid()[j],
        decreases 1369 - i,
    {
        let x = i % 37;
        let y = i / 37;
        if x == 0 || x == 36 || y == 0 || y == 36 {
            out.push(Tile::BORDER);
        } else {
            out.push(Tile::WALL);
        }
        i = i + 1;
    }
    proof {
        assert(out@ =~= initial_grid());
    }
    out
}

/// Carves an L-shaped corridor between `a` and `b`.
fn carve_corridor_exec(tiles: &mut Vec<Tile>, a: Pos, b: Pos)
    requires
        old(tiles)@.len() == 1369,
        1 <= a.x <= 35,
        1 <= a.y <= 35,
        1 <= b.x <= 35,
        1 <= b.y <= 35,
    ensures
        final(tiles)@ == carve_corridor(old(tiles)@, a, b),
{
    if a.x < b.x {
        crate::map::fill_rect(tiles, a.x, b.x + 1, a.y, a.y + 1, Tile::EMPTY);
    } else {
        crate::map::fill_rect(tiles, b.x, a.x + 1, a.y, a.y + 1, Tile::EMPTY);
    }
    if a.y < b.y {
        crate::map::fill_rect(tiles, b.x, b.x + 1, a.y, b.y + 1, Tile::EMPTY);
    } else {
        crate::map::fill_rect(tiles, b.x, b.x + 1, b.y, a.y + 1, Tile::EMPTY);
    }
}

/// Squared distance to the exit cell, for picking the nearest room.
fn exit_dist2_exec(c: Pos) -> (r: u64)
    requires
        c.x < 37,
        c.y < 37,
    ensures
        r as int == exit_dist2(c),
{
    let dx: i64 = c.x as i64 - 18;
    let dy: i64 = c.y as i64 - 18;
    proof {
        assert(0 <= dx * dx <= 324 && 0 <= dy * dy <= 324) by (nonlinear_arith)
            requires
                -18 <= dx <= 18 && -18 <= dy <= 18,
        ;
    }
    (dx * dx + dy * dy) as u64
}

impl GameMap {
    /// Generates the dungeon for a seed: terrain, diamonds and spawn.  The
    /// result is a function of the seed alone, and the world it returns is
    /// well formed: the ring is all Border, the Exit sits at (18, 18), the
    /// player spawns on an Empty cell, and exactly ten diamonds lie on
    /// interior cells.
    pub fn generate(seed: u32) -> (r: GameMap)
        ensures
            r.tiles@ == gen_result(seed).0,
            r.player == gen_result(seed).1,
            r.diamonds@ == gen_result(seed).2,
            r.wf(),
            r.tiles@.len() == 1369,
            forall|x: int, y: int|
                in_grid(x, y) && on_ring(x, y) ==> #[trigger] cell(r.tiles@, x, y) == Tile::BORDER,
            cell(r.tiles@, 18, 18) == Tile::EXIT,
            cell(r.tiles@, r.player.x as int, r.player.y as int) == Tile::EMPTY,
            r.diamonds@.len() == 10,
    {
        let mut rng = Rng::seeded(seed);
        let ghost inc = rng.inc;
        let mut tiles = initial_tiles();

        // Stones.
        let stones = rng.next_in_range(10, 40);
        let ghost g_st = tiles@;
        let ghost s_st = rng.state;
        let mut k: u32 = 0;
        while k < stones
            invariant
                rng.inc == inc,
                inc % 2 == 1,
                tiles@.len() == 1369,
                k <= stones,
                scatter_stones(g_st, s_st, inc, stones as nat) == scatter_stones(
                    tiles@,
                    rng.state,
                    inc,
                    (stones - k) as nat,
                ),
            decreases stones - k,
        {
            let ghost g_prev = tiles@;
            let ghost s_prev = rng.state;
            let x = rng.next_in_range(2, 35);
            let y = rng.next_in_range(2, 35);
            crate::map::fill_rect(&mut tiles, x, x + 1, y, y + 1, Tile::STONE);
            proof {
                assert(scatter_stones(g_prev, s_prev, inc, (stones - k) as nat) == scatter_stones(
                    tiles@,
                    rng.state,
                    inc,
                    (stones - (k + 1)) as nat,
                ));
            }
            k = k + 1;
        }
        proof {
            assert(scatter_stones(g_st, s_st, inc, stones as nat) == (tiles@, rng.state));
        }

        // Rooms.
        let room_count = rng.next_in_range(4, 7);
        let ghost g_rm = tiles@;
        let ghost s_rm = rng.state;
        let mut centers: Vec<Pos> = Vec::new();
        let mut k2: u32 = 0;
        while k2 < room_count
            invariant
                rng.inc == inc,
                inc % 2 == 1,
                tiles@.len() == 1369,
                k2 <= room_count,
                centers@.len() == k2,
                forall|j: int|
                    0 <= j < k2 ==> 7 <= #[trigger] centers@[j].x <= 29 && 7 <= centers@[j].y
                        <= 29,
                carve_rooms(g_rm, s_rm, inc, room_count as nat).0 == carve_rooms(
                    tiles@,
                    rng.state,
                    inc,
                    (room_count - k2) as nat,
                ).0,
                carve_rooms(g_rm, s_rm, inc, room_count as nat).1 == carve_rooms(
                    tiles@,
                    rng.state,
                    inc,
                    (room_count - k2) as nat,
                ).1,
                carve_rooms(g_rm, s_rm, inc, room_count as nat).2 == centers@ + carve_rooms(
                    tiles@,
                    rng.state,
                    inc,
                    (room_count - k2) as nat,
                ).2,
            decreases room_count - k2,
        {
            let ghost g_prev = tiles@;
            let ghost s_prev = rng.state;
            let ghost cs_prev = centers@;
            let top = rng.next_in_range(2, 25);
            let left = rng.next_in_range(2, 25);
            centers.push(Pos::new(left + 5, top + 5));
            crate::map::fill_rect(&mut tiles, left + 1, left + 10, top + 1, top + 10, Tile::EMPTY);
            if rng.coin() {
                crate::map::fill_rect(&mut tiles, left, left + 1, top + 2, top + 9, Tile::EMPTY);
                crate::map::fill_rect(
                    &mut tiles,
                    left + 10,
                    left + 11,
                    top + 2,
                    top + 9,
                    Tile::EMPTY,
                );
            }
            if rng.coin() {
                crate::map::fill_rect(&mut tiles, left + 2, left + 9, top, top + 1, Tile::EMPTY);
                crate::map::fill_rect(
                    &mut tiles,
                    left + 2,
                    left + 9,
                    top + 10,
                    top + 11,
                    Tile::EMPTY,
                );
            }
            proof {
                let room = carve_room(g_prev, s_prev, inc);
                assert(room.0 == tiles@ && room.1 == rng.state && room.2 == centers@.last());
                let m = (room_count - k2) as nat;
                let rest = carve_rooms(tiles@, rng.state, inc, (m - 1) as nat);
                assert(carve_rooms(g_prev, s_prev, inc, m).2 == seq![room.2] + rest.2);
                assert(cs_prev + (seq![room.2] + rest.2) =~= centers@ + rest.2);
            }
            k2 = k2 + 1;
        }
        proof {
            assert(carve_rooms(g_rm, s_rm, inc, room_count as nat).0 == tiles@);
            assert(carve_rooms(g_rm, s_rm, inc, room_count as nat).1 == rng.state);
            assert(carve_rooms(g_rm, s_rm, inc, room_count as nat).2 =~= centers@);
        }

        // Room centers marked Border.
        let ghost g_mk = tiles@;
        proof {
            assert(centers@.skip(0) =~= centers@);
        }
        let mut k3: usize = 0;
        while k3 < centers.len()
            invariant
                tiles@.len() == 1369,
                k3 <= centers@.len(),
                forall|j: int|
                    0 <= j < centers@.len() ==> 7 <= #[trigger] centers@[j].x <= 29 && 7
                        <= centers@[j].y <= 29,
                stamp_centers(g_mk, centers@) == stamp_centers(
                    tiles@,
                    centers@.skip(k3 as int),
                ),
            decreases centers@.len() - k3,
        {
            let ghost g_prev = tiles@;
            let c = centers[k3];
            crate::map::fill_rect(&mut tiles, c.x, c.x + 1, c.y, c.y + 1, Tile::BORDER);
            proof {
                let rest = centers@.skip(k3 as int);
                assert(rest[0] == c);
                assert(rest.skip(1) =~= centers@.skip(k3 as int + 1));
                assert(stamp_centers(g_prev, rest) == stamp_centers(tiles@, rest.skip(1)));
            }
            k3 = k3 + 1;
        }
        proof {
            assert(centers@.skip(centers@.len() as int) =~= Seq::<Pos>::empty());
            assert(stamp_centers(g_mk, centers@) == tiles@);
        }

        // Corridors between room pairs.
        let ghost g_co = tiles@;
        let ghost s_co = rng.state;
        let ghost target = corridors_all(g_co, s_co, inc, centers@, 0);
        let mut i: usize = 0;
        while i < centers.len()
            invariant
                rng.inc == inc,
                inc % 2 == 1,
                tiles@.len() == 1369,
                i <= centers@.len(),
                forall|j: int|
                    0 <= j < centers@.len() ==> 7 <= #[trigger] centers@[j].x <= 29 && 7
                        <= centers@[j].y <= 29,
                corridors_all(tiles@, rng.state, inc, centers@, i as int) == target,
            decreases centers@.len() - i,
        {
            let mut j: usize = i + 1;
            proof {
                assert(corridors_all(tiles@, rng.state, inc, centers@, i as int) == ({
                    let r = corridors_row(tiles@, rng.state, inc, centers@, i as int, i as int + 1);
                    corridors_all(r.0, r.1, inc, centers@, i as int + 1)
                }));
            }
            let ghost g_row = tiles@;
            let ghost s_row = rng.state;
            while j < centers.len()
                invariant
                    rng.inc == inc,
                    inc % 2 == 1,
                    tiles@.len() == 1369,
                    i < centers@.len(),
                    i < j <= centers@.len(),
                    forall|jj: int|
                        0 <= jj < centers@.len() ==> 7 <= #[trigger] centers@[jj].x <= 29 && 7
                            <= centers@[jj].y <= 29,
                    corridors_row(g_row, s_row, inc, centers@, i as int, i as int + 1)
                        == corridors_row(tiles@, rng.state, inc, centers@, i as int, j as int),
                decreases centers@.len() - j,
            {
                let ghost g_prev = tiles@;
                let ghost s_prev = rng.state;
                if rng.coin() {
                    carve_corridor_exec(&mut tiles, centers[i], centers[j]);
                }
                proof {
                    assert(corridors_row(g_prev, s_prev, inc, centers@, i as int, j as int)
                        == corridors_row(tiles@, rng.state, inc, centers@, i as int, j as int + 1));
                }
                j = j + 1;
            }
            proof {
                assert(corridors_row(g_row, s_row, inc, centers@, i as int, i as int + 1) == (
                tiles@,
                rng.state,
                ));
                assert(corridors_all(tiles@, rng.state, inc, centers@, i as int + 1) == target);
            }
            i = i + 1;
        }
        proof {
            assert(corridors_all(tiles@, rng.state, inc, centers@, centers@.len() as int) == (
            tiles@,
            rng.state,
            ));
            assert(tiles@ == target.0 && rng.state == target.1);
        }

        // Diamonds.
        let ghost g_di = tiles@;
        let ghost s_di = rng.state;
        let mut diamonds: Vec<Pos> = Vec::new();
        let mut k4: u32 = 0;
        while k4 < 10
            invariant
                rng.inc == inc,
                inc % 2 == 1,
                tiles@.len() == 1369,
                k4 <= 10,
                diamonds@.len() == k4,
                place_diamonds(g_di, s_di, inc, 10).0 == place_diamonds(
                    tiles@,
                    rng.state,
                    inc,
                    (10 - k4) as nat,
                ).0,
                place_diamonds(g_di, s_di, inc, 10).1 == place_diamonds(
                    tiles@,
                    rng.state,
                    inc,
                    (10 - k4) as nat,
                ).1,
                place_diamonds(g_di, s_di, inc, 10).2 == diamonds@ + place_diamonds(
                    tiles@,
                    rng.state,
                    inc,
                    (10 - k4) as nat,
                ).2,
            decreases 10 - k4,
        {
            let ghost g_prev = tiles@;
            let ghost s_prev = rng.state;
            let ghost ds_prev = diamonds@;
            let x = rng.next_in_range(2, 35);
            let y = rng.next_in_range(2, 35);
            proof {
                lemma_idx(x as int, y as int);
                lemma_idx(x as int, y as int - 1);
                lemma_idx(x as int - 1, y as int);
                lemma_idx(x as int, y as int + 1);
                lemma_idx(x as int + 1, y as int);
            }
            if tiles[(y * 37 + x) as usize] != Tile::EMPTY {
                if tiles[((y - 1) * 37 + x) as usize] != Tile::EMPTY && tiles[(y * 37 + (x - 1))
                    as usize] != Tile::EMPTY && tiles[((y + 1) * 37 + x) as usize] != Tile::EMPTY
                    && tiles[(y * 37 + (x + 1)) as usize] != Tile::EMPTY {
                    crate::map::fill_rect(&mut tiles, x - 1, x + 2, y - 1, y + 2, Tile::EMPTY);
                } else {
                    crate::map::fill_rect(&mut tiles, x, x + 1, y, y + 1, Tile::EMPTY);
                }
            }
            diamonds.push(Pos::new(x, y));
            proof {
                let d = place_diamond(g_prev, s_prev, inc);
                assert(d.0 == tiles@ && d.1 == rng.state && d.2 == diamonds@.last());
                let m = (10 - k4) as nat;
                let rest = place_diamonds(tiles@, rng.state, inc, (m - 1) as nat);
                assert(place_diamonds(g_prev, s_prev, inc, m).2 == seq![d.2] + rest.2);
                assert(ds_prev + (seq![d.2] + rest.2) =~= diamonds@ + rest.2);
            }
            k4 = k4 + 1;
        }
        proof {
            assert(place_diamonds(g_di, s_di, inc, 10).0 == tiles@);
            assert(place_diamonds(g_di, s_di, inc, 10).1 == rng.state);
            assert(place_diamonds(g_di, s_di, inc, 10).2 =~= diamonds@);
        }

        // The exit area.
        let ghost g_ex = tiles@;
        proof {
            lemma_idx(18, 18);
        }
        if tiles[(18 * 37 + 18) as usize] != Tile::EMPTY {
            let mut best: usize = 0;
            let mut k5: usize = 1;
            while k5 < centers.len()
                invariant
                    best < centers@.len(),
                    k5 <= centers@.len(),
                    forall|j: int|
                        0 <= j < centers@.len() ==> 7 <= #[trigger] centers@[j].x <= 29 && 7
                            <= centers@[j].y <= 29,
                    nearest_from(centers@, k5 as int, best as int) == nearest_center(centers@),
                decreases centers@.len() - k5,
            {
                if exit_dist2_exec(centers[k5]) < exit_dist2_exec(centers[best]) {
                    best = k5;
                }
                k5 = k5 + 1;
            }
            carve_corridor_exec(&mut tiles, centers[best], Pos::new(18, 18));
        }
        crate::map::fill_rect(&mut tiles, 17, 20, 17, 20, Tile::EMPTY);
        crate::map::fill_rect(&mut tiles, 18, 19, 18, 19, Tile::EXIT);
        proof {
            assert(tiles@ == exit_grid(g_ex, centers@));
        }

        // The spawn.
        let ghost g_sp = tiles@;
        let ghost s_sp = rng.state;
        let mut fuel: u32 = 1369;
        let mut player = Pos::new(17, 17);
        let mut found = false;
        while !found && fuel > 0
            invariant
                rng.inc == inc,
                inc % 2 == 1,
                tiles@.len() == 1369,
                tiles@ == g_sp,
                fuel <= 1369,
                !found ==> player.x == 17 && player.y == 17,
                !found ==> pick_spawn(g_sp, s_sp, inc, 1369) == pick_spawn(
                    g_sp,
                    rng.state,
                    inc,
                    fuel as nat,
                ),
                found ==> pick_spawn(g_sp, s_sp, inc, 1369) == (player, rng.state),
            decreases fuel + (if found { 0int } else { 1int }),
        {
            let ghost s_prev = rng.state;
            let x = rng.next_in_range(4, 33);
            let y = rng.next_in_range(4, 33);
            proof {
                lemma_idx(x as int, y as int);
            }
            if tiles[(y * 37 + x) as usize] == Tile::EMPTY {
                player = Pos::new(x, y);
                found = true;
                proof {
                    assert(pick_spawn(g_sp, s_prev, inc, fuel as nat) == (player, rng.state));
                }
            } else {
                proof {
                    assert(pick_spawn(g_sp, s_prev, inc, fuel as nat) == pick_spawn(
                        g_sp,
                        rng.state,
                        inc,
                        (fuel - 1) as nat,
                    ));
                }
                fuel = fuel - 1;
            }
        }
        proof {
            if !found {
                assert(fuel == 0);
                assert(pick_spawn(g_sp, rng.state, inc, 0) == (
                    Pos { x: 17u32, y: 17u32 },
                    rng.state,
                ));
                assert(player.x == 17 && player.y == 17);
                assert(player == (Pos { x: 17u32, y: 17u32 }));
                assert(pick_spawn(g_sp, s_sp, inc, 1369) == pick_spawn(
                    g_sp,
                    rng.state,
                    inc,
                    fuel as nat,
                ));
            }
            assert(pick_spawn(g_sp, s_sp, inc, 1369).0 == player);
            lemma_gen_result(seed);
            assert(gen_result(seed).0 == tiles@);
            assert(gen_result(seed).1 == player);
            assert(gen_result(seed).2 == diamonds@);
        }
        GameMap { tiles, player, diamonds }
    }
}

} // verus!
