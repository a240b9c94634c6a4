use vstd::prelude::*;

use crate::pos::{Direction, Pos};

verus! {

/// The terrain classification of one grid cell.
#[derive(Debug, PartialEq, Eq, Copy, Clone, Structural)]
pub enum Tile {
    EMPTY,
    WALL,
    STONE,
    BORDER,
    EXIT,
}

// The dungeon is a dense 37 x 37 grid.  The terrain is held row-major in a
// single vector: the cell (x, y) lives at index y * 37 + x.

/// Row-major index of the cell (x, y).
pub open spec fn idx(x: int, y: int) -> int {
    y * 37 + x
}

/// Whether (x, y) lies on the 37 x 37 grid.
pub open spec fn in_grid(x: int, y: int) -> bool {
    0 <= x < 37 && 0 <= y < 37
}

/// Whether (x, y) lies on the outermost coordinate frame of the grid.
pub open spec fn on_ring(x: int, y: int) -> bool {
    x == 0 || x == 36 || y == 0 || y == 36
}

/// The tile of cell (x, y) in a row-major terrain sequence.
pub open spec fn cell(g: Seq<Tile>, x: int, y: int) -> Tile {
    g[idx(x, y)]
}

/// The terrain with every cell of the half-open rectangle
/// `[x0, x1) x [y0, y1)` replaced by `t` (cells off the grid are ignored).
pub open spec fn stamp(g: Seq<Tile>, x0: int, x1: int, y0: int, y1: int, t: Tile) -> Seq<Tile> {
    Seq::new(1369, |i: int| if x0 <= i % 37 < x1 && y0 <= i / 37 < y1 {
        t
    } else {
        g[i]
    })
}

/// Row-major indexing is injective: (x, y) is recovered from its index.
pub proof fn lemma_idx(x: int, y: int)
    requires
        in_grid(x, y),
    ensures
        0 <= idx(x, y) < 1369,
        idx(x, y) % 37 == x,
        idx(x, y) / 37 == y,
{
    assert((y * 37 + x) % 37 == x && (y * 37 + x) / 37 == y && 0 <= y * 37 + x < 1369) by (nonlinear_arith)
        requires
            0 <= x < 37 && 0 <= y < 37,
    ;
}

/// Every index below 1369 is the index of the cell it decodes to.
pub proof fn lemma_grid_index(i: int)
    requires
        0 <= i < 1369,
    ensures
        in_grid(i % 37, i / 37),
        idx(i % 37, i / 37) == i,
{
    assert(0 <= i % 37 < 37 && 0 <= i / 37 < 37 && (i / 37) * 37 + i % 37 == i) by (nonlinear_arith)
        requires
            0 <= i < 1369,
    ;
}

/// How `stamp` reads back, cell by cell.
pub proof fn lemma_stamp_cell(g: Seq<Tile>, x0: int, x1: int, y0: int, y1: int, t: Tile, x: int, y: int)
    requires
        in_grid(x, y),
    ensures
        cell(stamp(g, x0, x1, y0, y1, t), x, y) == if x0 <= x < x1 && y0 <= y < y1 {
            t
        } else {
            cell(g, x, y)
        },
{
    lemma_idx(x, y);
}

/// A rectangular stamp that stays off the ring leaves every ring cell alone,
/// and a stamp never changes the length of the terrain.
pub proof fn lemma_stamp_interior(g: Seq<Tile>, x0: int, x1: int, y0: int, y1: int, t: Tile)
    requires
        1 <= x0,
        x1 <= 36,
        1 <= y0,
        y1 <= 36,
    ensures
        forall|x: int, y: int|
            in_grid(x, y) && on_ring(x, y) ==> cell(
                stamp(g, x0, x1, y0, y1, t),
                x,
                y,
            ) == cell(g, x, y),
{
    assert forall|x: int, y: int| in_grid(x, y) && on_ring(x, y) implies cell(
        stamp(g, x0, x1, y0, y1, t),
        x,
        y,
    ) == cell(g, x, y) by {
        lemma_stamp_cell(g, x0, x1, y0, y1, t, x, y);
    }
}

/// Writes `t` over the rectangle `[x0, x1) x [y0, y1)` of a 37 x 37 terrain.
pub(crate) fn fill_rect(tiles: &mut Vec<Tile>, x0: u32, x1: u32, y0: u32, y1: u32, t: Tile)
    requires
        old(tiles)@.len() == 1369,
        x0 <= x1 <= 37,
        y0 <= y1 <= 37,
    ensures
        final(tiles)@ == stamp(old(tiles)@, x0 as int, x1 as int, y0 as int, y1 as int, t),
{
    let ghost g0 = tiles@;
    let mut y: u32 = y0;
    while y < y1
        invariant
            g0.len() == 1369,
            tiles@.len() == 1369,
            y0 <= y <= y1,
            x0 <= x1 <= 37,
            y1 <= 37,
            forall|i: int|
                0 <= i < 1369 ==> tiles@[i] == (if x0 <= i % 37 < x1 && y0 <= i / 37 < y {
                    t
                } else {
                    g0[i]
                }),
        decreases y1 - y,
    {
        let mut x: u32 = x0;
        while x < x1
            invariant
                g0.len() == 1369,
                tiles@.len() == 1369,
                y0 <= y < y1,
                x0 <= x <= x1,
                x1 <= 37,
                y1 <= 37,
                forall|i: int|
                    0 <= i < 1369 ==> tiles@[i] == (if x0 <= i % 37 < x1 && (y0 <= i / 37 < y || (
                    i / 37 == y && x0 <= i % 37 < x)) {
                        t
                    } else {
                        g0[i]
                    }),
            decreases x1 - x,
        {
            proof {
                lemma_idx(x as int, y as int);
            }
            let i = (y * 37 + x) as usize;
            tiles.set(i, t);
            proof {
                assert forall|j: int| 0 <= j < 1369 && j != i implies !(#[trigger] (j % 37) == x
                    && j / 37 == y) by {
                    lemma_grid_index(j);
                }
            }
            x = x + 1;
        }
        y = y + 1;
    }
    proof {
        assert(tiles@ =~= stamp(g0, x0 as int, x1 as int, y0 as int, y1 as int, t));
    }
}

/// The first diamond at position `p` removed, the rest kept in order.
pub open spec fn remove_first(s: Seq<Pos>, p: Pos) -> Seq<Pos>
    decreases s.len(),
{
    if s.len() == 0 {
        s
    } else if s[0] == p {
        s.skip(1)
    } else {
        seq![s[0]] + remove_first(s.skip(1), p)
    }
}

/// Removing the first occurrence shortens the sequence by one exactly when
/// the position occurs in it.
pub proof fn lemma_remove_first_len(s: Seq<Pos>, p: Pos)
    ensures
        s.contains(p) ==> remove_first(s, p).len() == s.len() - 1,
        !s.contains(p) ==> remove_first(s, p) == s,
    decreases s.len(),
{
    if s.len() > 0 {
        if s[0] == p {
        } else {
            lemma_remove_first_len(s.skip(1), p);
            if s.contains(p) {
                let i = choose|i: int| 0 <= i < s.len() && s[i] == p;
                assert(s.skip(1)[i - 1] == p);
            }
            if s.skip(1).contains(p) {
                let i = choose|i: int| 0 <= i < s.skip(1).len() && s.skip(1)[i] == p;
                assert(s[i + 1] == p);
            }
            if !s.contains(p) {
                assert(remove_first(s, p) =~= s);
            }
        }
    }
}

/// Whether some diamond lies exactly at (x, y).
pub open spec fn has_diamond(ds: Seq<Pos>, x: int, y: int) -> bool {
    exists|i: int| 0 <= i < ds.len() && ds[i].x == x && ds[i].y == y
}

/// The character a tile shows on the wire.
pub open spec fn tile_char(t: Tile) -> u8 {
    match t {
        Tile::EMPTY => 0x20,  // ' '
        Tile::WALL => 0x4d,  // 'M'
        Tile::STONE => 0x50,  // 'P'
        Tile::BORDER => 0x42,  // 'B'
        Tile::EXIT => 0x53,  // 'S'
    }
}

/// Scans the diamond list for one lying exactly at (x, y).
fn diamond_at(ds: &Vec<Pos>, x: u32, y: u32) -> (r: bool)
    ensures
        r == has_diamond(ds@, x as int, y as int),
{
    let mut i: usize = 0;
    while i < ds.len()
        invariant
            i <= ds@.len(),
            forall|j: int| 0 <= j < i ==> !(ds@[j].x == x && ds@[j].y == y),
        decreases ds@.len() - i,
    {
        if ds[i].x == x && ds[i].y == y {
            return true;
        }
        i = i + 1;
    }
    false
}

/// The canonical game world: a dense 37 x 37 terrain, the player's position,
/// and the remaining diamonds in the order they were placed.
pub struct GameMap {
    pub tiles: Vec<Tile>,
    pub player: Pos,
    pub diamonds: Vec<Pos>,
}

impl GameMap {
    /// The tile at `p`, if `p` is on the grid of a fully built terrain.
    pub open spec fn spec_tile_at(self, p: Pos) -> Option<Tile> {
        if self.tiles@.len() == 1369 && in_grid(p.x as int, p.y as int) {
            Some(cell(self.tiles@, p.x as int, p.y as int))
        } else {
            None
        }
    }

    /// Well-formedness: the terrain covers the whole grid, the outer ring is
    /// Border, the player stands on an Empty or Exit tile, and every diamond
    /// lies on the grid over an Empty or Exit tile.
    pub open spec fn wf(self) -> bool {
        &&& self.tiles@.len() == 1369
        &&& in_grid(self.player.x as int, self.player.y as int)
        &&& (cell(self.tiles@, self.player.x as int, self.player.y as int) == Tile::EMPTY || cell(
            self.tiles@,
            self.player.x as int,
            self.player.y as int,
        ) == Tile::EXIT)
        &&& forall|x: int, y: int|
            in_grid(x, y) && on_ring(x, y) ==> cell(self.tiles@, x, y) == Tile::BORDER
        &&& forall|i: int|
            0 <= i < self.diamonds@.len() ==> in_grid(
                self.diamonds@[i].x as int,
                self.diamonds@[i].y as int,
            ) && (cell(self.tiles@, self.diamonds@[i].x as int, self.diamonds@[i].y as int)
                == Tile::EMPTY || cell(
                self.tiles@,
                self.diamonds@[i].x as int,
                self.diamonds@[i].y as int,
            ) == Tile::EXIT)
    }

    /// A well-formed map keeps the player off the ring: the player's tile is
    /// Empty or Exit while every ring tile is Border.
    pub proof fn lemma_player_interior(self)
        requires
            self.wf(),
        ensures
            1 <= self.player.x <= 35,
            1 <= self.player.y <= 35,
    {
        assert(!on_ring(self.player.x as int, self.player.y as int));
    }

    /// Builds a map from its parts.
    pub fn new(tiles: Vec<Tile>, player: Pos, diamonds: Vec<Pos>) -> (r: Self)
        ensures
            r.tiles == tiles,
            r.player == player,
            r.diamonds == diamonds,
    {
        GameMap { tiles, player, diamonds }
    }

    /// The placeholder world before any session has started: no terrain at
    /// all, so every lookup misses.
    pub fn empty() -> (r: Self)
        ensures
            r.tiles@.len() == 0,
            r.player == (Pos { x: 0, y: 0 }),
            r.diamonds@.len() == 0,
    {
        GameMap { tiles: Vec::new(), player: Pos::new(0, 0), diamonds: Vec::new() }
    }

    pub fn player_pos(&self) -> (r: Pos)
        ensures
            r == self.player,
    {
        self.player
    }

    pub fn tile_at(&self, position: Pos) -> (r: Option<Tile>)
        ensures
            r == self.spec_tile_at(position),
    {
        if position.x < 37 && position.y < 37 && self.tiles.len() == 1369 {
            proof {
                lemma_idx(position.x as int, position.y as int);
            }
            Some(self.tiles[(position.y * 37 + position.x) as usize])
        } else {
            None
        }
    }

    /// The positions of the remaining diamonds, in order.
    pub fn diamonds_pos(&self) -> (r: Vec<Pos>)
        ensures
            r@ == self.diamonds@,
    {
        let mut out: Vec<Pos> = Vec::new();
        let mut i: usize = 0;
        while i < self.diamonds.len()
            invariant
                i <= self.diamonds@.len(),
                out@ == self.diamonds@.take(i as int),
            decreases self.diamonds@.len() - i,
        {
            out.push(self.diamonds[i]);
            proof {
                assert(self.diamonds@.take(i + 1) =~= self.diamonds@.take(i as int).push(
                    self.diamonds@[i as int],
                ));
            }
            i = i + 1;
        }
        proof {
            assert(self.diamonds@.take(self.diamonds@.len() as int) =~= self.diamonds@);
        }
        out
    }

    pub fn diamonds_count(&self) -> (r: usize)
        ensures
            r == self.diamonds@.len(),
    {
        self.diamonds.len()
    }

    /// Moves the player one step; the caller has checked the destination.
    pub fn move_player(&mut self, direction: Direction)
        requires
            old(self).wf(),
            in_grid(
                old(self).player.spec_moved(direction).x as int,
                old(self).player.spec_moved(direction).y as int,
            ),
            cell(
                old(self).tiles@,
                old(self).player.spec_moved(direction).x as int,
                old(self).player.spec_moved(direction).y as int,
            ) == Tile::EMPTY || cell(
                old(self).tiles@,
                old(self).player.spec_moved(direction).x as int,
                old(self).player.spec_moved(direction).y as int,
            ) == Tile::EXIT,
        ensures
            final(self).wf(),
            final(self).player == old(self).player.spec_moved(direction),
            final(self).tiles == old(self).tiles,
            final(self).diamonds == old(self).diamonds,
    {
        proof {
            self.lemma_player_interior();
        }
        self.player = self.player.moved(direction);
    }

    /// Converts one Wall tile to Empty.
    pub fn dig(&mut self, position: Pos)
        requires
            old(self).wf(),
            old(self).spec_tile_at(position) == Some(Tile::WALL),
        ensures
            final(self).wf(),
            final(self).tiles@ == old(self).tiles@.update(
                idx(position.x as int, position.y as int),
                Tile::EMPTY,
            ),
            final(self).player == old(self).player,
            final(self).diamonds == old(self).diamonds,
    {
        proof {
            lemma_idx(position.x as int, position.y as int);
        }
        let i = (position.y * 37 + position.x) as usize;
        self.tiles.set(i, Tile::EMPTY);
        proof {
            let g = self.tiles@;
            let pi = idx(position.x as int, position.y as int);
            assert forall|x: int, y: int| in_grid(x, y) && idx(x, y) != pi implies cell(g, x, y)
                == cell(old(self).tiles@, x, y) by {}
            assert forall|x: int, y: int| in_grid(x, y) && on_ring(x, y) implies cell(g, x, y)
                == Tile::BORDER by {
                lemma_idx(x, y);
                lemma_idx(position.x as int, position.y as int);
            }
            lemma_idx(self.player.x as int, self.player.y as int);
            assert forall|i2: int| 0 <= i2 < self.diamonds@.len() implies in_grid(
                self.diamonds@[i2].x as int,
                self.diamonds@[i2].y as int,
            ) && (cell(g, self.diamonds@[i2].x as int, self.diamonds@[i2].y as int) == Tile::EMPTY
                || cell(g, self.diamonds@[i2].x as int, self.diamonds@[i2].y as int)
                == Tile::EXIT) by {
                lemma_idx(self.diamonds@[i2].x as int, self.diamonds@[i2].y as int);
            }
        }
    }

    /// Whether the player stands exactly at (x, y).
    pub open spec fn player_at(self, x: int, y: int) -> bool {
        self.player.x == x && self.player.y == y
    }

    /// The character a cell shows on the wire: the player wins over a
    /// diamond, a diamond wins over the terrain.
    pub open spec fn cell_char(self, x: int, y: int) -> u8 {
        if self.player_at(x, y) {
            0x4a  // 'J'
        } else if has_diamond(self.diamonds@, x, y) {
            0x44  // 'D'
        } else {
            tile_char(cell(self.tiles@, x, y))
        }
    }

    /// The 37 x 37 wire representation, row-major with y outermost.
    pub open spec fn spec_repr(self) -> Seq<u8> {
        Seq::new(1369, |i: int| self.cell_char(i % 37, i / 37))
    }

    /// Serializes the map for the MAP reply: 1369 bytes, one per cell.
    pub fn repr(&self) -> (r: Vec<u8>)
        requires
            self.tiles@.len() == 1369,
        ensures
            r@ == self.spec_repr(),
    {
        let mut out: Vec<u8> = Vec::new();
        let mut y: u32 = 0;
        while y < 37
            invariant
                self.tiles@.len() == 1369,
                y <= 37,
                out@.len() == y * 37,
                forall|i: int|
                    0 <= i < out@.len() ==> out@[i] == self.cell_char(i % 37, i / 37),
            decreases 37 - y,
        {
            let mut x: u32 = 0;
            while x < 37
                invariant
                    self.tiles@.len() == 1369,
                    y < 37,
                    x <= 37,
                    out@.len() == y * 37 + x,
                    forall|i: int|
                        0 <= i < out@.len() ==> out@[i] == self.cell_char(i % 37, i / 37),
                decreases 37 - x,
            {
                let b: u8 = if self.player.x == x && self.player.y == y {
                    0x4a
                } else if diamond_at(&self.diamonds, x, y) {
                    0x44
                } else {
                    proof {
                        lemma_idx(x as int, y as int);
                    }
                    match self.tiles[(y * 37 + x) as usize] {
                        Tile::EMPTY => 0x20,
                        Tile::WALL => 0x4d,
                        Tile::STONE => 0x50,
                        Tile::BORDER => 0x42,
                        Tile::EXIT => 0x53,
                    }
                };
                out.push(b);
                proof {
                    lemma_idx(x as int, y as int);
                    assert(out@.last() == self.cell_char(x as int, y as int));
                }
                x = x + 1;
            }
            y = y + 1;
        }
        proof {
            assert(out@ =~= self.spec_repr());
        }
        out
    }

    /// Removes the first diamond lying exactly on the player's cell, if any.
    pub fn pick_up_diamond(&mut self)
        requires
            old(self).wf(),
        ensures
            final(self).wf(),
            final(self).diamonds@ == remove_first(old(self).diamonds@, old(self).player),
            final(self).tiles == old(self).tiles,
            final(self).player == old(self).player,
    {
        proof {
            assert(self.diamonds@.skip(0) =~= self.diamonds@);
            assert(self.diamonds@.take(0) + remove_first(self.diamonds@, self.player)
                =~= remove_first(self.diamonds@, self.player));
        }
        let mut i: usize = 0;
        while i < self.diamonds.len()
            invariant
                self.wf(),
                self.tiles == old(self).tiles,
                self.player == old(self).player,
                self.diamonds == old(self).diamonds,
                i <= self.diamonds@.len(),
                forall|j: int| 0 <= j < i ==> self.diamonds@[j] != self.player,
                remove_first(self.diamonds@, self.player) == self.diamonds@.take(i as int)
                    + remove_first(self.diamonds@.skip(i as int), self.player),
            decreases self.diamonds@.len() - i,
        {
            if self.diamonds[i].x == self.player.x && self.diamonds[i].y == self.player.y {
                proof {
                    let s = self.diamonds@;
                    assert(s.skip(i as int)[0] == self.player);
                    assert(remove_first(s.skip(i as int), self.player) == s.skip(i as int).skip(1));
                    assert(remove_first(s, self.player) == s.take(i as int) + s.skip(i as int).skip(
                        1,
                    ));
                    assert(s.take(i as int) + s.skip(i as int).skip(1) =~= s.remove(i as int));
                }
                let ghost pre = self.diamonds@;
                self.diamonds.remove(i);
                proof {
                    assert(self.diamonds@ == pre.remove(i as int));
                    assert forall|i2: int| 0 <= i2 < self.diamonds@.len() implies in_grid(
                        self.diamonds@[i2].x as int,
                        self.diamonds@[i2].y as int,
                    ) && (cell(self.tiles@, self.diamonds@[i2].x as int, self.diamonds@[i2].y as int)
                        == Tile::EMPTY || cell(
                        self.tiles@,
                        self.diamonds@[i2].x as int,
                        self.diamonds@[i2].y as int,
                    ) == Tile::EXIT) by {
                        assert(self.diamonds@[i2] == pre.remove(i as int)[i2]);
                    }
                }
                return ;
            }
            proof {
                let s = self.diamonds@;
                assert(s.skip(i as int)[0] == s[i as int]);
                assert(s.skip(i as int).skip(1) =~= s.skip(i as int + 1));
                let rest = remove_first(s.skip(i as int + 1), self.player);
                assert(remove_first(s.skip(i as int), self.player) == seq![s[i as int]] + rest);
                assert(s.take(i as int) + (seq![s[i as int]] + rest) =~= s.take(i as int + 1)
                    + rest);
            }
            i = i + 1;
        }
        proof {
            let s = self.diamonds@;
            assert(s.skip(i as int) =~= Seq::<Pos>::empty());
            assert(remove_first(s.skip(i as int), self.player) == s.skip(i as int));
            assert(s.take(i as int) + s.skip(i as int) =~= s);
        }
    }
}

} // verus!
