//! The dungeon's physical tile grid and its fog-of-war companion grid.

use vstd::prelude::*;
use crate::geom::Pos;
use crate::grid::Arr2d;

verus! {

/// One cell of the dungeon grid.
#[derive(Copy, Clone, PartialEq, Eq, Structural, Debug)]
pub enum Tile {
    Void,
    Wall,
    Floor,
    Door { is_open: bool },
}

/// Per-tile visibility memory: never observed, observed earlier, or
/// currently in line of sight.
#[derive(Copy, Clone, PartialEq, Eq, Structural, Debug)]
pub enum Fog {
    Dark,
    Seen,
    Visible,
}

/// Tile edge length in pixels, for render layers.
pub const TILE_SIZE: u32 = 8;

/// Width of the dungeon tile grid.
pub const MAP_SIZE_X: u32 = 20;

/// Height of the dungeon tile grid.
pub const MAP_SIZE_Y: u32 = 14;

/// Whether this tile stops movement and sight.
pub open spec fn spec_blocking_tile(tile: Tile) -> bool {
    match tile {
        Tile::Door { is_open: false } => true,
        Tile::Wall => true,
        _ => false,
    }
}

/// The one-tile border around the rectangle `[x, x + w) x [y, y + h)`.
pub open spec fn on_room_border(x: int, y: int, w: int, h: int, i: int, j: int) -> bool {
    &&& x - 1 <= i < x + w + 1
    &&& y - 1 <= j < y + h + 1
    &&& !(x <= i < x + w && y <= j < y + h)
}

pub struct GameMap {
    map_arr2d: Arr2d<Tile>,
    fog_of_war: Arr2d<Fog>,
}

impl GameMap {
    /// Both grids are well-formed and cover the same cells.
    pub closed spec fn wf(self) -> bool {
        &&& self.map_arr2d.wf()
        &&& self.fog_of_war.wf()
        &&& self.fog_of_war.spec_width() == self.map_arr2d.spec_width()
        &&& self.fog_of_war.spec_height() == self.map_arr2d.spec_height()
    }

    pub closed spec fn spec_width(self) -> u32 {
        self.map_arr2d.spec_width()
    }

    pub closed spec fn spec_height(self) -> u32 {
        self.map_arr2d.spec_height()
    }

    pub open spec fn in_bounds(self, x: int, y: int) -> bool {
        0 <= x < self.spec_width() && 0 <= y < self.spec_height()
    }

    /// The tile at in-bounds cell `(x, y)`.
    pub closed spec fn spec_tile(self, x: int, y: int) -> Tile {
        self.map_arr2d.at(x, y)
    }

    /// The fog state at in-bounds cell `(x, y)`.
    pub closed spec fn spec_fog(self, x: int, y: int) -> Fog {
        self.fog_of_war.at(x, y)
    }

    /// The fog state at any cell: `Dark` outside the grid.
    pub open spec fn spec_fog_checked(self, x: int, y: int) -> Fog {
        if self.in_bounds(x, y) {
            self.spec_fog(x, y)
        } else {
            Fog::Dark
        }
    }

    /// Whether sight and movement are blocked at `(x, y)`; everything
    /// outside the grid blocks.
    pub open spec fn spec_blocked_at(self, x: int, y: int) -> bool {
        !self.in_bounds(x, y) || spec_blocking_tile(self.spec_tile(x, y))
    }

    /// Both dimensions of a well-formed map fit in `i32`.
    pub proof fn lemma_wf_dims(self)
        requires
            self.wf(),
        ensures
            self.spec_width() <= i32::MAX,
            self.spec_height() <= i32::MAX,
    {
        self.map_arr2d.lemma_wf_dims();
    }

    pub fn new(w: u32, h: u32) -> (r: GameMap)
        requires
            w <= i32::MAX,
            h <= i32::MAX,
            w * h <= u32::MAX,
        ensures
            r.wf(),
            r.spec_width() == w,
            r.spec_height() == h,
            forall|x: int, y: int| r.in_bounds(x, y) ==> r.spec_tile(x, y) == Tile::Void,
            forall|x: int, y: int| r.in_bounds(x, y) ==> r.spec_fog(x, y) == Fog::Dark,
    {
        GameMap {
            map_arr2d: Arr2d::new(w, h, Tile::Void),
            fog_of_war: Arr2d::new(w, h, Fog::Dark),
        }
    }

    pub fn set_tile(&mut self, pos: Pos, tile: Tile)
        requires
            old(self).wf(),
            old(self).in_bounds(pos.x as int, pos.y as int),
        ensures
            final(self).wf(),
            final(self).spec_width() == old(self).spec_width(),
            final(self).spec_height() == old(self).spec_height(),
            final(self).spec_tile(pos.x as int, pos.y as int) == tile,
            forall|i: int, j: int|
                old(self).in_bounds(i, j) && (i != pos.x || j != pos.y)
                    ==> #[trigger] final(self).spec_tile(i, j) == old(self).spec_tile(i, j),
            forall|i: int, j: int|
                old(self).in_bounds(i, j)
                    ==> #[trigger] final(self).spec_fog(i, j) == old(self).spec_fog(i, j),
    {
        self.map_arr2d.set(pos.x, pos.y, tile);
    }

    pub fn get_tile(&self, pos: Pos) -> (r: Tile)
        requires
            self.wf(),
            self.in_bounds(pos.x as int, pos.y as int),
        ensures
            r == self.spec_tile(pos.x as int, pos.y as int),
    {
        *self.map_arr2d.get_unsafe(pos.x as u32, pos.y as u32)
    }

    /// The tile at `pos`, or `None` outside the grid.
    pub fn tile_at(&self, pos: Pos) -> (r: Option<Tile>)
        requires
            self.wf(),
        ensures
            r is Some <==> self.in_bounds(pos.x as int, pos.y as int),
            r matches Some(t) ==> t == self.spec_tile(pos.x as int, pos.y as int),
    {
        match self.map_arr2d.get(pos.x, pos.y) {
            Some(t) => Some(*t),
            None => None,
        }
    }

    /// Whether the player or an enemy may stand at `pos`: the cell is
    /// inside the grid and its tile does not block.
    pub fn is_open_tile(&self, pos: Pos) -> (r: bool)
        requires
            self.wf(),
        ensures
            r == !self.spec_blocked_at(pos.x as int, pos.y as int),
    {
        match self.tile_at(pos) {
            Some(tile) => !Self::blocking_tile(tile),
            None => false,
        }
    }

    pub fn tile_visibility(&self, pos: Pos) -> (r: Fog)
        requires
            self.wf(),
        ensures
            r == self.spec_fog_checked(pos.x as int, pos.y as int),
    {
        match self.fog_of_war.get(pos.x, pos.y) {
            Some(f) => *f,
            None => Fog::Dark,
        }
    }

    pub fn blocking_tile(tile: Tile) -> (r: bool)
        ensures
            r == spec_blocking_tile(tile),
    {
        match tile {
            Tile::Door { is_open: false } => true,
            Tile::Wall => true,
            _ => false,
        }
    }

    /// One decay step of the fog transition rule, applied to every cell.
    pub(crate) fn fog_decay(&mut self)
        requires
            old(self).wf(),
        ensures
            final(self).wf(),
            final(self).spec_width() == old(self).spec_width(),
            final(self).spec_height() == old(self).spec_height(),
            forall|i: int, j: int|
                old(self).in_bounds(i, j)
                    ==> #[trigger] final(self).spec_tile(i, j) == old(self).spec_tile(i, j),
            forall|i: int, j: int|
                old(self).in_bounds(i, j)
                    ==> #[trigger] final(self).spec_fog(i, j) == crate::fog::spec_fog_decay(
                    old(self).spec_fog(i, j)),
    {
        let decay = |fg: Fog| -> (r: Fog)
            ensures
                r == crate::fog::spec_fog_decay(fg),
            {
                if fg == Fog::Visible {
                    Fog::Seen
                } else {
                    fg
                }
            };
        self.fog_of_war.update(decay);
    }

    /// Promotes the cell at `p` to `Visible`; out-of-bounds cells are
    /// silently skipped.
    pub(crate) fn mark_visible(&mut self, p: Pos)
        requires
            old(self).wf(),
        ensures
            final(self).wf(),
            final(self).spec_width() == old(self).spec_width(),
            final(self).spec_height() == old(self).spec_height(),
            forall|i: int, j: int|
                old(self).in_bounds(i, j)
                    ==> #[trigger] final(self).spec_tile(i, j) == old(self).spec_tile(i, j),
            old(self).in_bounds(p.x as int, p.y as int) ==> final(self).spec_fog(
                p.x as int,
                p.y as int,
            ) == Fog::Visible,
            forall|i: int, j: int|
                old(self).in_bounds(i, j) && (i != p.x || j != p.y)
                    ==> #[trigger] final(self).spec_fog(i, j) == old(self).spec_fog(i, j),
    {
        match self.fog_of_war.get_mut(p.x, p.y) {
            Some(v) => {
                *v = Fog::Visible;
            },
            None => {},
        }
    }

    /// Fills the rectangle `[x, x + w) x [y, y + h)` with tile `t`.
    pub fn add_rect(&mut self, x: i32, y: i32, w: u32, h: u32, t: Tile)
        requires
            old(self).wf(),
            0 <= x,
            0 <= y,
            x + w <= old(self).spec_width(),
            y + h <= old(self).spec_height(),
        ensures
            final(self).wf(),
            final(self).spec_width() == old(self).spec_width(),
            final(self).spec_height() == old(self).spec_height(),
            forall|i: int, j: int|
                x <= i < x + w && y <= j < y + h ==> #[trigger] final(self).spec_tile(i, j)
                    == t,
            forall|i: int, j: int|
                old(self).in_bounds(i, j) && !(x <= i < x + w && y <= j < y + h)
                    ==> #[trigger] final(self).spec_tile(i, j) == old(self).spec_tile(i, j),
            forall|i: int, j: int|
                old(self).in_bounds(i, j)
                    ==> #[trigger] final(self).spec_fog(i, j) == old(self).spec_fog(i, j),
    {
        let ghost orig = *self;
        proof {
            orig.lemma_wf_dims();
        }
        let mut x_ix: i32 = x;
        while x_ix < x + w as i32
            invariant
                self.wf(),
                self.spec_width() == orig.spec_width(),
                self.spec_height() == orig.spec_height(),
                x <= x_ix <= x + w,
                0 <= x,
                0 <= y,
                x + w <= orig.spec_width(),
                y + h <= orig.spec_height(),
                orig.spec_width() <= i32::MAX,
                orig.spec_height() <= i32::MAX,
                forall|i: int, j: int|
                    x <= i < x_ix && y <= j < y + h ==> #[trigger] self.spec_tile(i, j) == t,
                forall|i: int, j: int|
                    orig.in_bounds(i, j) && !(x <= i < x_ix && y <= j < y + h)
                        ==> #[trigger] self.spec_tile(i, j) == orig.spec_tile(i, j),
                forall|i: int, j: int|
                    orig.in_bounds(i, j) ==> #[trigger] self.spec_fog(i, j) == orig.spec_fog(
                        i, j),
            decreases x + w - x_ix,
        {
            let mut y_ix: i32 = y;
            while y_ix < y + h as i32
                invariant
                    self.wf(),
                    self.spec_width() == orig.spec_width(),
                    self.spec_height() == orig.spec_height(),
                    x <= x_ix < x + w,
                    y <= y_ix <= y + h,
                    0 <= x,
                    0 <= y,
                    x + w <= orig.spec_width(),
                    y + h <= orig.spec_height(),
                    orig.spec_width() <= i32::MAX,
                    orig.spec_height() <= i32::MAX,
                    forall|i: int, j: int|
                        x <= i < x_ix && y <= j < y + h ==> #[trigger] self.spec_tile(i, j)
                            == t,
                    forall|j: int|
                        y <= j < y_ix ==> #[trigger] self.spec_tile(x_ix as int, j) == t,
                    forall|i: int, j: int|
                        orig.in_bounds(i, j) && !(x <= i < x_ix && y <= j < y + h)
                            && !(i == x_ix && y <= j < y_ix)
                            ==> #[trigger] self.spec_tile(i, j) == orig.spec_tile(i, j),
                    forall|i: int, j: int|
                        orig.in_bounds(i, j) ==> #[trigger] self.spec_fog(i, j)
                            == orig.spec_fog(i, j),
                decreases y + h - y_ix,
            {
                self.set_tile(Pos { x: x_ix, y: y_ix }, t);
                y_ix = y_ix + 1;
            }
            x_ix = x_ix + 1;
        }
    }

    /// Carves a rectangular room: floor on `[x, x + w) x [y, y + h)`,
    /// and a wall on the one-tile border around it wherever the border
    /// does not already hold floor (so adjoining rooms keep their shared
    /// floor).
    pub fn add_room(&mut self, x: i32, y: i32, w: u32, h: u32)
        requires
            old(self).wf(),
            1 <= x,
            1 <= y,
            x + w + 1 <= old(self).spec_width(),
            y + h + 1 <= old(self).spec_height(),
        ensures
            final(self).wf(),
            final(self).spec_width() == old(self).spec_width(),
            final(self).spec_height() == old(self).spec_height(),
            forall|i: int, j: int|
                x <= i < x + w && y <= j < y + h ==> #[trigger] final(self).spec_tile(i, j)
                    == Tile::Floor,
            forall|i: int, j: int|
                on_room_border(x as int, y as int, w as int, h as int, i, j)
                    ==> #[trigger] final(self).spec_tile(i, j) == (
                    if old(self).spec_tile(i, j) == Tile::Floor {
                        Tile::Floor
                    } else {
                        Tile::Wall
                    }),
            forall|i: int, j: int|
                old(self).in_bounds(i, j) && !(x <= i < x + w && y <= j < y + h)
                    && !on_room_border(x as int, y as int, w as int, h as int, i, j)
                    ==> #[trigger] final(self).spec_tile(i, j) == old(self).spec_tile(i, j),
            forall|i: int, j: int|
                old(self).in_bounds(i, j)
                    ==> #[trigger] final(self).spec_fog(i, j) == old(self).spec_fog(i, j),
    {
        let ghost orig = *self;
        proof {
            orig.lemma_wf_dims();
        }
        self.add_rect(x, y, w, h, Tile::Floor);

        let ghost base = *self;
        let mut x_ix: i32 = x - 1;
        while x_ix < x + w as i32 + 1
            invariant
                self.wf(),
                self.spec_width() == orig.spec_width(),
                self.spec_height() == orig.spec_height(),
                base.spec_width() == orig.spec_width(),
                base.spec_height() == orig.spec_height(),
                orig.spec_width() <= i32::MAX,
                orig.spec_height() <= i32::MAX,
                1 <= x,
                1 <= y,
                x + w + 1 <= orig.spec_width(),
                y + h + 1 <= orig.spec_height(),
                x - 1 <= x_ix <= x + w + 1,
                forall|i: int|
                    x - 1 <= i < x_ix ==> #[trigger] self.spec_tile(i, y - 1) == (
                    if base.spec_tile(i, y - 1) == Tile::Floor {
                        Tile::Floor
                    } else {
                        Tile::Wall
                    }),
                forall|i: int|
                    x - 1 <= i < x_ix ==> #[trigger] self.spec_tile(i, y + h) == (
                    if base.spec_tile(i, y + h) == Tile::Floor {
                        Tile::Floor
                    } else {
                        Tile::Wall
                    }),
                forall|i: int, j: int|
                    base.in_bounds(i, j) && !(x - 1 <= i < x_ix && (j == y - 1 || j == y + h))
                        ==> #[trigger] self.spec_tile(i, j) == base.spec_tile(i, j),
                forall|i: int, j: int|
                    orig.in_bounds(i, j) ==> #[trigger] self.spec_fog(i, j) == orig.spec_fog(
                        i, j),
            decreases x + w + 1 - x_ix,
        {
            let top = self.get_tile(Pos { x: x_ix, y: y - 1 });
            if top != Tile::Floor {
                self.set_tile(Pos { x: x_ix, y: y - 1 }, Tile::Wall);
            }
            let bottom = self.get_tile(Pos { x: x_ix, y: y + h as i32 });
            if bottom != Tile::Floor {
                self.set_tile(Pos { x: x_ix, y: y + h as i32 }, Tile::Wall);
            }
            x_ix = x_ix + 1;
        }

        let ghost mid = *self;
        let mut y_ix: i32 = y - 1;
        while y_ix < y + h as i32 + 1
            invariant
                self.wf(),
                self.spec_width() == orig.spec_width(),
                self.spec_height() == orig.spec_height(),
                mid.spec_width() == orig.spec_width(),
                mid.spec_height() == orig.spec_height(),
                orig.spec_width() <= i32::MAX,
                orig.spec_height() <= i32::MAX,
                1 <= x,
                1 <= y,
                x + w + 1 <= orig.spec_width(),
                y + h + 1 <= orig.spec_height(),
                y - 1 <= y_ix <= y + h + 1,
                forall|j: int|
                    y - 1 <= j < y_ix ==> #[trigger] self.spec_tile(x - 1, j) == (
                    if mid.spec_tile(x - 1, j) == Tile::Floor {
                        Tile::Floor
                    } else {
                        Tile::Wall
                    }),
                forall|j: int|
                    y - 1 <= j < y_ix ==> #[trigger] self.spec_tile(x + w, j) == (
                    if mid.spec_tile(x + w, j) == Tile::Floor {
                        Tile::Floor
                    } else {
                        Tile::Wall
                    }),
                forall|i: int, j: int|
                    mid.in_bounds(i, j) && !((i == x - 1 || i == x + w) && y - 1 <= j < y_ix)
                        ==> #[trigger] self.spec_tile(i, j) == mid.spec_tile(i, j),
                forall|i: int, j: int|
                    orig.in_bounds(i, j) ==> #[trigger] self.spec_fog(i, j) == orig.spec_fog(
                        i, j),
            decreases y + h + 1 - y_ix,
        {
            let left = self.get_tile(Pos { x: x - 1, y: y_ix });
            if left != Tile::Floor {
                self.set_tile(Pos { x: x - 1, y: y_ix }, Tile::Wall);
            }
            let right = self.get_tile(Pos { x: x + w as i32, y: y_ix });
            if right != Tile::Floor {
                self.set_tile(Pos { x: x + w as i32, y: y_ix }, Tile::Wall);
            }
            y_ix = y_ix + 1;
        }
        proof {
            assert forall|i: int, j: int|
                on_room_border(x as int, y as int, w as int, h as int, i, j)
                    implies self.spec_tile(i, j) == (if orig.spec_tile(i, j) == Tile::Floor {
                    Tile::Floor
                } else {
                    Tile::Wall
                }) by {
                assert(orig.in_bounds(i, j));
                assert(base.spec_tile(i, j) == orig.spec_tile(i, j));
                if j == y - 1 || j == y + h {
                    if i == x - 1 || i == x + w {
                        assert(mid.spec_tile(i, j) == (if base.spec_tile(i, j) == Tile::Floor {
                            Tile::Floor
                        } else {
                            Tile::Wall
                        }));
                        assert(self.spec_tile(i, j) == (if mid.spec_tile(i, j) == Tile::Floor {
                            Tile::Floor
                        } else {
                            Tile::Wall
                        }));
                    } else {
                        assert(mid.spec_tile(i, j) == (if base.spec_tile(i, j) == Tile::Floor {
                            Tile::Floor
                        } else {
                            Tile::Wall
                        }));
                        assert(self.spec_tile(i, j) == mid.spec_tile(i, j));
                    }
                } else {
                    assert(mid.spec_tile(i, j) == base.spec_tile(i, j));
                    assert(self.spec_tile(i, j) == (if mid.spec_tile(i, j) == Tile::Floor {
                        Tile::Floor
                    } else {
                        Tile::Wall
                    }));
                }
            }
            assert forall|i: int, j: int|
                orig.in_bounds(i, j) && !(x <= i < x + w && y <= j < y + h)
                    && !on_room_border(x as int, y as int, w as int, h as int, i, j)
                    implies self.spec_tile(i, j) == orig.spec_tile(i, j) by {
                assert(base.spec_tile(i, j) == orig.spec_tile(i, j));
                assert(mid.spec_tile(i, j) == base.spec_tile(i, j));
                assert(self.spec_tile(i, j) == mid.spec_tile(i, j));
            }
        }
    }
}

} // verus!
