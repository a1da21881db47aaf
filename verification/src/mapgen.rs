//! Procedural dungeon generation: a randomized depth-first carve over
//! a coarse room graph, followed by rasterization onto the tile grid.
//!
//! The carve pushes the start cell on a stack and repeatedly either
//! carves into a randomly chosen admissible unvisited neighbor of the
//! stack top (clearing the separator on the crossed edge) or pops a
//! dead end, until the stack is empty.

use vstd::prelude::*;
use crate::entity::Enemy;
use crate::entity::EnemyType;
use crate::entity::Item;
use crate::entity::ItemType;
use crate::game_map::GameMap;
use crate::game_map::on_room_border;
use crate::game_map::MAP_SIZE_X;
use crate::game_map::MAP_SIZE_Y;
use crate::game_map::Tile;
use crate::geom::Pos;
use crate::grid::Arr2d;
use crate::incmap::IncMap;
use crate::rng::RandomSource;

verus! {

/// The role of one room-graph cell.
#[derive(Copy, Clone, PartialEq, Eq, Structural, Debug)]
pub enum CellType {
    Nothing,
    Room,
    Corridors,
}

/// The carve state of the edge between two adjacent room-graph cells.
#[derive(Copy, Clone, PartialEq, Eq, Structural, Debug)]
pub enum Separator {
    Nothing,
    Wall,
    Door,
}

/// One room-graph cell: its role and its carve flag.
#[derive(Copy, Clone, PartialEq, Eq, Structural, Debug)]
pub struct RoomCell {
    pub kind: CellType,
    pub visited: bool,
}

/// Whether `(bx, by)` is one of the four axis neighbors of `(ax, ay)`.
pub open spec fn adjacent4(ax: int, ay: int, bx: int, by: int) -> bool {
    ||| (bx == ax + 1 && by == ay)
    ||| (bx == ax - 1 && by == ay)
    ||| (bx == ax && by == ay + 1)
    ||| (bx == ax && by == ay - 1)
}

/// A cell the carve may pass through: inside the grid and not void.
pub open spec fn admissible(rooms: Arr2d<RoomCell>, x: int, y: int) -> bool {
    rooms.in_bounds(x, y) && rooms.at(x, y).kind != CellType::Nothing
}

/// A neighbor the carve may step into next.
pub open spec fn open_neighbor(
    rooms: Arr2d<RoomCell>,
    px: int,
    py: int,
    mx: int,
    my: int,
) -> bool {
    adjacent4(px, py, mx, my) && admissible(rooms, mx, my) && !rooms.at(mx, my).visited
}

pub open spec fn has_open_neighbor(rooms: Arr2d<RoomCell>, px: int, py: int) -> bool {
    exists|mx: int, my: int| open_neighbor(rooms, px, py, mx, my)
}

/// Reachability from `(sx, sy)` in at most `n` hops, every visited
/// cell after the start being admissible.
pub open spec fn reach_n(
    rooms: Arr2d<RoomCell>,
    sx: int,
    sy: int,
    x: int,
    y: int,
    n: nat,
) -> bool
    decreases n,
{
    if x == sx && y == sy {
        true
    } else if n == 0 {
        false
    } else {
        admissible(rooms, x, y) && (reach_n(rooms, sx, sy, x - 1, y, (n - 1) as nat)
            || reach_n(rooms, sx, sy, x + 1, y, (n - 1) as nat) || reach_n(
            rooms,
            sx,
            sy,
            x,
            y - 1,
            (n - 1) as nat,
        ) || reach_n(rooms, sx, sy, x, y + 1, (n - 1) as nat))
    }
}

/// Reachability from the start cell under the carve rule.
pub open spec fn reachable(rooms: Arr2d<RoomCell>, sx: int, sy: int, x: int, y: int) -> bool {
    exists|n: nat| reach_n(rooms, sx, sy, x, y, n)
}

/// A reachable cell's admissible neighbor is reachable.
proof fn lemma_reach_step(
    rooms: Arr2d<RoomCell>,
    sx: int,
    sy: int,
    ax: int,
    ay: int,
    bx: int,
    by: int,
)
    requires
        reachable(rooms, sx, sy, ax, ay),
        adjacent4(ax, ay, bx, by),
        admissible(rooms, bx, by),
    ensures
        reachable(rooms, sx, sy, bx, by),
{
    let n = choose|n: nat| reach_n(rooms, sx, sy, ax, ay, n);
    if !(bx == sx && by == sy) {
        assert(((n + 1) - 1) as nat == n);
        assert(reach_n(rooms, sx, sy, bx, by, n + 1));
    } else {
        assert(reach_n(rooms, sx, sy, bx, by, 0));
    }
}

/// Unvisited cells in row `y` among the first `upto` columns.
pub open spec fn row_unvisited(rooms: Arr2d<RoomCell>, y: int, upto: int) -> nat
    decreases upto,
{
    if upto <= 0 {
        0
    } else {
        row_unvisited(rooms, y, upto - 1) + (if !rooms.at(upto - 1, y).visited {
            1nat
        } else {
            0nat
        })
    }
}

/// Unvisited cells in the first `upto_y` rows.
pub open spec fn grid_unvisited(rooms: Arr2d<RoomCell>, upto_y: int) -> nat
    decreases upto_y,
{
    if upto_y <= 0 {
        0
    } else {
        grid_unvisited(rooms, upto_y - 1) + row_unvisited(
            rooms,
            upto_y - 1,
            rooms.spec_width() as int,
        )
    }
}

/// Unvisited cells in the whole grid.
pub open spec fn count_unvisited(rooms: Arr2d<RoomCell>) -> nat {
    grid_unvisited(rooms, rooms.spec_height() as int)
}

proof fn lemma_row_unvisited_rel(
    r1: Arr2d<RoomCell>,
    r2: Arr2d<RoomCell>,
    y: int,
    upto: int,
    qx: int,
    qy: int,
)
    requires
        forall|i: int|
            0 <= i < upto && (i != qx || y != qy) ==> #[trigger] r2.at(i, y).visited == r1.at(
                i, y).visited,
    ensures
        (qy != y || !(0 <= qx < upto) || r1.at(qx, qy).visited == r2.at(qx, qy).visited)
            ==> row_unvisited(r2, y, upto) == row_unvisited(r1, y, upto),
        (qy == y && 0 <= qx < upto && !r1.at(qx, qy).visited && r2.at(qx, qy).visited)
            ==> row_unvisited(r2, y, upto) + 1 == row_unvisited(r1, y, upto),
    decreases upto,
{
    if upto > 0 {
        lemma_row_unvisited_rel(r1, r2, y, upto - 1, qx, qy);
        if upto - 1 != qx || y != qy {
            assert(r2.at(upto - 1, y).visited == r1.at(upto - 1, y).visited);
        }
    }
}

proof fn lemma_grid_unvisited_rel(
    r1: Arr2d<RoomCell>,
    r2: Arr2d<RoomCell>,
    upto_y: int,
    qx: int,
    qy: int,
)
    requires
        r1.spec_width() == r2.spec_width(),
        forall|i: int, j: int|
            0 <= i < r1.spec_width() && 0 <= j < upto_y && (i != qx || j != qy)
                ==> #[trigger] r2.at(i, j).visited == r1.at(i, j).visited,
    ensures
        (r1.at(qx, qy).visited == r2.at(qx, qy).visited) ==> grid_unvisited(r2, upto_y)
            == grid_unvisited(r1, upto_y),
        (!(0 <= qy < upto_y) || !(0 <= qx < r1.spec_width())) ==> grid_unvisited(r2, upto_y)
            == grid_unvisited(r1, upto_y),
        (0 <= qy < upto_y && 0 <= qx < r1.spec_width() && !r1.at(qx, qy).visited && r2.at(
            qx,
            qy,
        ).visited) ==> grid_unvisited(r2, upto_y) + 1 == grid_unvisited(r1, upto_y),
    decreases upto_y,
{
    if upto_y > 0 {
        lemma_grid_unvisited_rel(r1, r2, upto_y - 1, qx, qy);
        lemma_row_unvisited_rel(r1, r2, upto_y - 1, r1.spec_width() as int, qx, qy);
    }
}

/// The separators between adjacent room-graph cells of a `dx` by `dy`
/// grid, as one edge map: `hor` holds the edge between `(x, y)` and
/// `(x, y + 1)`, `vert` the edge between `(x, y)` and `(x + 1, y)`.
pub struct SepGrid {
    hor: Arr2d<Separator>,
    vert: Arr2d<Separator>,
}

impl SepGrid {
    pub closed spec fn wf_for(self, dx: int, dy: int) -> bool {
        &&& self.hor.wf()
        &&& self.hor.spec_width() == dx
        &&& self.hor.spec_height() == dy - 1
        &&& self.vert.wf()
        &&& self.vert.spec_width() == dx - 1
        &&& self.vert.spec_height() == dy
    }

    /// The edge between `(x, y)` and `(x, y + 1)`.
    pub closed spec fn spec_hor(self, x: int, y: int) -> Separator {
        self.hor.at(x, y)
    }

    /// The edge between `(x, y)` and `(x + 1, y)`.
    pub closed spec fn spec_vert(self, x: int, y: int) -> Separator {
        self.vert.at(x, y)
    }

    /// The edge between two adjacent cells, whichever way round they
    /// are given.
    pub open spec fn spec_between(self, ax: int, ay: int, bx: int, by: int) -> Separator {
        if bx == ax + 1 && by == ay {
            self.spec_vert(ax, ay)
        } else if bx == ax - 1 && by == ay {
            self.spec_vert(bx, by)
        } else if bx == ax && by == ay + 1 {
            self.spec_hor(ax, ay)
        } else {
            self.spec_hor(bx, by)
        }
    }

    /// Every separator of a fresh grid is an uncarved wall.
    pub fn new(dx: u32, dy: u32) -> (r: SepGrid)
        requires
            1 <= dx <= 1000,
            1 <= dy <= 1000,
        ensures
            r.wf_for(dx as int, dy as int),
            forall|x: int, y: int|
                0 <= x < dx && 0 <= y < dy - 1 ==> #[trigger] r.spec_hor(x, y)
                    == Separator::Wall,
            forall|x: int, y: int|
                0 <= x < dx - 1 && 0 <= y < dy ==> #[trigger] r.spec_vert(x, y)
                    == Separator::Wall,
    {
        proof {
            assert(dx * (dy - 1) <= u32::MAX && (dx - 1) * dy <= u32::MAX) by (nonlinear_arith)
                requires
                    1 <= dx <= 1000,
                    1 <= dy <= 1000,
            ;
        }
        SepGrid {
            hor: Arr2d::new(dx, dy - 1, Separator::Wall),
            vert: Arr2d::new(dx - 1, dy, Separator::Wall),
        }
    }

    pub fn get_between(&self, a: Pos, b: Pos, dx: u32, dy: u32) -> (r: Separator)
        requires
            self.wf_for(dx as int, dy as int),
            dx <= 1000,
            dy <= 1000,
            adjacent4(a.x as int, a.y as int, b.x as int, b.y as int),
            0 <= a.x < dx,
            0 <= a.y < dy,
            0 <= b.x < dx,
            0 <= b.y < dy,
        ensures
            r == self.spec_between(a.x as int, a.y as int, b.x as int, b.y as int),
    {
        if b.x == a.x + 1 && b.y == a.y {
            *self.vert.get_unsafe(a.x as u32, a.y as u32)
        } else if b.x == a.x - 1 && b.y == a.y {
            *self.vert.get_unsafe(b.x as u32, b.y as u32)
        } else if b.x == a.x && b.y == a.y + 1 {
            *self.hor.get_unsafe(a.x as u32, a.y as u32)
        } else {
            *self.hor.get_unsafe(b.x as u32, b.y as u32)
        }
    }

    pub fn set_between(&mut self, a: Pos, b: Pos, dx: u32, dy: u32, s: Separator)
        requires
            old(self).wf_for(dx as int, dy as int),
            dx <= 1000,
            dy <= 1000,
            adjacent4(a.x as int, a.y as int, b.x as int, b.y as int),
            0 <= a.x < dx,
            0 <= a.y < dy,
            0 <= b.x < dx,
            0 <= b.y < dy,
        ensures
            final(self).wf_for(dx as int, dy as int),
            final(self).spec_between(a.x as int, a.y as int, b.x as int, b.y as int) == s,
            forall|x: int, y: int|
                !(b.y == a.y && ((x == a.x && b.x == a.x + 1 && y == a.y) || (x == b.x && b.x
                    == a.x - 1 && y == a.y))) && 0 <= x < dx - 1 && 0 <= y < dy
                    ==> #[trigger] final(self).spec_vert(x, y) == old(self).spec_vert(x, y),
            forall|x: int, y: int|
                !(b.x == a.x && ((y == a.y && b.y == a.y + 1 && x == a.x) || (y == b.y && b.y
                    == a.y - 1 && x == a.x))) && 0 <= x < dx && 0 <= y < dy - 1
                    ==> #[trigger] final(self).spec_hor(x, y) == old(self).spec_hor(x, y),
    {
        if b.x == a.x + 1 && b.y == a.y {
            self.vert.set(a.x, a.y, s);
        } else if b.x == a.x - 1 && b.y == a.y {
            self.vert.set(b.x, b.y, s);
        } else if b.x == a.x && b.y == a.y + 1 {
            self.hor.set(a.x, a.y, s);
        } else {
            self.hor.set(b.x, b.y, s);
        }
    }
}


/// The top of the carve stack.
pub open spec fn stack_top(s: Seq<Pos>) -> Pos {
    s[s.len() - 1]
}

/// Whether some stack entry holds the coordinates `(x, y)`.
pub open spec fn on_stack(s: Seq<Pos>, x: int, y: int) -> bool {
    exists|k: int| 0 <= k < s.len() && (#[trigger] s[k]).x == x && s[k].y == y
}

/// Connectivity through carved separators: whether `(x, y)` can be
/// reached from `(sx, sy)` in at most `n` hops, each hop crossing an
/// edge whose separator has been carved open.
pub open spec fn carved_reach_n(
    w: SepGrid,
    dx: int,
    dy: int,
    sx: int,
    sy: int,
    x: int,
    y: int,
    n: nat,
) -> bool
    decreases n,
{
    if x == sx && y == sy {
        true
    } else if n == 0 {
        false
    } else {
        0 <= x < dx && 0 <= y < dy && ((0 <= x - 1 && w.spec_between(x - 1, y, x, y)
            == Separator::Nothing && carved_reach_n(w, dx, dy, sx, sy, x - 1, y, (n - 1) as nat))
            || (x + 1 < dx && w.spec_between(x + 1, y, x, y) == Separator::Nothing
            && carved_reach_n(w, dx, dy, sx, sy, x + 1, y, (n - 1) as nat)) || (0 <= y - 1
            && w.spec_between(x, y - 1, x, y) == Separator::Nothing && carved_reach_n(
            w, dx, dy, sx, sy, x, y - 1, (n - 1) as nat)) || (y + 1 < dy && w.spec_between(
            x, y + 1, x, y) == Separator::Nothing && carved_reach_n(w, dx, dy, sx, sy, x, y
            + 1, (n - 1) as nat)))
    }
}

/// Whether `(x, y)` is connected to the start through carved edges.
pub open spec fn carved_connected(
    w: SepGrid,
    dx: int,
    dy: int,
    sx: int,
    sy: int,
    x: int,
    y: int,
) -> bool {
    exists|n: nat| carved_reach_n(w, dx, dy, sx, sy, x, y, n)
}

/// Crossing one more carved edge keeps a cell connected.
proof fn lemma_carved_step(
    w: SepGrid,
    dx: int,
    dy: int,
    sx: int,
    sy: int,
    ax: int,
    ay: int,
    bx: int,
    by: int,
)
    requires
        carved_connected(w, dx, dy, sx, sy, ax, ay),
        adjacent4(ax, ay, bx, by),
        0 <= ax < dx,
        0 <= ay < dy,
        0 <= bx < dx,
        0 <= by < dy,
        w.spec_between(ax, ay, bx, by) == Separator::Nothing,
    ensures
        carved_connected(w, dx, dy, sx, sy, bx, by),
{
    let n = choose|n: nat| carved_reach_n(w, dx, dy, sx, sy, ax, ay, n);
    if !(bx == sx && by == sy) {
        assert(((n + 1) - 1) as nat == n);
        assert(carved_reach_n(w, dx, dy, sx, sy, bx, by, n + 1));
    } else {
        assert(carved_reach_n(w, dx, dy, sx, sy, bx, by, 0));
    }
}

/// Carving more edges never disconnects a cell.
proof fn lemma_carved_mono(
    w1: SepGrid,
    w2: SepGrid,
    dx: int,
    dy: int,
    sx: int,
    sy: int,
    x: int,
    y: int,
    n: nat,
)
    requires
        forall|ax: int, ay: int, bx: int, by: int|
            adjacent4(ax, ay, bx, by) && 0 <= ax < dx && 0 <= ay < dy && 0 <= bx < dx && 0
                <= by < dy && #[trigger] w1.spec_between(ax, ay, bx, by)
                == Separator::Nothing ==> w2.spec_between(ax, ay, bx, by)
                == Separator::Nothing,
        carved_reach_n(w1, dx, dy, sx, sy, x, y, n),
    ensures
        carved_reach_n(w2, dx, dy, sx, sy, x, y, n),
    decreases n,
{
    if !(x == sx && y == sy) && n > 0 {
        if 0 <= x - 1 && w1.spec_between(x - 1, y, x, y) == Separator::Nothing
            && carved_reach_n(w1, dx, dy, sx, sy, x - 1, y, (n - 1) as nat) {
            assert(adjacent4(x - 1, y, x, y));
            lemma_carved_mono(w1, w2, dx, dy, sx, sy, x - 1, y, (n - 1) as nat);
        } else if x + 1 < dx && w1.spec_between(x + 1, y, x, y) == Separator::Nothing
            && carved_reach_n(w1, dx, dy, sx, sy, x + 1, y, (n - 1) as nat) {
            assert(adjacent4(x + 1, y, x, y));
            lemma_carved_mono(w1, w2, dx, dy, sx, sy, x + 1, y, (n - 1) as nat);
        } else if 0 <= y - 1 && w1.spec_between(x, y - 1, x, y) == Separator::Nothing
            && carved_reach_n(w1, dx, dy, sx, sy, x, y - 1, (n - 1) as nat) {
            assert(adjacent4(x, y - 1, x, y));
            lemma_carved_mono(w1, w2, dx, dy, sx, sy, x, y - 1, (n - 1) as nat);
        } else {
            assert(adjacent4(x, y + 1, x, y));
            lemma_carved_mono(w1, w2, dx, dy, sx, sy, x, y + 1, (n - 1) as nat);
        }
    }
}

/// One iteration of the randomized depth-first carve.  If the stack
/// top has an admissible unvisited neighbor, one is chosen at random,
/// marked visited and pushed, the separator on the crossed edge is
/// cleared, and the top itself turns into interior corridors with
/// probability one in five.  A dead-end top is popped and everything
/// else is left untouched, so generation backtracks and continues from
/// the new top.
pub fn carve_step<R: RandomSource>(
    rooms: &mut Arr2d<RoomCell>,
    walls: &mut SepGrid,
    stack: &mut Vec<Pos>,
    rng: &mut R,
)
    requires
        old(rooms).wf(),
        1 <= old(rooms).spec_width() <= 1000,
        1 <= old(rooms).spec_height() <= 1000,
        old(walls).wf_for(old(rooms).spec_width() as int, old(rooms).spec_height() as int),
        old(stack)@.len() >= 1,
        forall|k: int|
            0 <= k < old(stack)@.len() ==> old(rooms).in_bounds(
                (#[trigger] old(stack)@[k]).x as int,
                old(stack)@[k].y as int,
            ),
    ensures
        final(rooms).wf(),
        final(rooms).spec_width() == old(rooms).spec_width(),
        final(rooms).spec_height() == old(rooms).spec_height(),
        final(walls).wf_for(old(rooms).spec_width() as int, old(rooms).spec_height() as int),
        !has_open_neighbor(
            *old(rooms),
            stack_top(old(stack)@).x as int,
            stack_top(old(stack)@).y as int,
        ) ==> final(stack)@ == old(stack)@.drop_last() && *final(rooms) == *old(rooms)
            && *final(walls) == *old(walls),
        has_open_neighbor(
            *old(rooms),
            stack_top(old(stack)@).x as int,
            stack_top(old(stack)@).y as int,
        ) ==> final(stack)@.len() == old(stack)@.len() + 1 && final(stack)@ == old(stack)@.push(stack_top(final(stack)@)) && open_neighbor(
            *old(rooms),
            stack_top(old(stack)@).x as int,
            stack_top(old(stack)@).y as int,
            stack_top(final(stack)@).x as int,
            stack_top(final(stack)@).y as int,
        ) && (forall|i: int, j: int|
            old(rooms).in_bounds(i, j) && (i != stack_top(final(stack)@).x || j != stack_top(
                final(stack)@,
            ).y) && (i != stack_top(old(stack)@).x || j != stack_top(old(stack)@).y)
                ==> #[trigger] final(rooms).at(i, j) == old(rooms).at(i, j)) && final(rooms).at(stack_top(final(stack)@).x as int, stack_top(final(stack)@).y as int).kind == old(rooms).at(stack_top(final(stack)@).x as int, stack_top(final(stack)@).y as int).kind
            && final(rooms).at(
            stack_top(final(stack)@).x as int,
            stack_top(final(stack)@).y as int,
        ).visited && final(rooms).at(
            stack_top(old(stack)@).x as int,
            stack_top(old(stack)@).y as int,
        ).visited == old(rooms).at(
            stack_top(old(stack)@).x as int,
            stack_top(old(stack)@).y as int,
        ).visited && (final(rooms).at(
            stack_top(old(stack)@).x as int,
            stack_top(old(stack)@).y as int,
        ).kind == old(rooms).at(
            stack_top(old(stack)@).x as int,
            stack_top(old(stack)@).y as int,
        ).kind || final(rooms).at(
            stack_top(old(stack)@).x as int,
            stack_top(old(stack)@).y as int,
        ).kind == CellType::Corridors) && final(walls).spec_between(
            stack_top(old(stack)@).x as int,
            stack_top(old(stack)@).y as int,
            stack_top(final(stack)@).x as int,
            stack_top(final(stack)@).y as int,
        ) == Separator::Nothing,
        has_open_neighbor(
            *old(rooms),
            stack_top(old(stack)@).x as int,
            stack_top(old(stack)@).y as int,
        ) ==> (forall|ax: int, ay: int, bx: int, by: int|
            adjacent4(ax, ay, bx, by) && 0 <= ax < old(rooms).spec_width() && 0 <= ay < old(
                rooms).spec_height() && 0 <= bx < old(rooms).spec_width() && 0 <= by < old(
                rooms).spec_height() && !(ax == stack_top(old(stack)@).x && ay == stack_top(
                old(stack)@).y && bx == stack_top(final(stack)@).x && by == stack_top(
                final(stack)@).y) && !(ax == stack_top(final(stack)@).x && ay == stack_top(
                final(stack)@).y && bx == stack_top(old(stack)@).x && by == stack_top(
                old(stack)@).y) ==> #[trigger] final(walls).spec_between(ax, ay, bx, by)
                == old(walls).spec_between(ax, ay, bx, by)),
{
    proof {
        rooms.lemma_wf_dims();
    }
    let dx = rooms.width();
    let dy = rooms.height();
    let top = stack[stack.len() - 1];
    match pick_random_neighbor(top, rooms, rng) {
        Some(q) => {
            if rng.pick(5) == 0 {
                let mut cell = *rooms.get_unsafe(top.x as u32, top.y as u32);
                cell.kind = CellType::Corridors;
                rooms.set(top.x, top.y, cell);
            }
            stack.push(q);
            let mut qc = *rooms.get_unsafe(q.x as u32, q.y as u32);
            qc.visited = true;
            rooms.set(q.x, q.y, qc);
            walls.set_between(top, q, dx, dy, Separator::Nothing);
            proof {
                assert forall|ax: int, ay: int, bx: int, by: int|
                    adjacent4(ax, ay, bx, by) && 0 <= ax < dx && 0 <= ay < dy && 0 <= bx < dx
                        && 0 <= by < dy && !(ax == top.x && ay == top.y && bx == q.x && by
                        == q.y) && !(ax == q.x && ay == q.y && bx == top.x && by == top.y)
                        implies #[trigger] walls.spec_between(ax, ay, bx, by) == old(
                        walls).spec_between(ax, ay, bx, by) by {
                    if bx == ax + 1 && by == ay {
                        assert(walls.spec_vert(ax, ay) == old(walls).spec_vert(ax, ay));
                    } else if bx == ax - 1 && by == ay {
                        assert(walls.spec_vert(bx, by) == old(walls).spec_vert(bx, by));
                    } else if bx == ax && by == ay + 1 {
                        assert(walls.spec_hor(ax, ay) == old(walls).spec_hor(ax, ay));
                    } else {
                        assert(walls.spec_hor(bx, by) == old(walls).spec_hor(bx, by));
                    }
                }
            }
        },
        None => {
            let _popped = stack.pop();
        },
    }
}

/// Reaching a cell under the carve rule never gets harder: a cell
/// that is void now was already void when the carve began.
proof fn lemma_carve_closure(
    rooms0: Arr2d<RoomCell>,
    cur: Arr2d<RoomCell>,
    sx: int,
    sy: int,
    x: int,
    y: int,
    n: nat,
)
    requires
        rooms0.in_bounds(sx, sy),
        rooms0.spec_width() == cur.spec_width(),
        rooms0.spec_height() == cur.spec_height(),
        forall|a: int, b: int, c: int, d: int|
            rooms0.in_bounds(a, b) && (cur.at(a, b).visited || (a == sx && b == sy))
                && #[trigger] adjacent4(a, b, c, d) && admissible(rooms0, c, d) ==> cur.at(
                c,
                d,
            ).visited,
    ensures
        reach_n(rooms0, sx, sy, x, y, n) ==> ((x == sx && y == sy) || cur.at(x, y).visited),
    decreases n,
{
    reveal_with_fuel(reach_n, 2);
    if reach_n(rooms0, sx, sy, x, y, n) && !(x == sx && y == sy) {
        if reach_n(rooms0, sx, sy, x - 1, y, (n - 1) as nat) {
            lemma_carve_closure(rooms0, cur, sx, sy, x - 1, y, (n - 1) as nat);
            assert((x - 1 == sx && y == sy) || admissible(rooms0, x - 1, y));
            assert(adjacent4(x - 1, y, x, y));
        } else if reach_n(rooms0, sx, sy, x + 1, y, (n - 1) as nat) {
            lemma_carve_closure(rooms0, cur, sx, sy, x + 1, y, (n - 1) as nat);
            assert((x + 1 == sx && y == sy) || admissible(rooms0, x + 1, y));
            assert(adjacent4(x + 1, y, x, y));
        } else if reach_n(rooms0, sx, sy, x, y - 1, (n - 1) as nat) {
            lemma_carve_closure(rooms0, cur, sx, sy, x, y - 1, (n - 1) as nat);
            assert((x == sx && y - 1 == sy) || admissible(rooms0, x, y - 1));
            assert(adjacent4(x, y - 1, x, y));
        } else {
            lemma_carve_closure(rooms0, cur, sx, sy, x, y + 1, (n - 1) as nat);
            assert((x == sx && y + 1 == sy) || admissible(rooms0, x, y + 1));
            assert(adjacent4(x, y + 1, x, y));
        }
    }
}

/// The randomized depth-first carve, run to completion from `start`:
/// when it finishes, every cell reachable from the start under the
/// carve rule has been visited, whatever the random source chose.
pub fn carve<R: RandomSource>(
    rooms: &mut Arr2d<RoomCell>,
    walls: &mut SepGrid,
    start: Pos,
    rng: &mut R,
)
    requires
        old(rooms).wf(),
        1 <= old(rooms).spec_width() <= 1000,
        1 <= old(rooms).spec_height() <= 1000,
        old(walls).wf_for(old(rooms).spec_width() as int, old(rooms).spec_height() as int),
        old(rooms).in_bounds(start.x as int, start.y as int),
        forall|i: int, j: int|
            old(rooms).in_bounds(i, j) ==> !(#[trigger] old(rooms).at(i, j)).visited,
        forall|ax: int, ay: int, bx: int, by: int|
            adjacent4(ax, ay, bx, by) && old(rooms).in_bounds(ax, ay) && old(
                rooms).in_bounds(bx, by) ==> #[trigger] old(walls).spec_between(ax, ay, bx,
            by) == Separator::Wall,
    ensures
        final(rooms).wf(),
        final(rooms).spec_width() == old(rooms).spec_width(),
        final(rooms).spec_height() == old(rooms).spec_height(),
        final(walls).wf_for(old(rooms).spec_width() as int, old(rooms).spec_height() as int),
        forall|x: int, y: int|
            reachable(*old(rooms), start.x as int, start.y as int, x, y) && admissible(
                *old(rooms),
                x,
                y,
            ) && !(x == start.x && y == start.y) ==> (#[trigger] final(rooms).at(x, y)).visited,
        forall|x: int, y: int|
            old(rooms).in_bounds(x, y) && (#[trigger] final(rooms).at(x, y)).visited ==> (
            admissible(*old(rooms), x, y) && reachable(*old(rooms), start.x as int,
                start.y as int, x, y)) || (x == start.x && y == start.y),
        forall|x: int, y: int|
            old(rooms).in_bounds(x, y) ==> (#[trigger] final(rooms).at(x, y)).kind == old(
                rooms).at(x, y).kind || (final(rooms).at(x, y).kind == CellType::Corridors
                && (final(rooms).at(x, y).visited || (x == start.x && y == start.y))),
        forall|ax: int, ay: int, bx: int, by: int|
            adjacent4(ax, ay, bx, by) && old(rooms).in_bounds(ax, ay) && old(
                rooms).in_bounds(bx, by) && (#[trigger] final(walls).spec_between(ax, ay, bx,
            by)) != old(walls).spec_between(ax, ay, bx, by) ==> final(walls).spec_between(
                ax, ay, bx, by) == Separator::Nothing && (final(rooms).at(ax, ay).visited || (
            ax == start.x && ay == start.y)) && (final(rooms).at(bx, by).visited || (bx
                == start.x && by == start.y)),
        forall|x: int, y: int|
            old(rooms).in_bounds(x, y) && (#[trigger] final(rooms).at(x, y)).visited
                ==> carved_connected(
                *final(walls),
                old(rooms).spec_width() as int,
                old(rooms).spec_height() as int,
                start.x as int,
                start.y as int,
                x,
                y,
            ),
{
    let ghost rooms0 = *rooms;
    let ghost walls0 = *walls;
    let ghost sx = start.x as int;
    let ghost sy = start.y as int;
    let mut stack: Vec<Pos> = Vec::new();
    stack.push(start);
    proof {
        assert(stack@[0] == start);
        assert(on_stack(stack@, sx, sy));
    }
    while stack.len() > 0
        invariant
            rooms.wf(),
            rooms.spec_width() == rooms0.spec_width(),
            rooms.spec_height() == rooms0.spec_height(),
            1 <= rooms0.spec_width() <= 1000,
            1 <= rooms0.spec_height() <= 1000,
            walls.wf_for(rooms0.spec_width() as int, rooms0.spec_height() as int),
            rooms0.in_bounds(sx, sy),
            sx == start.x as int,
            sy == start.y as int,
            forall|k: int|
                0 <= k < stack@.len() ==> rooms0.in_bounds(
                    (#[trigger] stack@[k]).x as int,
                    stack@[k].y as int,
                ),
            forall|k: int|
                0 <= k < stack@.len() ==> (rooms.at(
                    (#[trigger] stack@[k]).x as int,
                    stack@[k].y as int,
                ).visited || stack@[k] == start),
            forall|i: int, j: int|
                rooms0.in_bounds(i, j) && (#[trigger] rooms.at(i, j)).kind == CellType::Nothing
                    ==> rooms0.at(i, j).kind == CellType::Nothing,
            forall|i: int, j: int|
                rooms0.in_bounds(i, j) && (#[trigger] rooms.at(i, j)).visited ==> (
                admissible(rooms0, i, j) && reachable(rooms0, sx, sy, i, j)) || (i == sx && j
                    == sy),
            forall|i: int, j: int|
                rooms0.in_bounds(i, j) ==> (#[trigger] rooms.at(i, j)).kind == rooms0.at(
                    i, j).kind || (rooms.at(i, j).kind == CellType::Corridors && (rooms.at(
                    i, j).visited || (i == sx && j == sy))),
            forall|ax: int, ay: int, bx: int, by: int|
                adjacent4(ax, ay, bx, by) && rooms0.in_bounds(ax, ay) && rooms0.in_bounds(
                    bx, by) && (#[trigger] walls.spec_between(ax, ay, bx, by))
                    != walls0.spec_between(ax, ay, bx, by) ==> walls.spec_between(ax, ay, bx,
                by) == Separator::Nothing && (rooms.at(ax, ay).visited || (ax == sx && ay
                    == sy)) && (rooms.at(bx, by).visited || (bx == sx && by == sy)),
            forall|i: int, j: int|
                rooms0.in_bounds(i, j) && (#[trigger] rooms.at(i, j)).visited
                    ==> carved_connected(
                    *walls,
                    rooms0.spec_width() as int,
                    rooms0.spec_height() as int,
                    sx,
                    sy,
                    i,
                    j,
                ),
            forall|a: int, b: int, c: int, d: int|
                rooms0.in_bounds(a, b) && (rooms.at(a, b).visited || (a == sx && b == sy))
                    && !on_stack(stack@, a, b) && #[trigger] adjacent4(a, b, c, d)
                    && admissible(rooms0, c, d) ==> rooms.at(c, d).visited,
        decreases count_unvisited(*rooms), stack@.len(),
    {
        let ghost pr = *rooms;
        let ghost pr_walls = *walls;
        let ghost ps = stack@;
        let ghost top = stack_top(ps);
        carve_step(rooms, walls, &mut stack, rng);
        proof {
            if has_open_neighbor(pr, top.x as int, top.y as int) {
                let q = stack_top(stack@);
                assert(open_neighbor(pr, top.x as int, top.y as int, q.x as int, q.y as int));
                lemma_grid_unvisited_rel(
                    pr,
                    *rooms,
                    pr.spec_height() as int,
                    q.x as int,
                    q.y as int,
                );
                assert(count_unvisited(*rooms) < count_unvisited(pr));
                assert forall|a: int, b: int, c: int, d: int|
                    rooms0.in_bounds(a, b) && (rooms.at(a, b).visited || (a == sx && b == sy))
                        && !on_stack(stack@, a, b) && #[trigger] adjacent4(a, b, c, d)
                        && admissible(rooms0, c, d) implies rooms.at(c, d).visited by {
                    assert(!on_stack(ps, a, b)) by {
                        if on_stack(ps, a, b) {
                            let k = choose|k: int|
                                0 <= k < ps.len() && (#[trigger] ps[k]).x == a && ps[k].y == b;
                            assert(stack@[k] == ps[k]);
                        }
                    }
                    assert(a != q.x || b != q.y) by {
                        if a == q.x && b == q.y {
                            assert(stack@[stack@.len() - 1] == q);
                        }
                    }
                    assert(pr.at(a, b).visited || (a == sx && b == sy));
                    assert(pr.at(c, d).visited);
                    assert(rooms.at(c, d).visited) by {
                        if (c != q.x || d != q.y) && (c != top.x || d != top.y) {
                            assert(rooms.at(c, d) == pr.at(c, d));
                        }
                    }
                }
                assert(ps[ps.len() - 1] == top);
                assert(pr.at(top.x as int, top.y as int).visited || top == start);
                assert forall|i: int, j: int|
                    rooms0.in_bounds(i, j) && (#[trigger] rooms.at(i, j)).visited implies (
                    admissible(rooms0, i, j) && reachable(rooms0, sx, sy, i, j)) || (i == sx
                        && j == sy) by {
                    if i == q.x && j == q.y {
                        if !(i == sx && j == sy) {
                            assert(admissible(pr, i, j) && !pr.at(i, j).visited);
                            assert(admissible(rooms0, i, j)) by {
                                assert(pr.at(i, j).kind == rooms0.at(i, j).kind || (pr.at(
                                    i, j).kind == CellType::Corridors && (pr.at(i, j).visited
                                    || (i == sx && j == sy))));
                            }
                            assert(reachable(rooms0, sx, sy, top.x as int, top.y as int)) by {
                                if top == start {
                                    assert(reach_n(rooms0, sx, sy, sx, sy, 0));
                                } else {
                                    assert(pr.at(top.x as int, top.y as int).visited);
                                }
                            }
                            lemma_reach_step(rooms0, sx, sy, top.x as int, top.y as int, i,
                                j);
                        }
                    } else {
                        assert(pr.at(i, j).visited) by {
                            if i != top.x || j != top.y {
                                assert(rooms.at(i, j) == pr.at(i, j));
                            }
                        }
                    }
                }
                assert forall|i: int, j: int| rooms0.in_bounds(i, j) implies (
                #[trigger] rooms.at(i, j)).kind == rooms0.at(i, j).kind || (rooms.at(
                    i, j).kind == CellType::Corridors && (rooms.at(i, j).visited || (i == sx
                    && j == sy))) by {
                    if i == top.x && j == top.y {
                        assert(pr.at(i, j).visited || top == start);
                    } else if i == q.x && j == q.y {
                        assert(rooms.at(i, j).kind == pr.at(i, j).kind && rooms.at(
                            i, j).visited);
                    } else {
                        assert(rooms.at(i, j) == pr.at(i, j));
                    }
                }
                assert forall|ax: int, ay: int, bx: int, by: int|
                    adjacent4(ax, ay, bx, by) && rooms0.in_bounds(ax, ay)
                        && rooms0.in_bounds(bx, by) && (#[trigger] walls.spec_between(ax, ay,
                    bx, by)) != walls0.spec_between(ax, ay, bx, by)
                        implies walls.spec_between(ax, ay, bx, by) == Separator::Nothing && (
                    rooms.at(ax, ay).visited || (ax == sx && ay == sy)) && (rooms.at(bx,
                        by).visited || (bx == sx && by == sy)) by {
                    let carved = (ax == top.x && ay == top.y && bx == q.x && by == q.y) || (
                    ax == q.x && ay == q.y && bx == top.x && by == top.y);
                    if carved {
                        assert(walls.spec_between(ax, ay, bx, by) == Separator::Nothing);
                        assert(rooms.at(top.x as int, top.y as int).visited || top == start);
                        assert(rooms.at(q.x as int, q.y as int).visited);
                    } else {
                        assert(walls.spec_between(ax, ay, bx, by) == pr_walls.spec_between(
                            ax, ay, bx, by));
                        assert((rooms.at(ax, ay).visited || (ax == sx && ay == sy)) && (
                        rooms.at(bx, by).visited || (bx == sx && by == sy))) by {
                            assert(pr_walls.spec_between(ax, ay, bx, by)
                                != walls0.spec_between(ax, ay, bx, by));
                            assert(pr.at(ax, ay).visited || (ax == sx && ay == sy));
                            assert(pr.at(bx, by).visited || (bx == sx && by == sy));
                            assert(rooms.at(ax, ay).visited || (ax == sx && ay == sy)) by {
                                if (ax != q.x || ay != q.y) && (ax != top.x || ay != top.y) {
                                    assert(rooms.at(ax, ay) == pr.at(ax, ay));
                                }
                            }
                            assert(rooms.at(bx, by).visited || (bx == sx && by == sy)) by {
                                if (bx != q.x || by != q.y) && (bx != top.x || by != top.y) {
                                    assert(rooms.at(bx, by) == pr.at(bx, by));
                                }
                            }
                        }
                    }
                }
                assert forall|ax: int, ay: int, bx: int, by: int|
                    adjacent4(ax, ay, bx, by) && 0 <= ax < rooms0.spec_width() && 0 <= ay
                        < rooms0.spec_height() && 0 <= bx < rooms0.spec_width() && 0 <= by
                        < rooms0.spec_height() && #[trigger] pr_walls.spec_between(ax, ay,
                    bx, by) == Separator::Nothing implies walls.spec_between(ax, ay, bx, by)
                        == Separator::Nothing by {
                    if !((ax == top.x && ay == top.y && bx == q.x && by == q.y) || (ax == q.x
                        && ay == q.y && bx == top.x && by == top.y)) {
                        assert(walls.spec_between(ax, ay, bx, by) == pr_walls.spec_between(
                            ax, ay, bx, by));
                    } else {
                        assert(walls.spec_between(ax, ay, bx, by) == Separator::Nothing);
                    }
                }
                assert forall|i: int, j: int|
                    rooms0.in_bounds(i, j) && (#[trigger] rooms.at(i, j)).visited
                        implies carved_connected(
                    *walls,
                    rooms0.spec_width() as int,
                    rooms0.spec_height() as int,
                    sx,
                    sy,
                    i,
                    j,
                ) by {
                    let w = rooms0.spec_width() as int;
                    let h = rooms0.spec_height() as int;
                    if i == q.x && j == q.y {
                        assert(carved_connected(*walls, w, h, sx, sy, top.x as int,
                            top.y as int)) by {
                            if top == start {
                                assert(carved_reach_n(*walls, w, h, sx, sy, sx, sy, 0));
                            } else {
                                assert(pr.at(top.x as int, top.y as int).visited);
                                let n0 = choose|n: nat|
                                    carved_reach_n(pr_walls, w, h, sx, sy, top.x as int,
                                        top.y as int, n);
                                lemma_carved_mono(pr_walls, *walls, w, h, sx, sy,
                                    top.x as int, top.y as int, n0);
                            }
                        }
                        assert(walls.spec_between(top.x as int, top.y as int, i, j)
                            == Separator::Nothing);
                        lemma_carved_step(*walls, w, h, sx, sy, top.x as int, top.y as int,
                            i, j);
                    } else {
                        assert(pr.at(i, j).visited) by {
                            if i != top.x || j != top.y {
                                assert(rooms.at(i, j) == pr.at(i, j));
                            }
                        }
                        let n0 = choose|n: nat| carved_reach_n(pr_walls, w, h, sx, sy, i, j,
                            n);
                        lemma_carved_mono(pr_walls, *walls, w, h, sx, sy, i, j, n0);
                    }
                }
            } else {
                assert(stack@ == ps.drop_last());
                assert(count_unvisited(*rooms) == count_unvisited(pr));
                assert forall|a: int, b: int, c: int, d: int|
                    rooms0.in_bounds(a, b) && (rooms.at(a, b).visited || (a == sx && b == sy))
                        && !on_stack(stack@, a, b) && #[trigger] adjacent4(a, b, c, d)
                        && admissible(rooms0, c, d) implies rooms.at(c, d).visited by {
                    if on_stack(ps, a, b) {
                        let k = choose|k: int|
                            0 <= k < ps.len() && (#[trigger] ps[k]).x == a && ps[k].y == b;
                        assert(k == ps.len() - 1) by {
                            if k < ps.len() - 1 {
                                assert(stack@[k] == ps[k]);
                            }
                        }
                        assert(a == top.x && b == top.y);
                        assert(!open_neighbor(pr, top.x as int, top.y as int, c, d));
                        assert(admissible(pr, c, d)) by {
                            assert(rooms0.at(c, d).kind != CellType::Nothing);
                            assert(rooms0.in_bounds(c, d));
                        }
                    }
                }
            }
        }
    }
    proof {
        assert forall|x: int, y: int|
            reachable(rooms0, sx, sy, x, y) && admissible(rooms0, x, y) && !(x == sx && y
                == sy) implies (#[trigger] rooms.at(x, y)).visited by {
            let n = choose|n: nat| reach_n(rooms0, sx, sy, x, y, n);
            lemma_carve_closure(rooms0, *rooms, sx, sy, x, y, n);
        }
    }
}

/// The candidates the carve chooses among at `p`, in fixed order:
/// the admissible unvisited neighbors to the right, left, below and
/// above, in that order.
pub open spec fn neighbor_candidates(rooms: Arr2d<RoomCell>, px: int, py: int) -> Seq<Pos> {
    maybe_candidate(rooms, px, py, px + 1, py) + maybe_candidate(rooms, px, py, px - 1, py)
        + maybe_candidate(rooms, px, py, px, py + 1) + maybe_candidate(
        rooms,
        px,
        py,
        px,
        py - 1,
    )
}

/// A one-element list when `(mx, my)` is open to the carve, else empty.
pub open spec fn maybe_candidate(
    rooms: Arr2d<RoomCell>,
    px: int,
    py: int,
    mx: int,
    my: int,
) -> Seq<Pos> {
    if open_neighbor(rooms, px, py, mx, my) {
        seq![Pos { x: mx as i32, y: my as i32 }]
    } else {
        Seq::empty()
    }
}

/// Picks an admissible unvisited neighbor of `p` uniformly at random,
/// or `None` when `p` is a dead end: the draw selects one entry of
/// [`neighbor_candidates`].
pub fn pick_random_neighbor<R: RandomSource>(
    p: Pos,
    rooms: &Arr2d<RoomCell>,
    rng: &mut R,
) -> (r: Option<Pos>)
    requires
        rooms.wf(),
        rooms.in_bounds(p.x as int, p.y as int),
    ensures
        r is Some <==> has_open_neighbor(*rooms, p.x as int, p.y as int),
        r is Some <==> neighbor_candidates(*rooms, p.x as int, p.y as int).len() > 0,
        r matches Some(q) ==> open_neighbor(*rooms, p.x as int, p.y as int, q.x as int,
            q.y as int),
        r matches Some(q) ==> exists|k: int|
            0 <= k < neighbor_candidates(*rooms, p.x as int, p.y as int).len()
                && #[trigger] neighbor_candidates(*rooms, p.x as int, p.y as int)[k] == q,
{
    proof {
        rooms.lemma_wf_dims();
    }
    let ghost px = p.x as int;
    let ghost py = p.y as int;
    let mut candidates: Vec<Pos> = Vec::new();

    let right = Pos { x: p.x + 1, y: p.y };
    if is_open_cell(rooms, right) {
        candidates.push(right);
    }
    proof {
        assert(candidates@ =~= maybe_candidate(*rooms, px, py, px + 1, py));
    }
    let left = Pos { x: p.x - 1, y: p.y };
    if is_open_cell(rooms, left) {
        candidates.push(left);
    }
    proof {
        assert(candidates@ =~= maybe_candidate(*rooms, px, py, px + 1, py) + maybe_candidate(
            *rooms, px, py, px - 1, py));
    }
    let below = Pos { x: p.x, y: p.y + 1 };
    if is_open_cell(rooms, below) {
        candidates.push(below);
    }
    proof {
        assert(candidates@ =~= maybe_candidate(*rooms, px, py, px + 1, py) + maybe_candidate(
            *rooms, px, py, px - 1, py) + maybe_candidate(*rooms, px, py, px, py + 1));
    }
    let above = Pos { x: p.x, y: p.y - 1 };
    if is_open_cell(rooms, above) {
        candidates.push(above);
    }
    proof {
        assert(candidates@ =~= neighbor_candidates(*rooms, px, py));
    }

    if candidates.len() == 0 {
        proof {
            if has_open_neighbor(*rooms, px, py) {
                let (mx, my): (int, int) = choose|mx: int, my: int|
                    open_neighbor(*rooms, px, py, mx, my);
                assert(mx == px + 1 || mx == px - 1 || my == py + 1 || my == py - 1);
                assert(false);
            }
        }
        None
    } else {
        let chosen = rng.pick(candidates.len() as u32);
        let q = candidates[chosen as usize];
        proof {
            assert(neighbor_candidates(*rooms, px, py)[chosen as int] == q);
            assert(open_neighbor(*rooms, px, py, q.x as int, q.y as int)) by {
                let nc = neighbor_candidates(*rooms, px, py);
                let m1 = maybe_candidate(*rooms, px, py, px + 1, py);
                let m2 = maybe_candidate(*rooms, px, py, px - 1, py);
                let m3 = maybe_candidate(*rooms, px, py, px, py + 1);
                let m4 = maybe_candidate(*rooms, px, py, px, py - 1);
                assert(nc[chosen as int] == q);
                if chosen < m1.len() {
                    assert(q == m1[chosen as int]);
                } else if chosen < m1.len() + m2.len() {
                    assert(q == m2[chosen - m1.len()]);
                } else if chosen < m1.len() + m2.len() + m3.len() {
                    assert(q == m3[chosen - m1.len() - m2.len()]);
                } else {
                    assert(q == m4[chosen - m1.len() - m2.len() - m3.len()]);
                }
            }
        }
        Some(q)
    }
}

/// Whether the carve may step from somewhere into this cell: inside
/// the room graph, not void, and not yet visited.
fn is_open_cell(rooms: &Arr2d<RoomCell>, c: Pos) -> (r: bool)
    requires
        rooms.wf(),
    ensures
        r == (admissible(*rooms, c.x as int, c.y as int) && !rooms.at(
            c.x as int,
            c.y as int,
        ).visited),
{
    match rooms.get(c.x, c.y) {
        Some(cell) => cell.kind != CellType::Nothing && !cell.visited,
        None => false,
    }
}

/// Columns of the coarse room graph.
pub const ROOM_GRID_X: u32 = 4;

/// Rows of the coarse room graph.
pub const ROOM_GRID_Y: u32 = 3;

/// Generates a fresh dungeon: carves the room graph, rasterizes rooms,
/// corridors and doorways onto a tile grid of the standard size, and
/// places items and enemies.  Returns the map, the player's start tile
/// (always a floor tile at the center of a proper room), and the
/// placed items and enemies.
pub fn generate_game_map<R: RandomSource>(rng: &mut R) -> (r: (
    GameMap,
    Pos,
    IncMap<Item>,
    IncMap<Enemy>,
))
    ensures
        r.0.wf(),
        r.0.spec_width() == MAP_SIZE_X,
        r.0.spec_height() == MAP_SIZE_Y,
        r.0.in_bounds(r.1.x as int, r.1.y as int),
        r.0.spec_tile(r.1.x as int, r.1.y as int) == Tile::Floor,
        r.1.x == 2 || r.1.x == 6 || r.1.x == 10 || r.1.x == 14,
        r.1.y == 2 || r.1.y == 6 || r.1.y == 10,
        forall|i: int, j: int|
            r.1.x - 1 <= i <= r.1.x + 1 && r.1.y - 1 <= j <= r.1.y + 1
                ==> #[trigger] r.0.spec_tile(i, j) == Tile::Floor,
        forall|i: int, j: int|
            on_room_border(r.1.x - 1, r.1.y - 1, 3, 3, i, j) ==> #[trigger] r.0.spec_tile(
                i, j) == Tile::Wall || r.0.spec_tile(i, j) == Tile::Floor,
        forall|i: int, j: int|
            r.0.in_bounds(i, j) ==> r.0.spec_fog(i, j) == crate::game_map::Fog::Dark,
        r.2.wf(),
        r.3.wf(),
        r.2.spec_next_id() <= 12,
        r.3.spec_next_id() <= 12,
        forall|k: int|
            0 <= k < r.2.entries().len() ==> r.0.in_bounds(
                (#[trigger] r.2.entries()[k]).1.pos.x as int,
                r.2.entries()[k].1.pos.y as int,
            ),
        forall|k: int|
            0 <= k < r.3.entries().len() ==> r.0.in_bounds(
                (#[trigger] r.3.entries()[k]).1.pos.x as int,
                r.3.entries()[k].1.pos.y as int,
            ),
{
    let player_start = Pos { x: rng.pick(ROOM_GRID_X) as i32, y: rng.pick(ROOM_GRID_Y) as i32 };

    let mut rooms: Arr2d<RoomCell> = Arr2d::new(
        ROOM_GRID_X,
        ROOM_GRID_Y,
        RoomCell { kind: CellType::Room, visited: false },
    );
    let mut walls = SepGrid::new(ROOM_GRID_X, ROOM_GRID_Y);

    // one void cell in the top row and one in the bottom row, for an
    // irregular overall shape
    let void_top = rng.pick(ROOM_GRID_X) as i32;
    rooms.set(void_top, 0, RoomCell { kind: CellType::Nothing, visited: false });
    let void_bottom = rng.pick(ROOM_GRID_X) as i32;
    rooms.set(
        void_bottom,
        ROOM_GRID_Y as i32 - 1,
        RoomCell { kind: CellType::Nothing, visited: false },
    );

    proof {
        assert forall|ax: int, ay: int, bx: int, by: int|
            adjacent4(ax, ay, bx, by) && rooms.in_bounds(ax, ay) && rooms.in_bounds(bx, by)
                implies #[trigger] walls.spec_between(ax, ay, bx, by) == Separator::Wall by {
            if bx == ax + 1 && by == ay {
                assert(walls.spec_vert(ax, ay) == Separator::Wall);
            } else if bx == ax - 1 && by == ay {
                assert(walls.spec_vert(bx, by) == Separator::Wall);
            } else if bx == ax && by == ay + 1 {
                assert(walls.spec_hor(ax, ay) == Separator::Wall);
            } else {
                assert(walls.spec_hor(bx, by) == Separator::Wall);
            }
        }
    }
    carve(&mut rooms, &mut walls, player_start, rng);

    // the player always starts in a proper, carved room
    rooms.set(player_start.x, player_start.y, RoomCell { kind: CellType::Room, visited: true });

    // divide the tile grid evenly among the room-graph cells
    let map_x_div: u32 = (MAP_SIZE_X - (if MAP_SIZE_X % ROOM_GRID_X == 0 {
        1
    } else {
        0
    })) / ROOM_GRID_X - 1;
    let map_y_div: u32 = (MAP_SIZE_Y - (if MAP_SIZE_Y % ROOM_GRID_Y == 0 {
        1
    } else {
        0
    })) / ROOM_GRID_Y - 1;
    proof {
        assert(map_x_div == 3);
        assert(map_y_div == 3);
    }

    let mut map = GameMap::new(MAP_SIZE_X, MAP_SIZE_Y);
    let mut items: IncMap<Item> = IncMap::new();
    let mut enemies: IncMap<Enemy> = IncMap::new();

    let char_pos = Pos {
        x: 1 + player_start.x * (map_x_div as i32 + 1) + map_x_div as i32 / 2,
        y: 1 + player_start.y * (map_y_div as i32 + 1) + map_y_div as i32 / 2,
    };
    proof {
        assert(char_pos.x == 2 + 4 * player_start.x && char_pos.y == 2 + 4 * player_start.y)
            by (nonlinear_arith)
            requires
                map_x_div == 3,
                map_y_div == 3,
                char_pos.x == 1 + player_start.x * (map_x_div as i32 + 1) + map_x_div as i32
                    / 2,
                char_pos.y == 1 + player_start.y * (map_y_div as i32 + 1) + map_y_div as i32
                    / 2,
                0 <= player_start.x < 4,
                0 <= player_start.y < 3,
        ;
    }

    // rasterize every room-graph cell
    let mut x: i32 = 0;
    while x < ROOM_GRID_X as i32
        invariant
            0 <= x <= 4,
            map.wf(),
            map.spec_width() == MAP_SIZE_X,
            map.spec_height() == MAP_SIZE_Y,
            rooms.wf(),
            rooms.spec_width() == 4,
            rooms.spec_height() == 3,
            0 <= player_start.x < 4,
            0 <= player_start.y < 3,
            char_pos.x == 2 + 4 * player_start.x,
            char_pos.y == 2 + 4 * player_start.y,
            map_x_div == 3,
            map_y_div == 3,
            walls.wf_for(4, 3),
            rooms.at(player_start.x as int, player_start.y as int) == (RoomCell {
                kind: CellType::Room,
                visited: true,
            }),
            x > player_start.x ==> (forall|i: int, j: int|
                char_pos.x - 1 <= i <= char_pos.x + 1 && char_pos.y - 1 <= j <= char_pos.y
                    + 1 ==> #[trigger] map.spec_tile(i, j) == Tile::Floor),
            x > player_start.x ==> (forall|i: int, j: int|
                on_room_border(char_pos.x - 1, char_pos.y - 1, 3, 3, i, j)
                    ==> #[trigger] map.spec_tile(i, j) == Tile::Wall || map.spec_tile(i, j)
                    == Tile::Floor),
            items.wf(),
            enemies.wf(),
            items.spec_next_id() <= 3 * x,
            enemies.spec_next_id() <= 3 * x,
            forall|k: int|
                0 <= k < items.entries().len() ==> map.in_bounds(
                    (#[trigger] items.entries()[k]).1.pos.x as int,
                    items.entries()[k].1.pos.y as int,
                ),
            forall|k: int|
                0 <= k < enemies.entries().len() ==> map.in_bounds(
                    (#[trigger] enemies.entries()[k]).1.pos.x as int,
                    enemies.entries()[k].1.pos.y as int,
                ),
            forall|i: int, j: int|
                map.in_bounds(i, j) ==> #[trigger] map.spec_fog(i, j)
                    == crate::game_map::Fog::Dark,
        decreases 4 - x,
    {
        proof {
            assert(x * (map_x_div as i32 + 1) == 4 * x) by (nonlinear_arith)
                requires
                    map_x_div == 3,
                    0 <= x < 4,
            ;
        }
        let xs: i32 = 1 + x * (map_x_div as i32 + 1);
        let mut y: i32 = 0;
        while y < ROOM_GRID_Y as i32
            invariant
                0 <= x < 4,
                0 <= y <= 3,
                xs == 1 + 4 * x,
                map.wf(),
                map.spec_width() == MAP_SIZE_X,
                map.spec_height() == MAP_SIZE_Y,
                rooms.wf(),
                rooms.spec_width() == 4,
                rooms.spec_height() == 3,
                0 <= player_start.x < 4,
                0 <= player_start.y < 3,
                char_pos.x == 2 + 4 * player_start.x,
                char_pos.y == 2 + 4 * player_start.y,
                map_x_div == 3,
                map_y_div == 3,
                walls.wf_for(4, 3),
                rooms.at(player_start.x as int, player_start.y as int) == (RoomCell {
                    kind: CellType::Room,
                    visited: true,
                }),
                (x > player_start.x || (x == player_start.x && y > player_start.y)) ==> (
                forall|i: int, j: int|
                    char_pos.x - 1 <= i <= char_pos.x + 1 && char_pos.y - 1 <= j
                        <= char_pos.y + 1 ==> #[trigger] map.spec_tile(i, j) == Tile::Floor),
                (x > player_start.x || (x == player_start.x && y > player_start.y)) ==> (
                forall|i: int, j: int|
                    on_room_border(char_pos.x - 1, char_pos.y - 1, 3, 3, i, j)
                        ==> #[trigger] map.spec_tile(i, j) == Tile::Wall || map.spec_tile(
                        i, j) == Tile::Floor),
                items.wf(),
                enemies.wf(),
                items.spec_next_id() <= 3 * x + y,
                enemies.spec_next_id() <= 3 * x + y,
                forall|k: int|
                    0 <= k < items.entries().len() ==> map.in_bounds(
                        (#[trigger] items.entries()[k]).1.pos.x as int,
                        items.entries()[k].1.pos.y as int,
                    ),
                forall|k: int|
                    0 <= k < enemies.entries().len() ==> map.in_bounds(
                        (#[trigger] enemies.entries()[k]).1.pos.x as int,
                        enemies.entries()[k].1.pos.y as int,
                    ),
                forall|i: int, j: int|
                    map.in_bounds(i, j) ==> #[trigger] map.spec_fog(i, j)
                        == crate::game_map::Fog::Dark,
            decreases 3 - y,
        {
            proof {
                assert(y * (map_y_div as i32 + 1) == 4 * y) by (nonlinear_arith)
                    requires
                        map_y_div == 3,
                        0 <= y < 3,
                ;
            }
            let ys: i32 = 1 + y * (map_y_div as i32 + 1);
            let here = Pos { x, y };
            let cell = *rooms.get_unsafe(x as u32, y as u32);
            match cell.kind {
                CellType::Room => {
                    // zero-or-one item and zero-or-one enemy, at the
                    // room's center
                    let center = Pos {
                        x: xs + map_x_div as i32 / 2,
                        y: ys + map_y_div as i32 / 2,
                    };
                    let item_roll = rng.pick(10);
                    if item_roll == 0 {
                        items.insert(Item { pos: center, item_type: ItemType::Coin });
                    } else if item_roll <= 3 {
                        items.insert(Item { pos: center, item_type: ItemType::Cherry });
                    }
                    if rng.pick(5) == 0 {
                        enemies.insert(Enemy { pos: center, enemy_type: EnemyType::Gin });
                    }
                    map.add_room(xs, ys, map_x_div, map_y_div);
                    proof {
                        if x == player_start.x && y == player_start.y {
                            assert(xs == char_pos.x - 1 && ys == char_pos.y - 1);
                        }
                    }
                },
                CellType::Corridors => {
                    // a half-width connecting passage toward each side
                    // whose separator was carved open
                    if x >= 1 {
                        let left = Pos { x: x - 1, y };
                        let sep = walls.get_between(here, left, ROOM_GRID_X, ROOM_GRID_Y);
                        if sep == Separator::Nothing || sep == Separator::Door {
                            walls.set_between(here, left, ROOM_GRID_X, ROOM_GRID_Y,
                                Separator::Door);
                            map.add_room(xs - 1, ys + map_y_div as i32 / 2,
                                map_x_div / 2 + 2, 1);
                        }
                    }
                    if x + 1 < ROOM_GRID_X as i32 {
                        let right = Pos { x: x + 1, y };
                        let sep = walls.get_between(here, right, ROOM_GRID_X, ROOM_GRID_Y);
                        if sep == Separator::Nothing || sep == Separator::Door {
                            walls.set_between(here, right, ROOM_GRID_X, ROOM_GRID_Y,
                                Separator::Door);
                            map.add_room(xs + map_x_div as i32 / 2, ys + map_y_div as i32 / 2,
                                map_x_div / 2 + 2, 1);
                        }
                    }
                    if y >= 1 {
                        let up = Pos { x, y: y - 1 };
                        let sep = walls.get_between(here, up, ROOM_GRID_X, ROOM_GRID_Y);
                        if sep == Separator::Nothing || sep == Separator::Door {
                            walls.set_between(here, up, ROOM_GRID_X, ROOM_GRID_Y,
                                Separator::Door);
                            map.add_room(xs + map_x_div as i32 / 2, ys - 1, 1,
                                map_y_div / 2 + 2);
                        }
                    }
                    if y + 1 < ROOM_GRID_Y as i32 {
                        let down = Pos { x, y: y + 1 };
                        let sep = walls.get_between(here, down, ROOM_GRID_X, ROOM_GRID_Y);
                        if sep == Separator::Nothing || sep == Separator::Door {
                            walls.set_between(here, down, ROOM_GRID_X, ROOM_GRID_Y,
                                Separator::Door);
                            map.add_room(xs + map_x_div as i32 / 2, ys + map_y_div as i32 / 2,
                                1, map_y_div / 2 + 2);
                        }
                    }
                },
                CellType::Nothing => {},
            }
            y = y + 1;
        }
        x = x + 1;
    }

    // resolve the separators still open between two rooms: mostly a
    // single-tile doorway, sometimes a full merge of the two rooms
    let mut vx: i32 = 0;
    while vx < ROOM_GRID_X as i32 - 1
        invariant
            0 <= vx <= 3,
            map.wf(),
            map.spec_width() == MAP_SIZE_X,
            map.spec_height() == MAP_SIZE_Y,
            forall|i: int, j: int|
                char_pos.x - 1 <= i <= char_pos.x + 1 && char_pos.y - 1 <= j <= char_pos.y
                    + 1 ==> #[trigger] map.spec_tile(i, j) == Tile::Floor,
            forall|i: int, j: int|
                on_room_border(char_pos.x - 1, char_pos.y - 1, 3, 3, i, j)
                    ==> #[trigger] map.spec_tile(i, j) == Tile::Wall || map.spec_tile(i, j)
                    == Tile::Floor,
            2 <= char_pos.x <= 14,
            2 <= char_pos.y <= 10,
            map_x_div == 3,
            map_y_div == 3,
            walls.wf_for(4, 3),
            forall|k: int|
                0 <= k < items.entries().len() ==> map.in_bounds(
                    (#[trigger] items.entries()[k]).1.pos.x as int,
                    items.entries()[k].1.pos.y as int,
                ),
            forall|k: int|
                0 <= k < enemies.entries().len() ==> map.in_bounds(
                    (#[trigger] enemies.entries()[k]).1.pos.x as int,
                    enemies.entries()[k].1.pos.y as int,
                ),
            forall|i: int, j: int|
                map.in_bounds(i, j) ==> #[trigger] map.spec_fog(i, j)
                    == crate::game_map::Fog::Dark,
        decreases 3 - vx,
    {
        let mut vy: i32 = 0;
        while vy < ROOM_GRID_Y as i32
            invariant
                0 <= vx < 3,
                0 <= vy <= 3,
                map.wf(),
                map.spec_width() == MAP_SIZE_X,
                map.spec_height() == MAP_SIZE_Y,
                forall|i: int, j: int|
                    char_pos.x - 1 <= i <= char_pos.x + 1 && char_pos.y - 1 <= j
                        <= char_pos.y + 1 ==> #[trigger] map.spec_tile(i, j) == Tile::Floor,
                forall|i: int, j: int|
                    on_room_border(char_pos.x - 1, char_pos.y - 1, 3, 3, i, j)
                        ==> #[trigger] map.spec_tile(i, j) == Tile::Wall || map.spec_tile(
                        i, j) == Tile::Floor,
                2 <= char_pos.x <= 14,
                2 <= char_pos.y <= 10,
                map_x_div == 3,
                map_y_div == 3,
                walls.wf_for(4, 3),
                forall|k: int|
                    0 <= k < items.entries().len() ==> map.in_bounds(
                        (#[trigger] items.entries()[k]).1.pos.x as int,
                        items.entries()[k].1.pos.y as int,
                    ),
                forall|k: int|
                    0 <= k < enemies.entries().len() ==> map.in_bounds(
                        (#[trigger] enemies.entries()[k]).1.pos.x as int,
                        enemies.entries()[k].1.pos.y as int,
                    ),
                forall|i: int, j: int|
                    map.in_bounds(i, j) ==> #[trigger] map.spec_fog(i, j)
                        == crate::game_map::Fog::Dark,
            decreases 3 - vy,
        {
            let a = Pos { x: vx, y: vy };
            let b = Pos { x: vx + 1, y: vy };
            if walls.get_between(a, b, ROOM_GRID_X, ROOM_GRID_Y) == Separator::Nothing {
                proof {
                    assert((vx + 1) * (map_x_div as i32 + 1) == 4 * vx + 4 && vy * (
                    map_y_div as i32 + 1) == 4 * vy) by (nonlinear_arith)
                        requires
                            map_x_div == 3,
                            map_y_div == 3,
                            0 <= vx < 3,
                            0 <= vy < 3,
                    ;
                }
                let xw: i32 = 1 + (vx + 1) * (map_x_div as i32 + 1) - 1;
                let yw: i32 = 1 + vy * (map_y_div as i32 + 1);
                if rng.pick(3) > 0 {
                    map.add_rect(xw, yw + map_y_div as i32 / 2, 1, 1, Tile::Floor);
                } else {
                    map.add_rect(xw, yw, 1, map_y_div, Tile::Floor);
                }
            }
            vy = vy + 1;
        }
        vx = vx + 1;
    }

    let mut hx: i32 = 0;
    while hx < ROOM_GRID_X as i32
        invariant
            0 <= hx <= 4,
            map.wf(),
            map.spec_width() == MAP_SIZE_X,
            map.spec_height() == MAP_SIZE_Y,
            forall|i: int, j: int|
                char_pos.x - 1 <= i <= char_pos.x + 1 && char_pos.y - 1 <= j <= char_pos.y
                    + 1 ==> #[trigger] map.spec_tile(i, j) == Tile::Floor,
            forall|i: int, j: int|
                on_room_border(char_pos.x - 1, char_pos.y - 1, 3, 3, i, j)
                    ==> #[trigger] map.spec_tile(i, j) == Tile::Wall || map.spec_tile(i, j)
                    == Tile::Floor,
            2 <= char_pos.x <= 14,
            2 <= char_pos.y <= 10,
            map_x_div == 3,
            map_y_div == 3,
            walls.wf_for(4, 3),
            forall|k: int|
                0 <= k < items.entries().len() ==> map.in_bounds(
                    (#[trigger] items.entries()[k]).1.pos.x as int,
                    items.entries()[k].1.pos.y as int,
                ),
            forall|k: int|
                0 <= k < enemies.entries().len() ==> map.in_bounds(
                    (#[trigger] enemies.entries()[k]).1.pos.x as int,
                    enemies.entries()[k].1.pos.y as int,
                ),
            forall|i: int, j: int|
                map.in_bounds(i, j) ==> #[trigger] map.spec_fog(i, j)
                    == crate::game_map::Fog::Dark,
        decreases 4 - hx,
    {
        let mut hy: i32 = 0;
        while hy < ROOM_GRID_Y as i32 - 1
            invariant
                0 <= hx < 4,
                0 <= hy <= 2,
                map.wf(),
                map.spec_width() == MAP_SIZE_X,
                map.spec_height() == MAP_SIZE_Y,
                forall|i: int, j: int|
                    char_pos.x - 1 <= i <= char_pos.x + 1 && char_pos.y - 1 <= j
                        <= char_pos.y + 1 ==> #[trigger] map.spec_tile(i, j) == Tile::Floor,
                forall|i: int, j: int|
                    on_room_border(char_pos.x - 1, char_pos.y - 1, 3, 3, i, j)
                        ==> #[trigger] map.spec_tile(i, j) == Tile::Wall || map.spec_tile(
                        i, j) == Tile::Floor,
                2 <= char_pos.x <= 14,
                2 <= char_pos.y <= 10,
                map_x_div == 3,
                map_y_div == 3,
                walls.wf_for(4, 3),
                forall|k: int|
                    0 <= k < items.entries().len() ==> map.in_bounds(
                        (#[trigger] items.entries()[k]).1.pos.x as int,
                        items.entries()[k].1.pos.y as int,
                    ),
                forall|k: int|
                    0 <= k < enemies.entries().len() ==> map.in_bounds(
                        (#[trigger] enemies.entries()[k]).1.pos.x as int,
                        enemies.entries()[k].1.pos.y as int,
                    ),
                forall|i: int, j: int|
                    map.in_bounds(i, j) ==> #[trigger] map.spec_fog(i, j)
                        == crate::game_map::Fog::Dark,
            decreases 2 - hy,
        {
            let a = Pos { x: hx, y: hy };
            let b = Pos { x: hx, y: hy + 1 };
            if walls.get_between(a, b, ROOM_GRID_X, ROOM_GRID_Y) == Separator::Nothing {
                proof {
                    assert(hx * (map_x_div as i32 + 1) == 4 * hx && (hy + 1) * (
                    map_y_div as i32 + 1) == 4 * hy + 4) by (nonlinear_arith)
                        requires
                            map_x_div == 3,
                            map_y_div == 3,
                            0 <= hx < 4,
                            0 <= hy < 2,
                    ;
                }
                let xw: i32 = 1 + hx * (map_x_div as i32 + 1);
                let yw: i32 = 1 + (hy + 1) * (map_y_div as i32 + 1) - 1;
                if rng.pick(3) > 0 {
                    map.add_rect(xw + map_x_div as i32 / 2, yw, 1, 1, Tile::Floor);
                } else {
                    map.add_rect(xw, yw, map_x_div, 1, Tile::Floor);
                }
            }
            hy = hy + 1;
        }
        hx = hx + 1;
    }

    (map, char_pos, items, enemies)
}

} // verus!
