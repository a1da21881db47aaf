//! The fog-of-war engine.
//!
//! Every time the player moves, every `Visible` cell first decays to
//! `Seen`, and then rays cast from the player's tile toward each
//! perimeter cell of a square of radius [`FOG_RADIUS`] promote every
//! traversed in-bounds cell back to `Visible`.  `Seen` cells never
//! regress to `Dark`, so the fog is monotonically informative.

use vstd::prelude::*;
use crate::game_map::Fog;
use crate::game_map::GameMap;
use crate::geom::Pos;
use crate::raycast::ray_cell_x;
use crate::raycast::ray_cell_y;
use crate::raycast::ray_runs;
use crate::raycast::lemma_ray_runs_prefix;

verus! {

/// Radius of the square whose perimeter the visibility rays aim at.
pub const FOG_RADIUS: u32 = 4;

/// One decay step: `Visible` degrades to `Seen`, everything else keeps
/// its state.
pub open spec fn spec_fog_decay(f: Fog) -> Fog {
    match f {
        Fog::Visible => Fog::Seen,
        _ => f,
    }
}

/// The offsets the rays aim at: the perimeter cells of the
/// `(2 * FOG_RADIUS + 1)`-sided square centered on the player.
pub open spec fn is_perimeter_offset(ox: int, oy: int) -> bool {
    &&& -(FOG_RADIUS as int) <= ox <= FOG_RADIUS as int
    &&& -(FOG_RADIUS as int) <= oy <= FOG_RADIUS as int
    &&& (ox == -(FOG_RADIUS as int) || ox == FOG_RADIUS as int || oy == -(FOG_RADIUS as int)
        || oy == FOG_RADIUS as int)
}

/// Whether the cell `(cx, cy)` is in line of sight from the center of
/// the player's tile `(px, py)`: some perimeter ray visits it.
pub open spec fn spec_visible_from(m: GameMap, px: int, py: int, cx: int, cy: int) -> bool {
    exists|ox: int, oy: int, n: nat|
        is_perimeter_offset(ox, oy) && #[trigger] ray_runs(m, px, py, ox, oy, FOG_RADIUS as int, n)
            && ray_cell_x(px, ox, oy, n) == cx && ray_cell_y(py, ox, oy, n) == cy
}

/// The fog state of cell `(i, j)` after one visibility update from
/// `(px, py)` on map `m`: freshly lit cells are `Visible`, all others
/// keep their decayed state.
pub open spec fn spec_fog_after(m: GameMap, px: int, py: int, i: int, j: int) -> Fog {
    if spec_visible_from(m, px, py, i, j) {
        Fog::Visible
    } else {
        spec_fog_decay(m.spec_fog(i, j))
    }
}

/// Every ray aimed at direction `(ox, oy)` has all its visited cells
/// listed in `lit`.
pub open spec fn dir_covered(
    m: GameMap,
    px: int,
    py: int,
    ox: int,
    oy: int,
    lit: Seq<Pos>,
) -> bool {
    forall|n: nat|
        #[trigger] ray_runs(m, px, py, ox, oy, FOG_RADIUS as int, n) ==> exists|k: int|
            0 <= k < lit.len() && (#[trigger] lit[k]).x == ray_cell_x(px, ox, oy, n)
                && lit[k].y == ray_cell_y(py, ox, oy, n)
}

/// A list that covers a direction still covers it after growing.
proof fn lemma_dir_covered_grow(
    m: GameMap,
    px: int,
    py: int,
    ox: int,
    oy: int,
    lit1: Seq<Pos>,
    lit2: Seq<Pos>,
)
    requires
        dir_covered(m, px, py, ox, oy, lit1),
        lit1.len() <= lit2.len(),
        forall|k: int| 0 <= k < lit1.len() ==> lit2[k] == lit1[k],
    ensures
        dir_covered(m, px, py, ox, oy, lit2),
{
    assert forall|n: nat|
        #[trigger] ray_runs(m, px, py, ox, oy, FOG_RADIUS as int, n) implies exists|k: int|
            0 <= k < lit2.len() && (#[trigger] lit2[k]).x == ray_cell_x(px, ox, oy, n)
                && lit2[k].y == ray_cell_y(py, ox, oy, n) by {
        let k1 = choose|k: int|
            0 <= k < lit1.len() && (#[trigger] lit1[k]).x == ray_cell_x(px, ox, oy, n)
                && lit1[k].y == ray_cell_y(py, ox, oy, n);
        assert(lit2[k1] == lit1[k1]);
        assert((lit2[k1]).x == ray_cell_x(px, ox, oy, n));
    }
}

/// A cell hit by one of the first `k` entries of `lit`.
pub open spec fn lit_hit(lit: Seq<Pos>, k: int, i: int, j: int) -> bool {
    exists|kk: int| 0 <= kk < k && (#[trigger] lit[kk]).x == i && lit[kk].y == j
}


/// Once a cell has been observed (`Seen` or `Visible`), no later fog
/// update returns it to `Dark`: a visibility pass either promotes the
/// cell or merely decays `Visible` to `Seen`.
pub proof fn lemma_fog_monotone(m: GameMap, px: int, py: int, i: int, j: int)
    requires
        m.spec_fog(i, j) != Fog::Dark,
    ensures
        spec_fog_after(m, px, py, i, j) != Fog::Dark,
{
}

proof fn lemma_ray_runs_same_tiles(
    m1: GameMap,
    m2: GameMap,
    sx: int,
    sy: int,
    dx: int,
    dy: int,
    max: int,
    n: nat,
)
    requires
        m1.spec_width() == m2.spec_width(),
        m1.spec_height() == m2.spec_height(),
        forall|i: int, j: int|
            m1.in_bounds(i, j) ==> #[trigger] m1.spec_tile(i, j) == m2.spec_tile(i, j),
    ensures
        ray_runs(m1, sx, sy, dx, dy, max, n) == ray_runs(m2, sx, sy, dx, dy, max, n),
    decreases n,
{
    if n > 0 {
        lemma_ray_runs_same_tiles(m1, m2, sx, sy, dx, dy, max, (n - 1) as nat);
        let cx = ray_cell_x(sx, dx, dy, (n - 1) as nat);
        let cy = ray_cell_y(sy, dx, dy, (n - 1) as nat);
        if m1.in_bounds(cx, cy) {
            assert(m1.spec_tile(cx, cy) == m2.spec_tile(cx, cy));
        }
    }
}

/// Line of sight depends on the tiles alone: two maps with the same
/// dimensions and tiles light the same cells, whatever their fog.
pub proof fn lemma_visible_same_tiles(m1: GameMap, m2: GameMap, px: int, py: int, cx: int, cy: int)
    requires
        m1.spec_width() == m2.spec_width(),
        m1.spec_height() == m2.spec_height(),
        forall|i: int, j: int|
            m1.in_bounds(i, j) ==> #[trigger] m1.spec_tile(i, j) == m2.spec_tile(i, j),
    ensures
        spec_visible_from(m1, px, py, cx, cy) == spec_visible_from(m2, px, py, cx, cy),
{
    if spec_visible_from(m1, px, py, cx, cy) {
        let (ox, oy, n): (int, int, nat) = choose|ox: int, oy: int, n: nat|
            is_perimeter_offset(ox, oy) && #[trigger] ray_runs(
                m1,
                px,
                py,
                ox,
                oy,
                FOG_RADIUS as int,
                n,
            ) && ray_cell_x(px, ox, oy, n) == cx && ray_cell_y(py, ox, oy, n) == cy;
        lemma_ray_runs_same_tiles(m1, m2, px, py, ox, oy, FOG_RADIUS as int, n);
        assert(ray_runs(m2, px, py, ox, oy, FOG_RADIUS as int, n));
    }
    if spec_visible_from(m2, px, py, cx, cy) {
        let (ox, oy, n): (int, int, nat) = choose|ox: int, oy: int, n: nat|
            is_perimeter_offset(ox, oy) && #[trigger] ray_runs(
                m2,
                px,
                py,
                ox,
                oy,
                FOG_RADIUS as int,
                n,
            ) && ray_cell_x(px, ox, oy, n) == cx && ray_cell_y(py, ox, oy, n) == cy;
        lemma_ray_runs_same_tiles(m1, m2, px, py, ox, oy, FOG_RADIUS as int, n);
        assert(ray_runs(m1, px, py, ox, oy, FOG_RADIUS as int, n));
    }
}

/// Updating the fog twice in a row from the same player position gives
/// the same fog as updating it once: with the tiles unchanged the same
/// cells are lit, and the decay step is identity on `Dark` and `Seen`.
pub proof fn lemma_update_fog_idempotent(m0: GameMap, m1: GameMap, px: int, py: int)
    requires
        m0.spec_width() == m1.spec_width(),
        m0.spec_height() == m1.spec_height(),
        forall|i: int, j: int|
            m0.in_bounds(i, j) ==> #[trigger] m1.spec_tile(i, j) == m0.spec_tile(i, j),
        forall|i: int, j: int|
            m0.in_bounds(i, j) ==> #[trigger] m1.spec_fog(i, j) == spec_fog_after(
                m0, px, py, i, j),
    ensures
        forall|i: int, j: int|
            m0.in_bounds(i, j) ==> #[trigger] spec_fog_after(m1, px, py, i, j)
                == m1.spec_fog(i, j),
{
    assert forall|i: int, j: int| m0.in_bounds(i, j) implies #[trigger] spec_fog_after(
        m1, px, py, i, j) == m1.spec_fog(i, j) by {
        lemma_visible_same_tiles(m1, m0, px, py, i, j);
    }
}

/// A ray with a zero distance budget visits no cell at all.
pub proof fn lemma_zero_budget_ray(
    m: GameMap,
    sx: int,
    sy: int,
    dx: int,
    dy: int,
    n: nat,
)
    ensures
        !ray_runs(m, sx, sy, dx, dy, 0, n),
{
    if ray_runs(m, sx, sy, dx, dy, 0, n) {
        lemma_ray_runs_prefix(m, sx, sy, dx, dy, 0, 0, n);
        assert(!crate::raycast::dist_lt_max(dx, dy, 0, 0)) by (nonlinear_arith);
    }
}

impl GameMap {
    /// Casts one perimeter ray and appends its visited cells to `lit`.
    fn collect_ray(&self, pos: Pos, dir: Pos, lit: &mut Vec<Pos>)
        requires
            self.wf(),
            !(dir.x == 0 && dir.y == 0),
            -(FOG_RADIUS as i32) <= dir.x <= FOG_RADIUS as i32,
            -(FOG_RADIUS as i32) <= dir.y <= FOG_RADIUS as i32,
            is_perimeter_offset(dir.x as int, dir.y as int),
            i32::MIN + 2200 < pos.x < i32::MAX - 2200,
            i32::MIN + 2200 < pos.y < i32::MAX - 2200,
            forall|k: int|
                0 <= k < old(lit)@.len() ==> spec_visible_from(
                    *self,
                    pos.x as int,
                    pos.y as int,
                    (#[trigger] old(lit)@[k]).x as int,
                    old(lit)@[k].y as int,
                ),
        ensures
            final(lit)@.len() >= old(lit)@.len(),
            forall|k: int| 0 <= k < old(lit)@.len() ==> final(lit)@[k] == old(lit)@[k],
            forall|k: int|
                0 <= k < final(lit)@.len() ==> spec_visible_from(
                    *self,
                    pos.x as int,
                    pos.y as int,
                    (#[trigger] final(lit)@[k]).x as int,
                    final(lit)@[k].y as int,
                ),
            dir_covered(*self, pos.x as int, pos.y as int, dir.x as int, dir.y as int,
                final(lit)@),
    {
        let ghost px = pos.x as int;
        let ghost py = pos.y as int;
        let ghost ox = dir.x as int;
        let ghost oy = dir.y as int;
        let ghost base = lit@;
        let (mut cells, _last) = self.dda(pos, dir, FOG_RADIUS);
        let ghost ray = cells@;
        lit.append(&mut cells);
        proof {
            assert forall|k: int|
                0 <= k < lit@.len() implies spec_visible_from(
                *self,
                px,
                py,
                (#[trigger] lit@[k]).x as int,
                lit@[k].y as int,
            ) by {
                if k < base.len() {
                    assert(lit@[k] == base[k]);
                } else {
                    let n = k - base.len();
                    assert(lit@[k] == ray[n]);
                    assert(ray_runs(*self, px, py, ox, oy, FOG_RADIUS as int, n as nat));
                    assert(ray[n].x == ray_cell_x(px, ox, oy, n as nat));
                    assert(ray[n].y == ray_cell_y(py, ox, oy, n as nat));
                }
            }
            assert forall|n: nat|
                #[trigger] ray_runs(*self, px, py, ox, oy, FOG_RADIUS as int, n)
                    implies exists|k: int|
                    0 <= k < lit@.len() && (#[trigger] lit@[k]).x == ray_cell_x(px, ox, oy, n)
                        && lit@[k].y == ray_cell_y(py, ox, oy, n) by {
                if n >= ray.len() {
                    lemma_ray_runs_prefix(
                        *self,
                        px,
                        py,
                        ox,
                        oy,
                        FOG_RADIUS as int,
                        ray.len() as nat,
                        n,
                    );
                    assert(false);
                } else {
                    let k = base.len() + n;
                    assert(lit@[k as int] == ray[n as int]);
                    assert((lit@[k as int]).x == ray_cell_x(px, ox, oy, n));
                }
            }
        }
    }

    /// Collects every cell any perimeter ray visits, in ray order.
    fn collect_lit(&self, pos: Pos) -> (lit: Vec<Pos>)
        requires
            self.wf(),
            i32::MIN + 2200 < pos.x < i32::MAX - 2200,
            i32::MIN + 2200 < pos.y < i32::MAX - 2200,
        ensures
            forall|k: int|
                0 <= k < lit@.len() ==> spec_visible_from(
                    *self,
                    pos.x as int,
                    pos.y as int,
                    (#[trigger] lit@[k]).x as int,
                    lit@[k].y as int,
                ),
            forall|cx: int, cy: int|
                spec_visible_from(*self, pos.x as int, pos.y as int, cx, cy) ==> lit_hit(
                    lit@,
                    lit@.len() as int,
                    cx,
                    cy,
                ),
    {
        let ghost px = pos.x as int;
        let ghost py = pos.y as int;
        let r = FOG_RADIUS as i32;
        let mut lit: Vec<Pos> = Vec::new();

        let mut o: i32 = -r;
        while o <= r
            invariant
                self.wf(),
                i32::MIN + 2200 < pos.x < i32::MAX - 2200,
                i32::MIN + 2200 < pos.y < i32::MAX - 2200,
                r == FOG_RADIUS as i32,
                px == pos.x as int,
                py == pos.y as int,
                -r <= o <= r + 1,
                forall|k: int|
                    0 <= k < lit@.len() ==> spec_visible_from(
                        *self,
                        px,
                        py,
                        (#[trigger] lit@[k]).x as int,
                        lit@[k].y as int,
                    ),
                forall|ox: int|
                    -r <= ox < o ==> #[trigger] dir_covered(*self, px, py, ox, -r as int,
                    lit@),
                forall|ox: int|
                    -r <= ox < o ==> #[trigger] dir_covered(*self, px, py, ox, r as int,
                    lit@),
            decreases r + 1 - o,
        {
            let ghost before1 = lit@;
            self.collect_ray(pos, Pos { x: o, y: -r }, &mut lit);
            proof {
                assert forall|ox: int|
                    -r <= ox < o implies #[trigger] dir_covered(*self, px, py, ox,
                    -r as int, lit@) by {
                    lemma_dir_covered_grow(*self, px, py, ox, -r as int, before1, lit@);
                }
                assert forall|ox: int|
                    -r <= ox < o implies #[trigger] dir_covered(*self, px, py, ox, r as int,
                    lit@) by {
                    lemma_dir_covered_grow(*self, px, py, ox, r as int, before1, lit@);
                }
            }
            let ghost before2 = lit@;
            self.collect_ray(pos, Pos { x: o, y: r }, &mut lit);
            proof {
                assert forall|ox: int|
                    -r <= ox < o implies #[trigger] dir_covered(*self, px, py, ox,
                    -r as int, lit@) by {
                    lemma_dir_covered_grow(*self, px, py, ox, -r as int, before2, lit@);
                }
                assert forall|ox: int|
                    -r <= ox < o implies #[trigger] dir_covered(*self, px, py, ox, r as int,
                    lit@) by {
                    lemma_dir_covered_grow(*self, px, py, ox, r as int, before2, lit@);
                }
                lemma_dir_covered_grow(*self, px, py, o as int, -r as int, before2, lit@);
            }
            o = o + 1;
        }

        let ghost mark = lit@;
        let mut o2: i32 = -r;
        while o2 <= r
            invariant
                self.wf(),
                i32::MIN + 2200 < pos.x < i32::MAX - 2200,
                i32::MIN + 2200 < pos.y < i32::MAX - 2200,
                r == FOG_RADIUS as i32,
                px == pos.x as int,
                py == pos.y as int,
                -r <= o2 <= r + 1,
                mark.len() <= lit@.len(),
                forall|k: int| 0 <= k < mark.len() ==> lit@[k] == mark[k],
                forall|k: int|
                    0 <= k < lit@.len() ==> spec_visible_from(
                        *self,
                        px,
                        py,
                        (#[trigger] lit@[k]).x as int,
                        lit@[k].y as int,
                    ),
                forall|ox: int|
                    -r <= ox <= r ==> #[trigger] dir_covered(*self, px, py, ox, -r as int,
                    mark),
                forall|ox: int|
                    -r <= ox <= r ==> #[trigger] dir_covered(*self, px, py, ox, r as int,
                    mark),
                forall|oy: int|
                    -r <= oy < o2 ==> #[trigger] dir_covered(*self, px, py, -r as int, oy,
                    lit@),
                forall|oy: int|
                    -r <= oy < o2 ==> #[trigger] dir_covered(*self, px, py, r as int, oy,
                    lit@),
            decreases r + 1 - o2,
        {
            let ghost before1 = lit@;
            self.collect_ray(pos, Pos { x: -r, y: o2 }, &mut lit);
            proof {
                assert forall|oy: int|
                    -r <= oy < o2 implies #[trigger] dir_covered(*self, px, py, -r as int,
                    oy, lit@) by {
                    lemma_dir_covered_grow(*self, px, py, -r as int, oy, before1, lit@);
                }
                assert forall|oy: int|
                    -r <= oy < o2 implies #[trigger] dir_covered(*self, px, py, r as int,
                    oy, lit@) by {
                    lemma_dir_covered_grow(*self, px, py, r as int, oy, before1, lit@);
                }
            }
            let ghost before2 = lit@;
            self.collect_ray(pos, Pos { x: r, y: o2 }, &mut lit);
            proof {
                assert forall|oy: int|
                    -r <= oy < o2 implies #[trigger] dir_covered(*self, px, py, -r as int,
                    oy, lit@) by {
                    lemma_dir_covered_grow(*self, px, py, -r as int, oy, before2, lit@);
                }
                assert forall|oy: int|
                    -r <= oy < o2 implies #[trigger] dir_covered(*self, px, py, r as int,
                    oy, lit@) by {
                    lemma_dir_covered_grow(*self, px, py, r as int, oy, before2, lit@);
                }
                lemma_dir_covered_grow(*self, px, py, -r as int, o2 as int, before2, lit@);
            }
            o2 = o2 + 1;
        }

        proof {
            assert forall|cx: int, cy: int|
                spec_visible_from(*self, px, py, cx, cy) implies lit_hit(
                lit@,
                lit@.len() as int,
                cx,
                cy,
            ) by {
                let (ox, oy, n): (int, int, nat) = choose|ox: int, oy: int, n: nat|
                    is_perimeter_offset(ox, oy) && #[trigger] ray_runs(
                        *self,
                        px,
                        py,
                        ox,
                        oy,
                        FOG_RADIUS as int,
                        n,
                    ) && ray_cell_x(px, ox, oy, n) == cx && ray_cell_y(py, ox, oy, n) == cy;
                if oy == -r as int || oy == r as int {
                    assert(dir_covered(*self, px, py, ox, oy, mark));
                    let k = choose|k: int|
                        0 <= k < mark.len() && (#[trigger] mark[k]).x == ray_cell_x(
                            px,
                            ox,
                            oy,
                            n,
                        ) && mark[k].y == ray_cell_y(py, ox, oy, n);
                    assert(lit@[k] == mark[k]);
                    assert((lit@[k]).x == cx && lit@[k].y == cy);
                } else {
                    assert(ox == -r as int || ox == r as int);
                    assert(dir_covered(*self, px, py, ox, oy, lit@));
                    let k = choose|k: int|
                        0 <= k < lit@.len() && (#[trigger] lit@[k]).x == ray_cell_x(
                            px,
                            ox,
                            oy,
                            n,
                        ) && lit@[k].y == ray_cell_y(py, ox, oy, n);
                    assert((lit@[k]).x == cx && lit@[k].y == cy);
                }
            }
        }
        lit
    }

    /// Recomputes the fog of war for a player standing at `pos`:
    /// every `Visible` cell decays to `Seen`, then every cell some
    /// perimeter ray visits is promoted to `Visible`.
    pub fn update_fog(&mut self, pos: Pos)
        requires
            old(self).wf(),
            i32::MIN + 2200 < pos.x < i32::MAX - 2200,
            i32::MIN + 2200 < pos.y < i32::MAX - 2200,
        ensures
            final(self).wf(),
            final(self).spec_width() == old(self).spec_width(),
            final(self).spec_height() == old(self).spec_height(),
            forall|i: int, j: int|
                old(self).in_bounds(i, j)
                    ==> #[trigger] final(self).spec_tile(i, j) == old(self).spec_tile(i, j),
            forall|i: int, j: int|
                old(self).in_bounds(i, j)
                    ==> #[trigger] final(self).spec_fog(i, j) == spec_fog_after(
                    *old(self),
                    pos.x as int,
                    pos.y as int,
                    i,
                    j,
                ),
    {
        let ghost px = pos.x as int;
        let ghost py = pos.y as int;
        let ghost m0 = *self;
        let lit = self.collect_lit(pos);
        self.fog_decay();
        let ghost dec = *self;
        let n = lit.len();
        let mut k: usize = 0;
        while k < n
            invariant
                self.wf(),
                n == lit@.len(),
                k <= n,
                self.spec_width() == dec.spec_width(),
                self.spec_height() == dec.spec_height(),
                forall|i: int, j: int|
                    dec.in_bounds(i, j) ==> #[trigger] self.spec_tile(i, j) == dec.spec_tile(
                        i, j),
                forall|i: int, j: int|
                    dec.in_bounds(i, j) && lit_hit(lit@, k as int, i, j)
                        ==> #[trigger] self.spec_fog(i, j) == Fog::Visible,
                forall|i: int, j: int|
                    dec.in_bounds(i, j) && !lit_hit(lit@, k as int, i, j)
                        ==> #[trigger] self.spec_fog(i, j) == dec.spec_fog(i, j),
            decreases n - k,
        {
            let p = lit[k];
            self.mark_visible(p);
            proof {
                assert forall|i: int, j: int|
                    dec.in_bounds(i, j) && lit_hit(lit@, k + 1, i, j)
                        implies self.spec_fog(i, j) == Fog::Visible by {
                    if i == p.x && j == p.y {
                    } else {
                        let kk = choose|kk: int|
                            0 <= kk < k + 1 && (#[trigger] lit@[kk]).x == i && lit@[kk].y == j;
                        assert(kk < k);
                        assert(lit_hit(lit@, k as int, i, j));
                    }
                }
                assert forall|i: int, j: int|
                    dec.in_bounds(i, j) && !lit_hit(lit@, k + 1, i, j)
                        implies self.spec_fog(i, j) == dec.spec_fog(i, j) by {
                    assert(!lit_hit(lit@, k as int, i, j));
                    assert(i != p.x || j != p.y) by {
                        if i == p.x && j == p.y {
                            assert((lit@[k as int]).x == i && lit@[k as int].y == j);
                        }
                    }
                }
            }
            k = k + 1;
        }
        proof {
            assert forall|i: int, j: int| m0.in_bounds(i, j) implies #[trigger] self.spec_fog(
                i, j) == spec_fog_after(m0, px, py, i, j) by {
                if spec_visible_from(m0, px, py, i, j) {
                    assert(lit_hit(lit@, lit@.len() as int, i, j));
                    assert(self.spec_fog(i, j) == Fog::Visible);
                } else {
                    assert(!lit_hit(lit@, lit@.len() as int, i, j)) by {
                        if lit_hit(lit@, lit@.len() as int, i, j) {
                            let kk = choose|kk: int|
                                0 <= kk < lit@.len() && (#[trigger] lit@[kk]).x == i
                                    && lit@[kk].y == j;
                            assert(spec_visible_from(m0, px, py, (lit@[kk]).x as int,
                                lit@[kk].y as int));
                        }
                    }
                    assert(self.spec_fog(i, j) == dec.spec_fog(i, j));
                }
            }
        }
    }
}

} // verus!
