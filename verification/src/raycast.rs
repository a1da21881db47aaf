//! Grid ray marching.
//!
//! [`dda`] walks the dungeon grid cell by cell along a ray from the
//! center of a start cell, visiting each traversed cell until a
//! blocking cell is reached or the traversed distance exceeds a budget.
//!
//! The classic formulation keeps two per-axis "side distances" measured
//! in units of the ray length and advances whichever axis has the
//! smaller one.  Starting from a cell center with an integer direction
//! `(dx, dy)`, every comparison of such distances can be carried out
//! exactly in integers: the side distance of the x axis after `k`
//! advances is `(2k + 1) * len / (2 * |dx|)`, so comparisons reduce to
//! products of integers (squaring once to remove the irrational `len`).
//! An axis whose direction component is zero simply never advances,
//! which also removes the division by zero the naive formulation has.

use vstd::prelude::*;
use crate::game_map::GameMap;
use crate::geom::Pos;

verus! {

pub open spec fn abs_i(v: int) -> int {
    if v < 0 {
        -v
    } else {
        v
    }
}

/// Per-axis cell step: `-1` for negative direction components, else `1`.
pub open spec fn sgn_step(v: int) -> int {
    if v < 0 {
        -1
    } else {
        1
    }
}

/// Whether the x axis advances when the axes have already advanced
/// `kx` and `ky` times: exactly when the x side distance
/// `(2 kx + 1) / (2 |dx|)` is smaller than the y side distance
/// `(2 ky + 1) / (2 |dy|)` (an axis with zero component counts as
/// infinitely far, so it never advances).
pub open spec fn step_is_x(dx: int, dy: int, kx: int, ky: int) -> bool {
    (2 * kx + 1) * abs_i(dy) < (2 * ky + 1) * abs_i(dx)
}

/// How many of the first `n` advances went to the x axis.
pub open spec fn x_steps(dx: int, dy: int, n: nat) -> nat
    decreases n,
{
    if n == 0 {
        0
    } else {
        let m = x_steps(dx, dy, (n - 1) as nat);
        if step_is_x(dx, dy, m as int, n - 1 - m) {
            m + 1
        } else {
            m
        }
    }
}

/// X coordinate of the cell visited at iteration `n` of a ray from
/// `(sx, sy)`: each earlier unblocked iteration moved one cell along
/// its axis.
pub open spec fn ray_cell_x(sx: int, dx: int, dy: int, n: nat) -> int {
    sx + sgn_step(dx) * x_steps(dx, dy, n)
}

/// Y coordinate of the cell visited at iteration `n`.
pub open spec fn ray_cell_y(sy: int, dx: int, dy: int, n: nat) -> int {
    sy + sgn_step(dy) * (n - x_steps(dx, dy, n))
}

/// Numerator of the traversed distance after `n` advances, in units of
/// `len / dist_den`: the side distance of the axis advanced last.
pub open spec fn dist_num(dx: int, dy: int, n: nat) -> int {
    if n == 0 {
        0
    } else {
        let m = x_steps(dx, dy, (n - 1) as nat);
        if step_is_x(dx, dy, m as int, n - 1 - m) {
            2 * (m as int) + 3
        } else {
            2 * (n - 1 - m) + 3
        }
    }
}

/// Denominator of the traversed distance after `n` advances.
pub open spec fn dist_den(dx: int, dy: int, n: nat) -> int {
    if n == 0 {
        1
    } else {
        let m = x_steps(dx, dy, (n - 1) as nat);
        if step_is_x(dx, dy, m as int, n - 1 - m) {
            2 * abs_i(dx)
        } else {
            2 * abs_i(dy)
        }
    }
}

/// Whether the distance traversed after `n` advances is still below
/// the budget: `dist_num * len / dist_den < max`, squared to stay in
/// integers (`len * len == dx * dx + dy * dy`).
pub open spec fn dist_lt_max(dx: int, dy: int, max: int, n: nat) -> bool {
    dist_num(dx, dy, n) * dist_num(dx, dy, n) * (dx * dx + dy * dy) < max * max * dist_den(
        dx,
        dy,
        n,
    ) * dist_den(dx, dy, n)
}

/// Whether the distance traversed after `n` advances strictly exceeds
/// the budget.
pub open spec fn dist_gt_max(dx: int, dy: int, max: int, n: nat) -> bool {
    dist_num(dx, dy, n) * dist_num(dx, dy, n) * (dx * dx + dy * dy) > max * max * dist_den(
        dx,
        dy,
        n,
    ) * dist_den(dx, dy, n)
}

/// Whether the ray walk reaches iteration `n`: the distance budget
/// still allows it and no earlier visited cell blocked the ray.
pub open spec fn ray_runs(
    m: GameMap,
    sx: int,
    sy: int,
    dx: int,
    dy: int,
    max: int,
    n: nat,
) -> bool
    decreases n,
{
    if n == 0 {
        dist_lt_max(dx, dy, max, 0)
    } else {
        &&& ray_runs(m, sx, sy, dx, dy, max, (n - 1) as nat)
        &&& !m.spec_blocked_at(
            ray_cell_x(sx, dx, dy, (n - 1) as nat),
            ray_cell_y(sy, dx, dy, (n - 1) as nat),
        )
        &&& dist_lt_max(dx, dy, max, n)
    }
}

/// A ray that reaches iteration `n` reached every earlier one.
pub proof fn lemma_ray_runs_prefix(
    m: GameMap,
    sx: int,
    sy: int,
    dx: int,
    dy: int,
    max: int,
    i: nat,
    n: nat,
)
    requires
        i <= n,
        ray_runs(m, sx, sy, dx, dy, max, n),
    ensures
        ray_runs(m, sx, sy, dx, dy, max, i),
    decreases n,
{
    if i < n {
        lemma_ray_runs_prefix(m, sx, sy, dx, dy, max, i, (n - 1) as nat);
    }
}

proof fn lemma_x_steps_le(dx: int, dy: int, n: nat)
    ensures
        x_steps(dx, dy, n) <= n,
    decreases n,
{
    if n > 0 {
        lemma_x_steps_le(dx, dy, (n - 1) as nat);
    }
}

proof fn lemma_guard_products(dnum: int, dden: int, l2: int, md: int)
    by (nonlinear_arith)
    requires
        0 <= dnum <= 2005,
        1 <= dden <= 2000,
        1 <= l2 <= 2_000_000,
        0 <= md <= 1000,
    ensures
        0 <= dnum * dnum <= 2005 * 2005,
        0 <= dnum * dnum * l2 <= 2005 * 2005 * 2_000_000,
        0 <= md * md <= 1_000_000,
        0 <= md * md * dden <= 2_000_000_000_000,
        0 <= md * md * dden * dden <= 4_000_000_000_000_000,
{
}

proof fn lemma_step_products(kx: int, ky: int, adx: int, ady: int)
    by (nonlinear_arith)
    requires
        0 <= kx <= 1001,
        0 <= ky <= 1001,
        0 <= adx <= 1000,
        0 <= ady <= 1000,
    ensures
        0 <= (2 * kx + 1) * ady <= 2_003_000,
        0 <= (2 * ky + 1) * adx <= 2_003_000,
{
}

proof fn lemma_side_bound(k: int, l2: int, md: int, a: int)
    by (nonlinear_arith)
    requires
        (2 * k + 1) * (2 * k + 1) * l2 < 4 * md * md * a * a,
        l2 >= a * a,
        a >= 1,
        k >= 0,
        md >= 0,
    ensures
        k <= md - 1,
{
}

impl GameMap {
    /// Marches a ray from the center of `start` in direction `dir`,
    /// visiting one cell per step until a blocking cell is reached or
    /// the traversed distance exceeds `max_dist`.  Returns the visited
    /// cells in order, and the final cell — `None` when the traversal
    /// ran out of budget strictly beyond `max_dist`.
    pub fn dda(&self, start: Pos, dir: Pos, max_dist: u32) -> (r: (Vec<Pos>, Option<Pos>))
        requires
            self.wf(),
            !(dir.x == 0 && dir.y == 0),
            -1000 <= dir.x <= 1000,
            -1000 <= dir.y <= 1000,
            max_dist <= 1000,
            i32::MIN + 2200 < start.x < i32::MAX - 2200,
            i32::MIN + 2200 < start.y < i32::MAX - 2200,
        ensures
            forall|n: int|
                0 <= n < r.0@.len() ==> (#[trigger] r.0@[n]).x == ray_cell_x(
                    start.x as int,
                    dir.x as int,
                    dir.y as int,
                    n as nat,
                ) && r.0@[n].y == ray_cell_y(start.y as int, dir.x as int, dir.y as int, n as nat)
                    && ray_runs(
                    *self,
                    start.x as int,
                    start.y as int,
                    dir.x as int,
                    dir.y as int,
                    max_dist as int,
                    n as nat,
                ),
            !ray_runs(
                *self,
                start.x as int,
                start.y as int,
                dir.x as int,
                dir.y as int,
                max_dist as int,
                r.0@.len() as nat,
            ),
            r.1 is Some <==> (r.0@.len() == 0 || !dist_gt_max(
                dir.x as int,
                dir.y as int,
                max_dist as int,
                r.0@.len() as nat,
            )),
            r.1 matches Some(p) ==> {
                let len = r.0@.len() as nat;
                let visited_last = (len as int - 1) as nat;
                if len == 0 {
                    p == start
                } else if self.spec_blocked_at(
                    ray_cell_x(start.x as int, dir.x as int, dir.y as int, visited_last),
                    ray_cell_y(start.y as int, dir.x as int, dir.y as int, visited_last),
                ) {
                    p.x == ray_cell_x(start.x as int, dir.x as int, dir.y as int, visited_last)
                        && p.y == ray_cell_y(
                        start.y as int,
                        dir.x as int,
                        dir.y as int,
                        visited_last,
                    )
                } else {
                    p.x == ray_cell_x(start.x as int, dir.x as int, dir.y as int, len) && p.y
                        == ray_cell_y(start.y as int, dir.x as int, dir.y as int, len)
                }
            },
    {
        let ghost gsx = start.x as int;
        let ghost gsy = start.y as int;
        let ghost gdx = dir.x as int;
        let ghost gdy = dir.y as int;
        let ghost gmax = max_dist as int;

        let adx: i64 = if dir.x < 0 {
            -(dir.x as i64)
        } else {
            dir.x as i64
        };
        let ady: i64 = if dir.y < 0 {
            -(dir.y as i64)
        } else {
            dir.y as i64
        };
        let step_x_dir: i32 = if dir.x < 0 {
            -1
        } else {
            1
        };
        let step_y_dir: i32 = if dir.y < 0 {
            -1
        } else {
            1
        };
        proof {
            assert(0 <= (dir.x as i64) * (dir.x as i64) <= 1_000_000 && 0 <= (dir.y as i64) * (
            dir.y as i64) <= 1_000_000 && (dir.x != 0 ==> (dir.x as i64) * (dir.x as i64) >= 1)
                && (dir.y != 0 ==> (dir.y as i64) * (dir.y as i64) >= 1)) by (nonlinear_arith)
                requires
                    -1000 <= dir.x <= 1000,
                    -1000 <= dir.y <= 1000,
            ;
        }
        let l2: i64 = (dir.x as i64) * (dir.x as i64) + (dir.y as i64) * (dir.y as i64);
        let md: i64 = max_dist as i64;

        let mut cells: Vec<Pos> = Vec::new();
        let mut cx: i32 = start.x;
        let mut cy: i32 = start.y;
        let mut kx: u32 = 0;
        let mut ky: u32 = 0;
        let mut dnum: i64 = 0;
        let mut dden: i64 = 1;
        let mut last_x: bool = false;
        let mut blocked: bool = false;

        loop
            invariant_except_break
                self.wf(),
                adx == abs_i(gdx),
                ady == abs_i(gdy),
                step_x_dir == sgn_step(gdx),
                step_y_dir == sgn_step(gdy),
                l2 == gdx * gdx + gdy * gdy,
                md == gmax,
                0 <= md <= 1000,
                1 <= l2 <= 2_000_000,
                !(gdx == 0 && gdy == 0),
                abs_i(gdx) <= 1000,
                abs_i(gdy) <= 1000,
                i32::MIN + 2200 < gsx < i32::MAX - 2200,
                i32::MIN + 2200 < gsy < i32::MAX - 2200,
                kx <= md + 1,
                ky <= md + 1,
                0 <= dnum <= 2005,
                1 <= dden <= 2000,
                gsx - 1002 <= cx <= gsx + 1002,
                gsy - 1002 <= cy <= gsy + 1002,
                gdx == 0 ==> kx == 0,
                gdy == 0 ==> ky == 0,
                kx == x_steps(gdx, gdy, (kx + ky) as nat),
                cx == ray_cell_x(gsx, gdx, gdy, (kx + ky) as nat),
                cy == ray_cell_y(gsy, gdx, gdy, (kx + ky) as nat),
                dnum == dist_num(gdx, gdy, (kx + ky) as nat),
                dden == dist_den(gdx, gdy, (kx + ky) as nat),
                kx + ky >= 1 ==> (if last_x {
                    dnum == 2 * kx + 1 && dden == 2 * adx
                } else {
                    dnum == 2 * ky + 1 && dden == 2 * ady
                }),
                kx + ky == 0 ==> dnum == 0 && dden == 1,
                kx >= 1 && !last_x ==> (2 * kx + 1) * (2 * kx + 1) * l2 < 4 * md * md * adx
                    * adx,
                ky >= 1 && last_x ==> (2 * ky + 1) * (2 * ky + 1) * l2 < 4 * md * md * ady
                    * ady,
                !blocked,
                cells@.len() == kx + ky,
                forall|n: int|
                    0 <= n < cells@.len() ==> (#[trigger] cells@[n]).x == ray_cell_x(
                        gsx,
                        gdx,
                        gdy,
                        n as nat,
                    ) && cells@[n].y == ray_cell_y(gsy, gdx, gdy, n as nat) && ray_runs(
                        *self,
                        gsx,
                        gsy,
                        gdx,
                        gdy,
                        gmax,
                        n as nat,
                    ) && !self.spec_blocked_at(
                        ray_cell_x(gsx, gdx, gdy, n as nat),
                        ray_cell_y(gsy, gdx, gdy, n as nat),
                    ),
            ensures
                adx == abs_i(gdx),
                ady == abs_i(gdy),
                l2 == gdx * gdx + gdy * gdy,
                md == gmax,
                0 <= md <= 1000,
                1 <= l2 <= 2_000_000,
                0 <= dnum <= 2005,
                1 <= dden <= 2000,
                cells@.len() == kx + ky,
                dnum == dist_num(gdx, gdy, (kx + ky) as nat),
                dden == dist_den(gdx, gdy, (kx + ky) as nat),
                forall|n: int|
                    0 <= n < cells@.len() ==> (#[trigger] cells@[n]).x == ray_cell_x(
                        gsx,
                        gdx,
                        gdy,
                        n as nat,
                    ) && cells@[n].y == ray_cell_y(gsy, gdx, gdy, n as nat) && ray_runs(
                        *self,
                        gsx,
                        gsy,
                        gdx,
                        gdy,
                        gmax,
                        n as nat,
                    ),
                !ray_runs(*self, gsx, gsy, gdx, gdy, gmax, (kx + ky) as nat),
                blocked <==> (kx + ky >= 1 && self.spec_blocked_at(
                    ray_cell_x(gsx, gdx, gdy, ((kx + ky) - 1) as nat),
                    ray_cell_y(gsy, gdx, gdy, ((kx + ky) - 1) as nat),
                )),
                blocked ==> cx == ray_cell_x(gsx, gdx, gdy, ((kx + ky) - 1) as nat) && cy
                    == ray_cell_y(gsy, gdx, gdy, ((kx + ky) - 1) as nat),
                !blocked ==> cx == ray_cell_x(gsx, gdx, gdy, (kx + ky) as nat) && cy
                    == ray_cell_y(gsy, gdx, gdy, (kx + ky) as nat),
            decreases 2 * md + 2 - kx - ky,
        {
            let ghost n0 = (kx + ky) as nat;
            proof {
                lemma_x_steps_le(gdx, gdy, n0);
                lemma_guard_products(dnum as int, dden as int, l2 as int, md as int);
            }
            if !(dnum * dnum * l2 < md * md * dden * dden) {
                proof {
                    if kx + ky >= 1 {
                        assert((cells@[kx + ky - 1]).x == ray_cell_x(
                            gsx,
                            gdx,
                            gdy,
                            ((kx + ky) - 1) as nat,
                        ));
                    }
                }
                break ;
            }
            proof {
                lemma_step_products(kx as int, ky as int, adx as int, ady as int);
                if kx >= 1 {
                    if last_x {
                        assert((2 * kx + 1) * (2 * kx + 1) * l2 < 4 * md * md * adx * adx)
                            by (nonlinear_arith)
                            requires
                                dnum == 2 * kx + 1,
                                dden == 2 * adx,
                                dnum * dnum * l2 < md * md * dden * dden,
                        ;
                    }
                }
                if ky >= 1 {
                    if !last_x {
                        assert((2 * ky + 1) * (2 * ky + 1) * l2 < 4 * md * md * ady * ady)
                            by (nonlinear_arith)
                            requires
                                dnum == 2 * ky + 1,
                                dden == 2 * ady,
                                dnum * dnum * l2 < md * md * dden * dden,
                        ;
                    }
                }
            }
            let step_x = (2 * (kx as i64) + 1) * ady < (2 * (ky as i64) + 1) * adx;
            proof {
                if step_x {
                    assert(adx >= 1) by {
                        if gdx == 0 {
                            assert((2 * (ky as i64) + 1) * adx == 0 && (2 * (kx as i64) + 1)
                                * ady >= 0) by (nonlinear_arith)
                                requires
                                    adx == 0,
                                    ady >= 0,
                                    kx >= 0,
                                    ky >= 0,
                            ;
                        }
                    }
                    if kx >= 1 {
                        assert(l2 >= adx * adx) by (nonlinear_arith)
                            requires
                                l2 == gdx * gdx + gdy * gdy,
                                adx == abs_i(gdx),
                        ;
                        lemma_side_bound(kx as int, l2 as int, md as int, adx as int);
                    }
                } else {
                    assert(ady >= 1) by {
                        if gdy == 0 {
                            assert((2 * (kx as i64) + 1) * ady == 0 && (2 * (ky as i64) + 1)
                                * adx >= 1) by (nonlinear_arith)
                                requires
                                    ady == 0,
                                    adx >= 1,
                                    kx >= 0,
                                    ky >= 0,
                            ;
                        }
                    }
                    if ky >= 1 {
                        assert(l2 >= ady * ady) by (nonlinear_arith)
                            requires
                                l2 == gdx * gdx + gdy * gdy,
                                ady == abs_i(gdy),
                        ;
                        lemma_side_bound(ky as int, l2 as int, md as int, ady as int);
                    }
                }
            }
            if step_x {
                kx = kx + 1;
                dnum = 2 * (kx as i64) + 1;
                dden = 2 * adx;
                last_x = true;
            } else {
                ky = ky + 1;
                dnum = 2 * (ky as i64) + 1;
                dden = 2 * ady;
                last_x = false;
            }
            proof {
                if n0 >= 1 {
                    assert((cells@[n0 as int - 1]).x == ray_cell_x(
                        gsx,
                        gdx,
                        gdy,
                        (n0 - 1) as nat,
                    ));
                }
                assert(x_steps(gdx, gdy, n0 + 1) == kx);
                assert(ray_cell_x(gsx, gdx, gdy, n0) == cx);
                assert(ray_cell_y(gsy, gdx, gdy, n0) == cy);
                assert(dist_lt_max(gdx, gdy, gmax, n0));
                assert(ray_runs(*self, gsx, gsy, gdx, gdy, gmax, n0));
            }
            cells.push(Pos { x: cx, y: cy });
            if !self.is_open_tile(Pos { x: cx, y: cy }) {
                blocked = true;
                proof {
                    assert(!ray_runs(*self, gsx, gsy, gdx, gdy, gmax, n0 + 1));
                }
                break ;
            }
            if step_x {
                cx = cx + step_x_dir;
            } else {
                cy = cy + step_y_dir;
            }
            proof {
                assert(ray_cell_x(gsx, gdx, gdy, n0 + 1) == cx);
                assert(ray_cell_y(gsy, gdx, gdy, n0 + 1) == cy);
            }
        }

        proof {
            lemma_guard_products(dnum as int, dden as int, l2 as int, md as int);
            let n = (kx + ky) as nat;
            assert(dnum * dnum * l2 == dist_num(gdx, gdy, n) * dist_num(gdx, gdy, n) * (gdx
                * gdx + gdy * gdy));
            assert(md * md * dden * dden == gmax * gmax * dist_den(gdx, gdy, n) * dist_den(
                gdx,
                gdy,
                n,
            ));
            if n == 0 {
                assert(dnum * dnum * l2 == 0 && md * md * dden * dden >= 0)
                    by (nonlinear_arith)
                    requires
                        dnum == 0,
                        md >= 0,
                        dden >= 1,
                        l2 >= 1,
                ;
            }
        }
        let result: Option<Pos> = if dnum * dnum * l2 > md * md * dden * dden {
            None
        } else {
            Some(Pos { x: cx, y: cy })
        };
        (cells, result)
    }
}

} // verus!
