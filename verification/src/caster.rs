//! The ray caster: marching outward from the player along a fixed direction
//! in unit steps until the ray leaves the grid or meets a solid cell.
//!
//! A direction is a fixed-point unit vector `(dx, dy)` scaled by
//! [`crate::FP_ONE`] (the caller derives it from the ray angle), so one march
//! step advances the candidate point by one world unit along the ray.

use vstd::prelude::*;
use vstd::arithmetic::div_mod::lemma_fundamental_div_mod;
use crate::framebuffer::Framebuffer;
use crate::maze::{Maze, MAX_BLOCK, is_solid_tag};
use crate::player::Player;
use crate::FP_ONE;

verus! {

/// Half of one fixed-point world unit.
pub const HALF_UNIT: i64 = 32768;

/// Magnitude of an integer.
pub open spec fn abs_spec(v: int) -> int {
    if v >= 0 {
        v
    } else {
        -v
    }
}

/// An acceptable ray direction: each component is at most one world unit,
/// and the vector is long enough that every march step moves the candidate
/// point by at least half a unit in some axis. Rounding a true unit vector
/// to fixed point always satisfies this.
pub open spec fn dir_valid(dx: int, dy: int) -> bool {
    &&& -(FP_ONE as int) <= dx <= FP_ONE as int
    &&& -(FP_ONE as int) <= dy <= FP_ONE as int
    &&& abs_spec(dx) + abs_spec(dy) >= HALF_UNIT as int
}

/// The grid cell index owning the continuous fixed-point coordinate
/// `coord`, for cells of `block` world units.
pub open spec fn cell_index(coord: int, block: int) -> int {
    coord / (block * (FP_ONE as int))
}

/// Whether the fixed-point point `(x, y)` lies inside the grid.
pub open spec fn in_bounds(m: Maze, block: int, x: int, y: int) -> bool {
    &&& 0 <= x
    &&& 0 <= y
    &&& cell_index(x, block) < m.cols_spec()
    &&& cell_index(y, block) < m.rows_spec()
}

/// Whether the point at march step `k` lies inside the grid.
pub open spec fn step_in_bounds(
    m: Maze,
    block: int,
    px: int,
    py: int,
    dx: int,
    dy: int,
    k: int,
) -> bool {
    in_bounds(m, block, px + k * dx, py + k * dy)
}

/// Whether the march stops at step `d`: the candidate point has left the
/// grid, or (past the very first step) it lies on a solid cell. The `d > 0`
/// guard keeps a ray whose origin cell is solid from reporting an immediate
/// hit.
pub open spec fn stops(m: Maze, block: int, px: int, py: int, dx: int, dy: int, d: int) -> bool {
    let x = px + d * dx;
    let y = py + d * dy;
    ||| !in_bounds(m, block, x, y)
    ||| (d > 0 && is_solid_tag(m.tag_at(cell_index(y, block), cell_index(x, block))))
}

/// What one ray cast reports: the march distance in world units, the tag of
/// the solid cell that was hit (`' '` when the ray left the grid without a
/// hit), and the exact fixed-point impact point.
pub ghost struct RayHit {
    pub distance: int,
    pub tag: char,
    pub x: int,
    pub y: int,
}

/// The report produced when the march stops at step `d`.
pub open spec fn hit_at(m: Maze, block: int, px: int, py: int, dx: int, dy: int, d: int) -> RayHit {
    let x = px + d * dx;
    let y = py + d * dy;
    RayHit {
        distance: d,
        tag: if !in_bounds(m, block, x, y) {
            ' '
        } else {
            m.tag_at(cell_index(y, block), cell_index(x, block))
        },
        x: x,
        y: y,
    }
}

/// The march itself: from step `d` upward, stop at the first stopping step.
/// `fuel` only forces termination; with [`march_bound`] steps available it
/// never runs out.
pub open spec fn march(
    m: Maze,
    block: int,
    px: int,
    py: int,
    dx: int,
    dy: int,
    d: int,
    fuel: nat,
) -> RayHit
    decreases fuel,
{
    if stops(m, block, px, py, dx, dy, d) || fuel == 0 {
        hit_at(m, block, px, py, dx, dy, d)
    } else {
        march(m, block, px, py, dx, dy, d + 1, (fuel - 1) as nat)
    }
}

/// An upper bound on the number of march steps: a ray that is still inside
/// the grid after this many unit steps would have crossed more ground than
/// the grid holds.
pub open spec fn march_bound(m: Maze, block: int) -> int {
    2 * (m.rows_spec() + m.cols_spec()) * block
}

/// The result of casting one ray from `(px, py)` along `(dx, dy)`.
pub open spec fn cast_spec(m: Maze, block: int, px: int, py: int, dx: int, dy: int) -> RayHit {
    march(m, block, px, py, dx, dy, 0, (march_bound(m, block) + 2) as nat)
}

/// A coordinate inside the grid is below the grid's fixed-point extent.
pub proof fn lemma_in_bounds_coord(m: Maze, block: int, x: int, y: int)
    requires
        1 <= block,
        in_bounds(m, block, x, y),
    ensures
        x < m.cols_spec() * block * (FP_ONE as int),
        y < m.rows_spec() * block * (FP_ONE as int),
{
    let b = block * (FP_ONE as int);
    assert(b >= 1) by (nonlinear_arith)
        requires
            block >= 1,
            b == block * (FP_ONE as int),
            (FP_ONE as int) >= 1,
    ;
    lemma_fundamental_div_mod(x, b);
    lemma_fundamental_div_mod(y, b);
    assert(x < m.cols_spec() * b) by (nonlinear_arith)
        requires
            x == b * (x / b) + x % b,
            0 <= x % b < b,
            x / b < m.cols_spec(),
            b >= 1,
    ;
    assert(y < m.rows_spec() * b) by (nonlinear_arith)
        requires
            y == b * (y / b) + y % b,
            0 <= y % b < b,
            y / b < m.rows_spec(),
            b >= 1,
    ;
    assert(m.cols_spec() * b == m.cols_spec() * block * (FP_ONE as int)) by (nonlinear_arith)
        requires
            b == block * (FP_ONE as int),
    ;
    assert(m.rows_spec() * b == m.rows_spec() * block * (FP_ONE as int)) by (nonlinear_arith)
        requires
            b == block * (FP_ONE as int),
    ;
}

/// A ray that starts inside the grid and is still inside after `d` unit
/// steps has not yet marched [`march_bound`] steps.
proof fn lemma_escape(m: Maze, block: int, px: int, py: int, dx: int, dy: int, d: int)
    requires
        1 <= block,
        dir_valid(dx, dy),
        in_bounds(m, block, px, py),
        in_bounds(m, block, px + d * dx, py + d * dy),
        0 <= d,
    ensures
        d < march_bound(m, block),
{
    let f = FP_ONE as int;
    let cx = m.cols_spec() * block * f;
    let cy = m.rows_spec() * block * f;
    lemma_in_bounds_coord(m, block, px, py);
    lemma_in_bounds_coord(m, block, px + d * dx, py + d * dy);
    assert(-cx < d * dx < cx);
    assert(-cy < d * dy < cy);
    assert(d * abs_spec(dx) < cx) by (nonlinear_arith)
        requires
            0 <= d,
            -cx < d * dx < cx,
    ;
    assert(d * abs_spec(dy) < cy) by (nonlinear_arith)
        requires
            0 <= d,
            -cy < d * dy < cy,
    ;
    assert(d * (HALF_UNIT as int) < cx + cy) by (nonlinear_arith)
        requires
            0 <= d,
            abs_spec(dx) + abs_spec(dy) >= HALF_UNIT as int,
            d * abs_spec(dx) < cx,
            d * abs_spec(dy) < cy,
    ;
    assert(d < 2 * (m.rows_spec() + m.cols_spec()) * block) by (nonlinear_arith)
        requires
            d * (HALF_UNIT as int) < cx + cy,
            cx == m.cols_spec() * block * f,
            cy == m.rows_spec() * block * f,
            f == 2 * (HALF_UNIT as int),
            HALF_UNIT as int > 0,
            0 <= d,
    ;
}

/// If `dstar` is the first stopping step at or after `d0`, a march from
/// `d0` with enough fuel reports the stop at `dstar`.
proof fn lemma_march_stops(
    m: Maze,
    block: int,
    px: int,
    py: int,
    dx: int,
    dy: int,
    d0: int,
    dstar: int,
    fuel: nat,
)
    requires
        0 <= d0 <= dstar,
        stops(m, block, px, py, dx, dy, dstar),
        forall|k: int| d0 <= k < dstar ==> !stops(m, block, px, py, dx, dy, k),
        fuel >= dstar - d0,
    ensures
        march(m, block, px, py, dx, dy, d0, fuel) == hit_at(m, block, px, py, dx, dy, dstar),
    decreases dstar - d0,
{
    if d0 < dstar {
        assert(!stops(m, block, px, py, dx, dy, d0));
        lemma_march_stops(m, block, px, py, dx, dy, d0 + 1, dstar, (fuel - 1) as nat);
    }
}

/// There is a first stopping step, and it is within [`march_bound`];
/// returns it.
proof fn lemma_find_least_stop(
    m: Maze,
    block: int,
    px: int,
    py: int,
    dx: int,
    dy: int,
    d: int,
) -> (dstar: int)
    requires
        1 <= block,
        dir_valid(dx, dy),
        0 <= d,
        forall|k: int| 0 <= k < d ==> !stops(m, block, px, py, dx, dy, k),
        d == 0 || d <= march_bound(m, block),
    ensures
        d <= dstar <= march_bound(m, block) + 1,
        stops(m, block, px, py, dx, dy, dstar),
        forall|k: int| 0 <= k < dstar ==> !stops(m, block, px, py, dx, dy, k),
    decreases march_bound(m, block) + 1 - d,
{
    if stops(m, block, px, py, dx, dy, d) {
        if d > march_bound(m, block) + 1 {
            // impossible: the step before d was still in bounds
            assert(!stops(m, block, px, py, dx, dy, 0));
            assert(!stops(m, block, px, py, dx, dy, d - 1));
            lemma_escape(m, block, px, py, dx, dy, d - 1);
        }
        d
    } else {
        // still inside the grid, so d is below the bound and we can step on
        assert(in_bounds(m, block, px + d * dx, py + d * dy));
        if d > 0 {
            assert(!stops(m, block, px, py, dx, dy, 0));
        }
        lemma_escape(m, block, px, py, dx, dy, d);
        lemma_find_least_stop(m, block, px, py, dx, dy, d + 1)
    }
}

/// The full characterization of one cast: the reported distance is the
/// first stopping step of the march, the impact point is exactly the
/// player position plus `distance` times the direction, and the tag is
/// `' '` when the point left the grid, else the tag of the cell it lies on.
pub proof fn lemma_cast_characterized(m: Maze, block: int, px: int, py: int, dx: int, dy: int)
    requires
        1 <= block,
        dir_valid(dx, dy),
    ensures
        ({
            let r = cast_spec(m, block, px, py, dx, dy);
            &&& 0 <= r.distance <= march_bound(m, block) + 1
            &&& r.x == px + r.distance * dx
            &&& r.y == py + r.distance * dy
            &&& stops(m, block, px, py, dx, dy, r.distance)
            &&& forall|k: int| 0 <= k < r.distance ==> !stops(m, block, px, py, dx, dy, k)
            &&& (r.tag == ' ' && !in_bounds(m, block, r.x, r.y)) || (in_bounds(m, block, r.x, r.y)
                && r.tag == m.tag_at(cell_index(r.y, block), cell_index(r.x, block))
                && is_solid_tag(r.tag) && r.distance > 0)
        }),
{
    let dstar = lemma_find_least_stop(m, block, px, py, dx, dy, 0);
    lemma_march_stops(m, block, px, py, dx, dy, 0, dstar, (march_bound(m, block) + 2) as nat);
}

/// A cast never reports a wall hit at distance zero, even when the ray's
/// origin cell is itself solid: a reported tag other than `' '` comes with
/// a strictly positive distance.
pub proof fn lemma_no_hit_at_distance_zero(
    m: Maze,
    block: int,
    px: int,
    py: int,
    dx: int,
    dy: int,
)
    requires
        1 <= block,
        dir_valid(dx, dy),
    ensures
        cast_spec(m, block, px, py, dx, dy).tag == ' ' || cast_spec(
            m,
            block,
            px,
            py,
            dx,
            dy,
        ).distance >= 1,
{
    lemma_cast_characterized(m, block, px, py, dx, dy);
}

/// On an all-empty grid, a cast from a point inside the grid reports no
/// impact, and its distance is exactly the Euclidean distance along the ray
/// to the boundary, to within one unit step: the point one step short of
/// the reported distance still lies inside the grid, and the point at the
/// reported distance lies outside.
pub proof fn lemma_cast_all_empty(m: Maze, block: int, px: int, py: int, dx: int, dy: int)
    requires
        m.wf(),
        1 <= block,
        dir_valid(dx, dy),
        in_bounds(m, block, px, py),
        forall|j: int, i: int|
            0 <= j < m.rows_spec() && 0 <= i < m.cols_spec() ==> !is_solid_tag(
                #[trigger] m.tag_at(j, i),
            ),
    ensures
        ({
            let r = cast_spec(m, block, px, py, dx, dy);
            &&& r.tag == ' '
            &&& r.distance >= 1
            &&& !in_bounds(m, block, r.x, r.y)
            &&& forall|k: int|
                0 <= k < r.distance ==> #[trigger] step_in_bounds(m, block, px, py, dx, dy, k)
        }),
{
    lemma_cast_characterized(m, block, px, py, dx, dy);
    let r = cast_spec(m, block, px, py, dx, dy);
    assert forall|k: int| 0 <= k < r.distance implies #[trigger] step_in_bounds(
        m,
        block,
        px,
        py,
        dx,
        dy,
        k,
    ) by {
        assert(!stops(m, block, px, py, dx, dy, k));
    }
    if in_bounds(m, block, r.x, r.y) {
        let b = block * (FP_ONE as int);
        assert(b >= 1) by (nonlinear_arith)
            requires
                block >= 1,
                b == block * (FP_ONE as int),
                (FP_ONE as int) >= 1,
        ;
        assert(cell_index(r.x, block) >= 0) by (nonlinear_arith)
            requires
                r.x >= 0,
                b >= 1,
                cell_index(r.x, block) == r.x / b,
        ;
        assert(cell_index(r.y, block) >= 0) by (nonlinear_arith)
            requires
                r.y >= 0,
                b >= 1,
                cell_index(r.y, block) == r.y / b,
        ;
        assert(!is_solid_tag(m.tag_at(cell_index(r.y, block), cell_index(r.x, block))));
    }
    assert(!stops(m, block, px, py, dx, dy, 0));
}

/// A reported impact names the exact cell that was hit: when the tag is not
/// `' '`, the impact point lies inside the grid on a solid cell carrying
/// exactly that tag, at a strictly positive distance, and no earlier point
/// on the ray left the grid or met a solid cell.
pub proof fn lemma_cast_hit(m: Maze, block: int, px: int, py: int, dx: int, dy: int)
    requires
        1 <= block,
        dir_valid(dx, dy),
    ensures
        ({
            let r = cast_spec(m, block, px, py, dx, dy);
            r.tag != ' ' ==> {
                &&& r.distance >= 1
                &&& r.x == px + r.distance * dx
                &&& r.y == py + r.distance * dy
                &&& in_bounds(m, block, r.x, r.y)
                &&& r.tag == m.tag_at(cell_index(r.y, block), cell_index(r.x, block))
                &&& is_solid_tag(r.tag)
                &&& forall|k: int| 0 <= k < r.distance ==> !stops(m, block, px, py, dx, dy, k)
            }
        }),
{
    lemma_cast_characterized(m, block, px, py, dx, dy);
}

/// What one ray cast reports, as executable data: the march distance in
/// world units, the tag of the cell that was hit (`' '` for none), and the
/// exact fixed-point impact coordinate.
pub struct Intersect {
    pub distance: i64,
    pub impact: char,
    pub impact_pos: (i64, i64),
}

impl Intersect {
    /// The mathematical report this value carries.
    pub open spec fn view_spec(self) -> RayHit {
        RayHit {
            distance: self.distance as int,
            tag: self.impact,
            x: self.impact_pos.0 as int,
            y: self.impact_pos.1 as int,
        }
    }
}

/// The whole screen pixel column of the point at march step `k`.
pub open spec fn plot_x(px: int, dx: int, k: int) -> int {
    (px + k * dx) / (FP_ONE as int)
}

/// The whole screen pixel row of the point at march step `k`.
pub open spec fn plot_y(py: int, dy: int, k: int) -> int {
    (py + k * dy) / (FP_ONE as int)
}

/// Whether buffer index `p` is on the debug trace of a ray of length
/// `dist`: some march step lands on the screen pixel owning index `p`.
pub open spec fn ray_plot_covers(
    px: int,
    py: int,
    dx: int,
    dy: int,
    dist: int,
    w: int,
    h: int,
    p: int,
) -> bool {
    exists|k: int|
        {
            &&& 0 <= k < dist
            &&& 0 <= #[trigger] plot_x(px, dx, k) < w
            &&& 0 <= #[trigger] plot_y(py, dy, k) < h
            &&& p == plot_y(py, dy, k) * w + plot_x(px, dx, k)
        }
}

/// Casts one ray: marches from the player position along `dir` in unit
/// steps and reports the first stop, as [`cast_spec`] describes. With
/// `draw_line` the traversed points are plotted into the surface for debug
/// visualization; the draw color is left at the trace color either way.
pub fn cast_ray(
    framebuffer: &mut Framebuffer,
    maze: &Maze,
    player: &Player,
    dir: (i64, i64),
    block_size: usize,
    draw_line: bool,
) -> (r: Intersect)
    requires
        old(framebuffer).wf(),
        maze.wf(),
        1 <= block_size <= MAX_BLOCK,
        dir_valid(dir.0 as int, dir.1 as int),
    ensures
        final(framebuffer).wf(),
        final(framebuffer).width == old(framebuffer).width,
        final(framebuffer).height == old(framebuffer).height,
        final(framebuffer).background_spec() == old(framebuffer).background_spec(),
        final(framebuffer).current_spec() == 0xFFDDDDu32,
        r.view_spec() == cast_spec(
            *maze,
            block_size as int,
            player.x as int,
            player.y as int,
            dir.0 as int,
            dir.1 as int,
        ),
        !draw_line ==> final(framebuffer).buffer@ == old(framebuffer).buffer@,
        draw_line ==> forall|p: int|
            0 <= p < final(framebuffer).buffer@.len() ==> final(framebuffer).buffer@[p] == (
            if ray_plot_covers(
                player.x as int,
                player.y as int,
                dir.0 as int,
                dir.1 as int,
                r.distance as int,
                old(framebuffer).width as int,
                old(framebuffer).height as int,
                p,
            ) {
                0xFFDDDDu32
            } else {
                old(framebuffer).buffer@[p]
            }),
{
    framebuffer.set_current_color(0xFFDDDD);
    let px = player.x;
    let py = player.y;
    let dx = dir.0;
    let dy = dir.1;
    let bfp: i64 = (block_size as i64) * FP_ONE;
    let cols64: i64 = maze.cols() as i64;
    let rows64: i64 = maze.rows() as i64;
    let ghost bi = block_size as int;
    let ghost w = old(framebuffer).width as int;
    let ghost h = old(framebuffer).height as int;
    let mut d: i64 = 0;
    let mut x: i64 = px;
    let mut y: i64 = py;
    proof {
        assert(march_bound(*maze, bi) >= 0) by (nonlinear_arith)
            requires
                0 <= maze.cols_spec(),
                0 <= maze.rows_spec(),
                1 <= bi,
                march_bound(*maze, bi) == 2 * (maze.rows_spec() + maze.cols_spec()) * bi,
        ;
    }
    loop
        invariant
            framebuffer.wf(),
            framebuffer.width == old(framebuffer).width,
            framebuffer.height == old(framebuffer).height,
            framebuffer.background_spec() == old(framebuffer).background_spec(),
            framebuffer.current_spec() == 0xFFDDDDu32,
            maze.wf(),
            1 <= block_size <= MAX_BLOCK,
            dir_valid(dx as int, dy as int),
            bfp == block_size * FP_ONE,
            bi == block_size as int,
            px == player.x,
            py == player.y,
            dx == dir.0,
            dy == dir.1,
            framebuffer.buffer@.len() == old(framebuffer).buffer@.len(),
            cols64 == maze.cols_spec(),
            rows64 == maze.rows_spec(),
            w == old(framebuffer).width as int,
            h == old(framebuffer).height as int,
            0 <= d <= march_bound(*maze, bi),
            x == px + d * dx,
            y == py + d * dy,
            forall|k: int| 0 <= k < d ==> !stops(*maze, bi, px as int, py as int, dx as int, dy as int, k),
            !draw_line ==> framebuffer.buffer@ == old(framebuffer).buffer@,
            draw_line ==> forall|p: int|
                0 <= p < framebuffer.buffer@.len() ==> framebuffer.buffer@[p] == (
                if ray_plot_covers(px as int, py as int, dx as int, dy as int, d as int, w, h, p) {
                    0xFFDDDDu32
                } else {
                    old(framebuffer).buffer@[p]
                }),
        decreases march_bound(*maze, bi) + 1 - d,
    {
        let ghost dd = d as int;
        if x < 0 || y < 0 {
            proof {
                assert(stops(*maze, bi, px as int, py as int, dx as int, dy as int, dd));
                lemma_march_stops(
                    *maze,
                    bi,
                    px as int,
                    py as int,
                    dx as int,
                    dy as int,
                    0,
                    dd,
                    (march_bound(*maze, bi) + 2) as nat,
                );
            }
            return Intersect { distance: d, impact: ' ', impact_pos: (x, y) };
        }
        proof {
            assert(bfp >= 1 && bfp <= 0x10000000) by (nonlinear_arith)
                requires
                    bfp == block_size * FP_ONE,
                    1 <= block_size <= 4096,
                    FP_ONE == 65536,
            ;
        }
        let ux = x as u64;
        let uy = y as u64;
        let ubfp = bfp as u64;
        let ix = ux / ubfp;
        let iy = uy / ubfp;
        proof {
            assert(ux == x as int && uy == y as int && ubfp == bfp as int);
            assert(bfp as int == bi * (FP_ONE as int));
            assert(ix as int == (x as int) / (bi * (FP_ONE as int)));
            assert(iy as int == (y as int) / (bi * (FP_ONE as int)));
            assert(ix == cell_index(x as int, bi) && iy == cell_index(y as int, bi));
        }
        if ix >= cols64 as u64 || iy >= rows64 as u64 {
            proof {
                assert(stops(*maze, bi, px as int, py as int, dx as int, dy as int, dd));
                lemma_march_stops(
                    *maze,
                    bi,
                    px as int,
                    py as int,
                    dx as int,
                    dy as int,
                    0,
                    dd,
                    (march_bound(*maze, bi) + 2) as nat,
                );
            }
            return Intersect { distance: d, impact: ' ', impact_pos: (x, y) };
        }
        let tag = maze.cell(iy as usize, ix as usize);
        if tag != ' ' && tag != 'F' && d > 0 {
            proof {
                assert(stops(*maze, bi, px as int, py as int, dx as int, dy as int, dd));
                lemma_march_stops(
                    *maze,
                    bi,
                    px as int,
                    py as int,
                    dx as int,
                    dy as int,
                    0,
                    dd,
                    (march_bound(*maze, bi) + 2) as nat,
                );
            }
            return Intersect { distance: d, impact: tag, impact_pos: (x, y) };
        }
        // the point is inside the grid on a passable cell: march on
        proof {
            assert(!stops(*maze, bi, px as int, py as int, dx as int, dy as int, dd));
            if d > 0 {
                assert(!stops(*maze, bi, px as int, py as int, dx as int, dy as int, 0));
            }
            lemma_escape(*maze, bi, px as int, py as int, dx as int, dy as int, dd);
            lemma_in_bounds_coord(*maze, bi, x as int, y as int);
            assert(maze.cols_spec() * bi * (FP_ONE as int) <= 0x10000000000int) by (nonlinear_arith)
                requires
                    0 <= maze.cols_spec() <= 4096,
                    1 <= bi <= 4096,
                    FP_ONE == 65536,
            ;
            assert(maze.rows_spec() * bi * (FP_ONE as int) <= 0x10000000000int) by (nonlinear_arith)
                requires
                    0 <= maze.rows_spec() <= 4096,
                    1 <= bi <= 4096,
                    FP_ONE == 65536,
            ;
            assert(2 * (maze.rows_spec() + maze.cols_spec()) * bi <= 0x8000000int)
                by (nonlinear_arith)
                requires
                    0 <= maze.cols_spec() <= 4096,
                    0 <= maze.rows_spec() <= 4096,
                    1 <= bi <= 4096,
            ;
        }
        if draw_line {
            proof {
                let f = FP_ONE as int;
                lemma_fundamental_div_mod(x as int, f);
                lemma_fundamental_div_mod(y as int, f);
                assert((x as int) / f < 0x1000000int) by (nonlinear_arith)
                    requires
                        (x as int) == f * ((x as int) / f) + (x as int) % f,
                        0 <= (x as int) % f < f,
                        (x as int) < 0x10000000000int,
                        f == 65536,
                ;
                assert((y as int) / f < 0x1000000int) by (nonlinear_arith)
                    requires
                        (y as int) == f * ((y as int) / f) + (y as int) % f,
                        0 <= (y as int) % f < f,
                        (y as int) < 0x10000000000int,
                        f == 65536,
                ;
            }
            let sx = (ux / (FP_ONE as u64)) as usize;
            let sy = (uy / (FP_ONE as u64)) as usize;
            let ghost pre = framebuffer.buffer@;
            framebuffer.point(sx, sy);
            proof {
                lemma_plot_step(
                    px as int,
                    py as int,
                    dx as int,
                    dy as int,
                    dd,
                    w,
                    h,
                    pre,
                    framebuffer.buffer@,
                    old(framebuffer).buffer@,
                    sx as int,
                    sy as int,
                );
            }
        }
        proof {
            assert((dd + 1) * (dx as int) == dd * (dx as int) + dx) by (nonlinear_arith);
            assert((dd + 1) * (dy as int) == dd * (dy as int) + dy) by (nonlinear_arith);
        }
        x = x + dx;
        y = y + dy;
        d = d + 1;
    }
}

/// One debug-plot step extends the set of traced buffer indices by exactly
/// the pixel of march step `d`.
proof fn lemma_plot_step(
    px: int,
    py: int,
    dx: int,
    dy: int,
    d: int,
    w: int,
    h: int,
    pre: Seq<u32>,
    post: Seq<u32>,
    base: Seq<u32>,
    sx: int,
    sy: int,
)
    requires
        0 <= d,
        0 <= w,
        0 <= h,
        pre.len() == base.len(),
        pre.len() == w * h,
        sx == (px + d * dx) / (FP_ONE as int),
        sy == (py + d * dy) / (FP_ONE as int),
        0 <= sx,
        0 <= sy,
        post == if sx < w && sy < h {
            pre.update(sy * w + sx, 0xFFDDDDu32)
        } else {
            pre
        },
        forall|p: int|
            0 <= p < pre.len() ==> pre[p] == if ray_plot_covers(px, py, dx, dy, d, w, h, p) {
                0xFFDDDDu32
            } else {
                base[p]
            },
    ensures
        forall|p: int|
            0 <= p < post.len() ==> post[p] == if ray_plot_covers(px, py, dx, dy, d + 1, w, h, p) {
                0xFFDDDDu32
            } else {
                base[p]
            },
{
    assert forall|p: int| 0 <= p < post.len() implies post[p] == if ray_plot_covers(
        px,
        py,
        dx,
        dy,
        d + 1,
        w,
        h,
        p,
    ) {
        0xFFDDDDu32
    } else {
        base[p]
    } by {
        if sx < w && sy < h {
            crate::renderer::lemma_row_major_in_range(sx, sy, w, h);
        }
        if sx < w && sy < h && p == sy * w + sx {
            crate::renderer::lemma_row_major_in_range(sx, sy, w, h);
            assert(0 <= d < d + 1 && 0 <= plot_x(px, dx, d) < w && 0 <= plot_y(py, dy, d) < h
                && p == plot_y(py, dy, d) * w + plot_x(px, dx, d));
            assert(ray_plot_covers(px, py, dx, dy, d + 1, w, h, p));
        } else {
            assert(post[p] == pre[p]);
            if ray_plot_covers(px, py, dx, dy, d + 1, w, h, p) {
                let k = choose|k: int|
                    {
                        &&& 0 <= k < d + 1
                        &&& 0 <= #[trigger] plot_x(px, dx, k) < w
                        &&& 0 <= #[trigger] plot_y(py, dy, k) < h
                        &&& p == plot_y(py, dy, k) * w + plot_x(px, dx, k)
                    };
                if k == d {
                    assert(p == sy * w + sx && sx < w && sy < h);
                } else {
                    assert(ray_plot_covers(px, py, dx, dy, d, w, h, p));
                }
            }
            if ray_plot_covers(px, py, dx, dy, d, w, h, p) {
                let k = choose|k: int|
                    {
                        &&& 0 <= k < d
                        &&& 0 <= #[trigger] plot_x(px, dx, k) < w
                        &&& 0 <= #[trigger] plot_y(py, dy, k) < h
                        &&& p == plot_y(py, dy, k) * w + plot_x(px, dx, k)
                    };
                assert(0 <= k < d + 1);
                assert(ray_plot_covers(px, py, dx, dy, d + 1, w, h, p));
            }
        }
    }
}

} // verus!
