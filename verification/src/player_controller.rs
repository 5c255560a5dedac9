//! Movement and collision: turning input intent into a new player pose.
//!
//! Rotation is unconditional; a translation is committed only when the
//! candidate position's owning cell is passable (empty or the goal),
//! otherwise the position is left unchanged — a rejected move is a full
//! no-op on both axes. The caller supplies the forward vector
//! `speed * (cos a, sin a)` as a fixed-point pair, and the dead-zone
//! pointer rotation as a precomputed angle delta.

use vstd::prelude::*;
use vstd::arithmetic::div_mod::{lemma_div_is_ordered, lemma_div_is_ordered_by_denominator};
use crate::caster::{cell_index, in_bounds};
use crate::maze::{Maze, MAX_BLOCK, is_goal_tag, is_solid_tag};
use crate::player::{Player, POSE_MAX};
use crate::FP_ONE;

verus! {

/// Movement speed in world units per frame.
pub const MOVE_SPEED: i64 = 5;

/// Rotation speed per key press, in fixed-point radians (0.3 rad).
pub const ROTATION_SPEED_FP: i64 = 19661;

/// Width of the pointer dead zone, in screen pixels.
pub const DEAD_ZONE: i64 = 250;

/// Bound on a forward-vector component: `MOVE_SPEED` world units.
pub const FORWARD_MAX: i64 = 327680;

/// The candidate coordinate after applying the forward (and backward)
/// translation intents to one axis.
pub open spec fn candidate(pos: int, f: int, forward: bool, backward: bool) -> int {
    pos + (if forward {
        f
    } else {
        0
    }) - (if backward {
        f
    } else {
        0
    })
}

/// Whether the cell owning the fixed-point point `(nx, ny)` lets the player
/// stand there: inside the grid and empty or the goal.
pub open spec fn move_allowed(m: Maze, block: int, nx: int, ny: int) -> bool {
    &&& in_bounds(m, block, nx, ny)
    &&& !is_solid_tag(m.tag_at(cell_index(ny, block), cell_index(nx, block)))
}

/// The facing angle after the discrete rotation intents.
pub open spec fn rotated(a: int, left: bool, right: bool) -> int {
    a + (if right {
        ROTATION_SPEED_FP as int
    } else {
        0
    }) - (if left {
        ROTATION_SPEED_FP as int
    } else {
        0
    })
}

/// Resolves one frame of movement intent against the grid.
///
/// Returns the new pose and whether a translation was attempted (the cue an
/// external audio collaborator uses for the walking sound). Rotation never
/// collides; the translation is committed exactly when the candidate
/// position's cell is passable, and otherwise the position is returned
/// bit-identical to the input.
pub fn advance(
    player: &Player,
    maze: &Maze,
    block_size: usize,
    forward_x: i64,
    forward_y: i64,
    move_forward: bool,
    move_backward: bool,
    rotate_left: bool,
    rotate_right: bool,
) -> (r: (Player, bool))
    requires
        maze.wf(),
        1 <= block_size <= MAX_BLOCK,
        player.bounded(),
        -FORWARD_MAX <= forward_x <= FORWARD_MAX,
        -FORWARD_MAX <= forward_y <= FORWARD_MAX,
    ensures
        ({
            let nx = candidate(player.x as int, forward_x as int, move_forward, move_backward);
            let ny = candidate(player.y as int, forward_y as int, move_forward, move_backward);
            &&& r.1 == (move_forward || move_backward)
            &&& r.0.a == rotated(player.a as int, rotate_left, rotate_right)
            &&& r.0.fov == player.fov
            &&& if move_allowed(*maze, block_size as int, nx, ny) {
                r.0.x == nx && r.0.y == ny
            } else {
                r.0.x == player.x && r.0.y == player.y
            }
        }),
{
    let mut nx = player.x;
    let mut ny = player.y;
    let mut moving = false;
    if move_forward {
        nx = nx + forward_x;
        ny = ny + forward_y;
        moving = true;
    }
    if move_backward {
        nx = nx - forward_x;
        ny = ny - forward_y;
        moving = true;
    }
    let mut a = player.a;
    if rotate_left {
        a = a - ROTATION_SPEED_FP;
    }
    if rotate_right {
        a = a + ROTATION_SPEED_FP;
    }
    let allowed = cell_is_passable(maze, block_size, nx, ny);
    if allowed {
        (Player { x: nx, y: ny, a, fov: player.fov }, moving)
    } else {
        (Player { x: player.x, y: player.y, a, fov: player.fov }, moving)
    }
}

/// Whether the cell owning the fixed-point point `(x, y)` is inside the
/// grid and passable (empty or the goal).
pub fn cell_is_passable(maze: &Maze, block_size: usize, x: i64, y: i64) -> (r: bool)
    requires
        maze.wf(),
        1 <= block_size <= MAX_BLOCK,
    ensures
        r == move_allowed(*maze, block_size as int, x as int, y as int),
{
    if x < 0 || y < 0 {
        return false;
    }
    let bfp: i64 = (block_size as i64) * FP_ONE;
    let ix = (x as u64) / (bfp as u64);
    let iy = (y as u64) / (bfp as u64);
    proof {
        assert(ix == cell_index(x as int, block_size as int) && iy == cell_index(
            y as int,
            block_size as int,
        ));
    }
    if ix >= maze.cols() as u64 || iy >= maze.rows() as u64 {
        return false;
    }
    let tag = maze.cell(iy as usize, ix as usize);
    tag == ' ' || tag == 'F'
}

/// The grid cell owning the player's position, as `(row, column)`, with
/// negative coordinates saturating to row or column zero; a position past
/// the far edge simply reports a row or column at or beyond the grid's
/// dimensions.
pub fn calculate_player_pos(player: &Player, block_size: usize) -> (r: (usize, usize))
    requires
        1 <= block_size <= MAX_BLOCK,
        player.bounded(),
    ensures
        r.0 == if player.y < 0 {
            0int
        } else {
            cell_index(player.y as int, block_size as int)
        },
        r.1 == if player.x < 0 {
            0int
        } else {
            cell_index(player.x as int, block_size as int)
        },
{
    let bfp: i64 = (block_size as i64) * FP_ONE;
    let row: u64 = if player.y < 0 {
        0
    } else {
        (player.y as u64) / (bfp as u64)
    };
    let col: u64 = if player.x < 0 {
        0
    } else {
        (player.x as u64) / (bfp as u64)
    };
    proof {
        if player.y >= 0 {
            assert(row == cell_index(player.y as int, block_size as int));
            lemma_div_is_ordered_by_denominator(player.y as int, FP_ONE as int, bfp as int);
            lemma_div_is_ordered(player.y as int, POSE_MAX as int, FP_ONE as int);
            assert(row <= (POSE_MAX as int) / (FP_ONE as int));
        }
        if player.x >= 0 {
            assert(col == cell_index(player.x as int, block_size as int));
            lemma_div_is_ordered_by_denominator(player.x as int, FP_ONE as int, bfp as int);
            lemma_div_is_ordered(player.x as int, POSE_MAX as int, FP_ONE as int);
            assert(col <= (POSE_MAX as int) / (FP_ONE as int));
        }
    }
    (row as usize, col as usize)
}

/// The win condition: whether the player's current cell is the goal cell.
pub fn reached_goal(maze: &Maze, player: &Player, block_size: usize) -> (r: bool)
    requires
        maze.wf(),
        1 <= block_size <= MAX_BLOCK,
    ensures
        r == (in_bounds(*maze, block_size as int, player.x as int, player.y as int) && is_goal_tag(
            maze.tag_at(
                cell_index(player.y as int, block_size as int),
                cell_index(player.x as int, block_size as int),
            ),
        )),
{
    if player.x < 0 || player.y < 0 {
        return false;
    }
    let bfp: i64 = (block_size as i64) * FP_ONE;
    let ix = (player.x as u64) / (bfp as u64);
    let iy = (player.y as u64) / (bfp as u64);
    proof {
        assert(ix == cell_index(player.x as int, block_size as int) && iy == cell_index(
            player.y as int,
            block_size as int,
        ));
    }
    if ix >= maze.cols() as u64 || iy >= maze.rows() as u64 {
        return false;
    }
    maze.cell(iy as usize, ix as usize) == 'F'
}

/// The spec of the dead-zone pointer rotation: a pointer left of the dead
/// zone turns left in proportion to how far left it sits, one right of it
/// turns right in proportion, and a pointer inside the dead zone does not
/// turn at all.
pub open spec fn pointer_rotation_spec(mouse_x: int, width: int) -> int {
    let center = width / 2;
    let left_edge = center - DEAD_ZONE / 2;
    let right_edge = center + DEAD_ZONE / 2;
    if mouse_x < left_edge {
        -((ROTATION_SPEED_FP as int) * (left_edge - mouse_x) / left_edge)
    } else if mouse_x > right_edge {
        (ROTATION_SPEED_FP as int) * (mouse_x - right_edge) / (width - right_edge)
    } else {
        0
    }
}

/// The fixed-point angle delta of one frame of pointer rotation, per
/// [`pointer_rotation_spec`].
pub fn pointer_rotation(mouse_x: i64, width: i64) -> (r: i64)
    requires
        252 <= width <= 100000,
        0 <= mouse_x <= width,
    ensures
        r == pointer_rotation_spec(mouse_x as int, width as int),
{
    let center = width / 2;
    let left_edge = center - 125;
    let right_edge = center + 125;
    proof {
        assert(width as int / 2 == center);
        assert(left_edge >= 1);
        assert(width - right_edge >= 1);
    }
    if mouse_x < left_edge {
        let num = (ROTATION_SPEED_FP as u64) * ((left_edge - mouse_x) as u64);
        let q = num / (left_edge as u64);
        proof {
            assert(q as int == (ROTATION_SPEED_FP as int) * (left_edge - mouse_x) / (
            left_edge as int));
            assert(q <= num);
        }
        -(q as i64)
    } else if mouse_x > right_edge {
        let num = (ROTATION_SPEED_FP as u64) * ((mouse_x - right_edge) as u64);
        let q = num / ((width - right_edge) as u64);
        proof {
            assert(q as int == (ROTATION_SPEED_FP as int) * (mouse_x - right_edge) / (width
                - right_edge));
            assert(q <= num);
        }
        q as i64
    } else {
        0
    }
}

} // verus!
