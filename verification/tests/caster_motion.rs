use raycaster::caster::cast_ray;
use raycaster::framebuffer::Framebuffer;
use raycaster::maze::Maze;
use raycaster::player::Player;
use raycaster::player_controller::{
    advance, calculate_player_pos, cell_is_passable, pointer_rotation, reached_goal,
};
use raycaster::FP_ONE;

fn grid(rows: &[&str]) -> Maze {
    Maze::from_rows(rows.iter().map(|r| r.chars().collect()).collect()).expect("rectangular grid")
}

fn player_at(wx: i64, wy: i64) -> Player {
    Player { x: wx * FP_ONE, y: wy * FP_ONE, a: 0, fov: 0 }
}

const EAST: (i64, i64) = (65536, 0);
const SOUTH: (i64, i64) = (0, 65536);

#[test]
fn cast_in_all_empty_grid_reports_none_at_boundary_distance() {
    let maze = grid(&["   ", "   ", "   "]);
    let mut fb = Framebuffer::new(50, 50);
    let player = player_at(15, 15);
    let hit = cast_ray(&mut fb, &maze, &player, EAST, 10, false);
    // the grid spans 30 world units; from x = 15 the boundary is 15 steps away
    assert_eq!(hit.impact, ' ');
    assert_eq!(hit.distance, 15);
    assert_eq!(hit.impact_pos.0, 30 * FP_ONE);
    assert_eq!(hit.impact_pos.1, 15 * FP_ONE);
}

#[test]
fn cast_straight_at_wall_reports_its_tag_and_distance() {
    let maze = grid(&["#####", "#   #", "#   #", "#   #", "#####"]);
    let mut fb = Framebuffer::new(50, 50);
    let player = player_at(25, 25);
    let hit = cast_ray(&mut fb, &maze, &player, EAST, 10, false);
    // the east wall cells start at x = 40, which is 15 unit steps away
    assert_eq!(hit.impact, '#');
    assert_eq!(hit.distance, 15);
    assert_eq!(hit.impact_pos.0, 40 * FP_ONE);
}

#[test]
fn cast_from_inside_solid_cell_never_hits_at_distance_zero() {
    let maze = grid(&["#####", "#   #", "#   #", "#   #", "#####"]);
    let mut fb = Framebuffer::new(50, 50);
    let player = player_at(5, 5);
    let hit = cast_ray(&mut fb, &maze, &player, EAST, 10, false);
    assert!(hit.distance > 0);
    assert_eq!(hit.distance, 1);
    assert_eq!(hit.impact, '#');
}

#[test]
fn cast_treats_goal_cell_as_transparent() {
    let maze = grid(&["#####", "#   #", "#  F#", "#   #", "#####"]);
    let mut fb = Framebuffer::new(50, 50);
    let player = player_at(25, 25);
    let hit = cast_ray(&mut fb, &maze, &player, EAST, 10, false);
    // the goal cell in column 3 does not stop the ray; the border wall does
    assert_eq!(hit.impact, '#');
    assert_eq!(hit.distance, 15);
}

#[test]
fn cast_sets_trace_color_and_leaves_buffer_without_draw_line() {
    let maze = grid(&["   "]);
    let mut fb = Framebuffer::new(8, 8);
    let player = player_at(5, 2);
    let before: Vec<u32> = fb.buffer.clone();
    let _ = cast_ray(&mut fb, &maze, &player, SOUTH, 10, false);
    assert_eq!(fb.buffer, before);
    assert_eq!(fb.current_color(), 0xFFDDDD);
}

#[test]
fn cast_with_draw_line_plots_the_traversed_points() {
    let maze = grid(&["   "]);
    let mut fb = Framebuffer::new(8, 8);
    let player = player_at(1, 1);
    let hit = cast_ray(&mut fb, &maze, &player, EAST, 10, true);
    // every point short of the stop lies on row 1 of the surface
    assert!(hit.distance > 0);
    for d in 0..hit.distance {
        let x = (1 + d) as usize;
        if x < 8 {
            assert_eq!(fb.buffer[8 + x], 0xFFDDDD);
        }
    }
    assert_eq!(fb.buffer[0], 0);
}

#[test]
fn advance_into_solid_cell_is_a_full_no_op_on_position() {
    let maze = grid(&["#####", "#   #", "#   #", "#   #", "#####"]);
    let player = player_at(35, 25);
    let fx = 5 * FP_ONE;
    let (next, moving) = advance(&player, &maze, 10, fx, 0, true, false, false, false);
    assert!(moving);
    assert_eq!(next.x, player.x);
    assert_eq!(next.y, player.y);
}

#[test]
fn advance_into_empty_cell_moves_exactly_by_the_forward_vector() {
    let maze = grid(&["#####", "#   #", "#   #", "#   #", "#####"]);
    let player = player_at(25, 25);
    let fx = 5 * FP_ONE;
    let fy = 3 * FP_ONE;
    let (next, moving) = advance(&player, &maze, 10, fx, fy, true, false, false, false);
    assert!(moving);
    assert_eq!(next.x, player.x + fx);
    assert_eq!(next.y, player.y + fy);
}

#[test]
fn advance_rotates_unconditionally_and_keeps_fov() {
    let maze = grid(&["#####", "#   #", "#   #", "#   #", "#####"]);
    let player = Player { x: 25 * FP_ONE, y: 25 * FP_ONE, a: 1000, fov: 777 };
    let (next, moving) = advance(&player, &maze, 10, 0, 0, false, false, true, false);
    assert!(!moving);
    assert_eq!(next.a, 1000 - 19661);
    assert_eq!(next.fov, 777);
    let (next2, _) = advance(&player, &maze, 10, 0, 0, false, false, false, true);
    assert_eq!(next2.a, 1000 + 19661);
}

#[test]
fn advance_rejects_a_candidate_outside_the_grid() {
    let maze = grid(&["  "]);
    let player = player_at(5, 5);
    let (next, _) = advance(&player, &maze, 10, 0, 60 * FP_ONE, true, false, false, false);
    assert_eq!(next.x, player.x);
    assert_eq!(next.y, player.y);
}

#[test]
fn passable_cells_are_empty_or_goal_only() {
    let maze = grid(&["# F"]);
    assert!(!cell_is_passable(&maze, 10, 5 * FP_ONE, 5 * FP_ONE));
    assert!(cell_is_passable(&maze, 10, 15 * FP_ONE, 5 * FP_ONE));
    assert!(cell_is_passable(&maze, 10, 25 * FP_ONE, 5 * FP_ONE));
    assert!(!cell_is_passable(&maze, 10, -1, 5 * FP_ONE));
    assert!(!cell_is_passable(&maze, 10, 35 * FP_ONE, 5 * FP_ONE));
}

#[test]
fn player_cell_is_floor_of_position_over_block_size() {
    let player = player_at(135, 150);
    let (row, col) = calculate_player_pos(&player, 55);
    assert_eq!((row, col), (2, 2));
    let neg = Player { x: -3 * FP_ONE, y: -9 * FP_ONE, a: 0, fov: 0 };
    assert_eq!(calculate_player_pos(&neg, 55), (0, 0));
}

#[test]
fn walking_toward_the_corridor_converges_on_the_goal_cell() {
    let maze = grid(&["#####", "#   #", "#  F#", "#   #", "#####"]);
    let block = 10;
    let mut player = player_at(25, 25);
    let fx = 5 * FP_ONE;
    let mut steps = 0;
    while !reached_goal(&maze, &player, block) {
        let (next, _) = advance(&player, &maze, block, fx, 0, true, false, false, false);
        assert!(next.x > player.x, "the corridor east must stay walkable");
        player = next;
        steps += 1;
        assert!(steps < 10);
    }
    // the goal sits in grid row 2, column 3: exactly floor(pos / block)
    let (row, col) = calculate_player_pos(&player, block);
    assert_eq!((row, col), (2, 3));
}

#[test]
fn pointer_rotation_scales_with_distance_outside_the_dead_zone() {
    // width 900: center 450, dead zone edges at 325 and 575
    assert_eq!(pointer_rotation(0, 900), -19661);
    assert_eq!(pointer_rotation(325, 900), 0);
    assert_eq!(pointer_rotation(450, 900), 0);
    assert_eq!(pointer_rotation(575, 900), 0);
    assert_eq!(pointer_rotation(900, 900), 19661);
    // halfway into the left zone turns about half as fast
    let halfway = pointer_rotation(162, 900);
    assert!(-19661 < halfway && halfway < -9000);
}

#[test]
fn malformed_grids_are_rejected_at_load_time() {
    let ragged: Vec<Vec<char>> = vec![vec![' ', ' '], vec![' ']];
    assert!(Maze::from_rows(ragged).is_none());
    let square: Vec<Vec<char>> = vec![vec![' ', '#'], vec!['F', ' ']];
    let m = Maze::from_rows(square).expect("rectangular");
    assert_eq!(m.rows(), 2);
    assert_eq!(m.cols(), 2);
    assert_eq!(m.cell(0, 1), '#');
    assert_eq!(m.cell(1, 0), 'F');
}
