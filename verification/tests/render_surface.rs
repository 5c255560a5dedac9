use raycaster::framebuffer::Framebuffer;
use raycaster::maze::Maze;
use raycaster::menu::{is_mouse_over_easy, is_mouse_over_hard, menu_frame, MenuChoice, MenuDisplay};
use raycaster::player::Player;
use raycaster::renderer::{
    column_angle, draw_centered_image, pack_rgba, render3d, render_2d, render_minimap, wall_tex_x,
    wall_tex_y, world_px,
};
use raycaster::FP_ONE;

fn grid(rows: &[&str]) -> Maze {
    Maze::from_rows(rows.iter().map(|r| r.chars().collect()).collect()).expect("rectangular grid")
}

#[test]
fn a_new_surface_is_black_with_a_white_draw_color() {
    let fb = Framebuffer::new(4, 3);
    assert_eq!(fb.width, 4);
    assert_eq!(fb.height, 3);
    assert_eq!(fb.buffer.len(), 12);
    assert!(fb.buffer.iter().all(|&c| c == 0));
    assert_eq!(fb.current_color(), 0xFFFFFF);
}

#[test]
fn clear_fills_with_the_background_color() {
    let mut fb = Framebuffer::new(3, 3);
    fb.set_background_color(0x333355);
    fb.clear();
    assert!(fb.buffer.iter().all(|&c| c == 0x333355));
}

#[test]
fn point_writes_the_current_color_and_clips() {
    let mut fb = Framebuffer::new(3, 2);
    fb.set_current_color(0xABCDEF);
    fb.point(2, 1);
    assert_eq!(fb.buffer[1 * 3 + 2], 0xABCDEF);
    fb.point(3, 0);
    fb.point(0, 2);
    let touched = fb.buffer.iter().filter(|&&c| c == 0xABCDEF).count();
    assert_eq!(touched, 1);
}

#[test]
fn pack_rgba_packs_alpha_red_green_blue() {
    let bytes: Vec<u8> = vec![1, 2, 3, 4, 0xFF, 0, 0, 0x80, 9];
    let px = pack_rgba(&bytes);
    assert_eq!(px.len(), 2);
    assert_eq!(px[0], 0x04010203);
    assert_eq!(px[1], 0x80FF0000);
}

#[test]
fn wall_texture_indices_stay_in_range_for_extreme_inputs() {
    // impact exactly on a cell boundary samples column zero
    assert_eq!(wall_tex_x('#', 40 * FP_ONE, 5 * FP_ONE, 10, 64), 0);
    // one sub-unit short of the next boundary samples the last column
    assert_eq!(wall_tex_x('#', 10 * FP_ONE - 1, 0, 10, 64), 63);
    // the vertical-run tag samples along y instead of x: 5.5 of 10 units
    assert_eq!(wall_tex_x('|', 40 * FP_ONE, 5 * FP_ONE + 32768, 10, 64), 35);
    // a tiny projected height clamps the vertical index to the last row
    assert_eq!(wall_tex_y(100, 16, 10), 15);
    assert_eq!(wall_tex_y(0, 16, 400), 0);
    for off in [0usize, 1, 7, 399] {
        let ty = wall_tex_y(off, 16, 400);
        assert!(ty < 16);
    }
}

#[test]
fn render_2d_blits_cells_and_the_player_square() {
    let mut fb = Framebuffer::new(40, 40);
    let maze = grid(&["# ", " F"]);
    let wall: Vec<u32> = vec![1, 2, 3, 4];
    let flag: Vec<u32> = vec![9];
    let player = Player { x: 20 * FP_ONE, y: 20 * FP_ONE, a: 0, fov: 0 };
    render_2d(&mut fb, &player, &maze, 4, &wall, 2, 2, &flag, 1, 1);
    // top-left wall cell: its first pixel samples the wall texture's corner
    assert_eq!(fb.buffer[0], 1);
    assert_eq!(fb.buffer[3 * 40 + 3], 4);
    // the empty cell to its right keeps the old buffer
    assert_eq!(fb.buffer[0 * 40 + 5], 0);
    // the goal cell samples the flag texture
    assert_eq!(fb.buffer[5 * 40 + 5], 9);
    // the player square of radius 5 covers its center pixel
    assert_eq!(fb.buffer[20 * 40 + 20], 0xFFDDD);
    assert_eq!(fb.buffer[15 * 40 + 15], 0xFFDDD);
    assert_eq!(fb.buffer[14 * 40 + 14], 0);
    assert_eq!(fb.current_color(), 0xFFDDD);
}

#[test]
fn render_minimap_scales_cells_and_player_down() {
    let mut fb = Framebuffer::new(40, 40);
    let maze = grid(&["#"]);
    let wall: Vec<u32> = vec![5];
    let flag: Vec<u32> = vec![9];
    let player = Player { x: 30 * FP_ONE, y: 30 * FP_ONE, a: 0, fov: 0 };
    render_minimap(&mut fb, &player, &maze, 8, &wall, 1, 1, &flag, 1, 1, 2);
    // the single wall cell shrinks to 4x4 pixels
    assert_eq!(fb.buffer[0], 5);
    assert_eq!(fb.buffer[3 * 40 + 3], 5);
    assert_eq!(fb.buffer[4 * 40 + 4], 0);
    // the player marker sits at the scaled position with radius 2
    assert_eq!(fb.buffer[15 * 40 + 15], 0xFFDDD);
    assert_eq!(fb.buffer[12 * 40 + 12], 0);
}

#[test]
fn render3d_fills_sky_above_and_floor_below_the_horizon() {
    let mut fb = Framebuffer::new(4, 4);
    let maze = grid(&["   "]);
    let dirs: Vec<(i64, i64)> = vec![(FP_ONE, 0); 4];
    let wall: Vec<u32> = vec![1];
    let floor: Vec<u32> = vec![7];
    let player = Player { x: 5 * FP_ONE, y: 5 * FP_ONE, a: 0, fov: 0 };
    render3d(&mut fb, &player, &maze, 10, &dirs, &wall, 1, 1, &floor, 1, 1);
    for x in 0..4 {
        assert_eq!(fb.buffer[0 * 4 + x], 0x03a9f4);
        assert_eq!(fb.buffer[1 * 4 + x], 0x03a9f4);
        assert_eq!(fb.buffer[2 * 4 + x], 7);
        assert_eq!(fb.buffer[3 * 4 + x], 7);
    }
}

#[test]
fn render3d_draws_a_wall_strip_for_a_hit_column() {
    let mut fb = Framebuffer::new(2, 4);
    let maze = grid(&[" # "]);
    let dirs: Vec<(i64, i64)> = vec![(FP_ONE, 0); 2];
    let wall: Vec<u32> = vec![10, 20, 30, 40];
    let floor: Vec<u32> = vec![7];
    let player = Player { x: 5 * FP_ONE, y: 5 * FP_ONE, a: 0, fov: 0 };
    render3d(&mut fb, &player, &maze, 10, &dirs, &wall, 2, 2, &floor, 1, 1);
    // the wall 5 units ahead projects taller than the surface: the whole
    // column shows the strip, sampled at texture column 0, row 0
    for y in 0..4 {
        for x in 0..2 {
            assert_eq!(fb.buffer[y * 2 + x], 10);
        }
    }
}

#[test]
fn render3d_skips_the_goal_and_out_of_grid_columns() {
    let mut fb = Framebuffer::new(2, 4);
    let maze = grid(&[" F "]);
    let dirs: Vec<(i64, i64)> = vec![(FP_ONE, 0); 2];
    let wall: Vec<u32> = vec![10];
    let floor: Vec<u32> = vec![7];
    let player = Player { x: 5 * FP_ONE, y: 5 * FP_ONE, a: 0, fov: 0 };
    render3d(&mut fb, &player, &maze, 10, &dirs, &wall, 1, 1, &floor, 1, 1);
    // the goal is transparent and the ray then leaves the grid: no strip
    assert_eq!(fb.buffer[0], 0x03a9f4);
    assert_eq!(fb.buffer[3 * 2], 7);
}

#[test]
fn column_angles_form_a_uniform_fan() {
    assert_eq!(column_angle(1000, 600, 0, 6), 1000 - 300);
    assert_eq!(column_angle(1000, 600, 3, 6), 1000);
    assert_eq!(column_angle(1000, 600, 5, 6), 1000 - 300 + 500);
    assert_eq!(column_angle(-5000, 0, 0, 1), -5000);
}

#[test]
fn centered_image_lands_in_the_middle_and_clips_nothing_inside() {
    let mut fb = Framebuffer::new(4, 4);
    let img: Vec<u32> = vec![1, 2, 3, 4];
    draw_centered_image(&mut fb, &img, 2, 2, 4, 4);
    assert_eq!(fb.buffer[1 * 4 + 1], 1);
    assert_eq!(fb.buffer[1 * 4 + 2], 2);
    assert_eq!(fb.buffer[2 * 4 + 1], 3);
    assert_eq!(fb.buffer[2 * 4 + 2], 4);
    assert_eq!(fb.buffer[0], 0);
}

#[test]
fn draw_fps_draws_digit_glyphs_at_fixed_spacing() {
    let mut fb = Framebuffer::new(120, 10);
    fb.set_current_color(0xFFDDD);
    // 62.50 frames per second
    fb.draw_fps(0, 0, 6250);
    // '6' top row is 0b01110: pixels at columns 1..4 of row 0
    assert_eq!(fb.buffer[0], 0);
    assert_eq!(fb.buffer[1], 0xFFDDD);
    assert_eq!(fb.buffer[3], 0xFFDDD);
    assert_eq!(fb.buffer[4], 0);
    // '2' sits 8 pixels to the right; its top row is also 0b01110
    assert_eq!(fb.buffer[9], 0xFFDDD);
    // the '.' between the digit groups draws nothing
    for x in 16..21 {
        assert_eq!(fb.buffer[x], 0);
    }
    // '5' top row is 0b11111
    assert_eq!(fb.buffer[24], 0xFFDDD);
    assert_eq!(fb.buffer[28], 0xFFDDD);
}

#[test]
fn world_px_floors_and_saturates() {
    assert_eq!(world_px(3 * FP_ONE + 40000), 3);
    assert_eq!(world_px(-12345), 0);
}

#[test]
fn menu_hover_areas_match_the_button_rectangles() {
    assert!(is_mouse_over_easy(201, 301));
    assert!(is_mouse_over_easy(399, 349));
    assert!(!is_mouse_over_easy(200, 325));
    assert!(!is_mouse_over_easy(300, 350));
    assert!(is_mouse_over_hard(501, 301));
    assert!(!is_mouse_over_hard(700, 325));
}

#[test]
fn menu_frame_highlights_hover_and_commits_on_click() {
    let (display, choice) = menu_frame(300, 325, false);
    assert_eq!(display, MenuDisplay::EasyHighlight);
    assert_eq!(choice, None);
    let (_, choice) = menu_frame(300, 325, true);
    assert_eq!(choice, Some(MenuChoice::Easy));
    let (display, choice) = menu_frame(600, 325, true);
    assert_eq!(display, MenuDisplay::HardHighlight);
    assert_eq!(choice, Some(MenuChoice::Hard));
    let (display, choice) = menu_frame(50, 50, true);
    assert_eq!(display, MenuDisplay::Plain);
    assert_eq!(choice, None);
}
