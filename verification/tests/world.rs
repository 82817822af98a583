//! Grid, movement and ray-marching behavior on concrete maps.

use maze_caster::caster::{cast_ray, render3d, march_ray, Intersect, WallSide, DEPTH_FAR, RAY_STEP};
use maze_caster::frame::{render_minimap, render_world};
use maze_caster::framebuffer::Framebuffer;
use maze_caster::color::Color;
use maze_caster::geometry::Vec2;
use maze_caster::maze::{
    check_collision, check_collision_with_margin, check_goal_collision, classify, Cell,
    find_activated_triggers, find_player_start, has_line_of_sight, Maze, MazeError,
};
use maze_caster::player::{move_pose, process_events, InputEvent, Player};
use maze_caster::textures::TextureManager;

fn rows(strs: &[&str]) -> Vec<Vec<char>> {
    strs.iter().map(|s| s.chars().collect()).collect()
}

/// A 5x5 map, all walls except a 3x3 open interior with one goal cell
/// directly right of the center.
fn goal_maze() -> Maze {
    Maze::from_chars(&rows(&["#####", "#   #", "#  g#", "#   #", "#####"])).unwrap()
}

fn player_at(x: i64, y: i64, a: i64, fov: i64) -> Player {
    Player { pos: Vec2 { x, y }, a, fov }
}

#[test]
fn classify_symbols() {
    assert_eq!(classify(' '), Cell::Empty);
    assert_eq!(classify('t'), Cell::Trigger('t'));
    assert_eq!(classify('s'), Cell::Trigger('s'));
    assert_eq!(classify('c'), Cell::Trigger('c'));
    assert_eq!(classify('p'), Cell::Start);
    assert_eq!(classify('g'), Cell::Goal);
    assert_eq!(classify('#'), Cell::Wall('#'));
    assert_eq!(classify('+'), Cell::Wall('+'));
}

#[test]
fn from_chars_rejects_ragged_grid() {
    let r = Maze::from_chars(&rows(&["###", "##", "###"]));
    assert!(matches!(r, Err(MazeError::NotRectangular)));
}

#[test]
fn from_chars_rejects_empty_grid() {
    assert!(matches!(Maze::from_chars(&rows(&[])), Err(MazeError::Empty)));
    assert!(matches!(Maze::from_chars(&rows(&["", ""])), Err(MazeError::Empty)));
}

#[test]
fn from_chars_rejects_oversized_grid() {
    let big: Vec<Vec<char>> = vec![vec![' '; 2]; 4097];
    assert!(matches!(Maze::from_chars(&big), Err(MazeError::TooLarge)));
}

#[test]
fn from_chars_reads_cells() {
    let m = goal_maze();
    assert_eq!(m.width(), 5);
    assert_eq!(m.height(), 5);
    assert_eq!(m.at(0, 0), Cell::Wall('#'));
    assert_eq!(m.at(1, 1), Cell::Empty);
    assert_eq!(m.at(3, 2), Cell::Goal);
}

#[test]
fn collision_solid_and_open() {
    let m = goal_maze();
    assert!(check_collision(&m, 50, 50, 100)); // border wall
    assert!(!check_collision(&m, 150, 150, 100)); // open interior
    assert!(check_collision(&m, -5, 150, 100)); // outside is colliding
    assert!(check_collision(&m, 150, 10_000, 100)); // below the map
    assert!(check_collision(&m, 350, 250, 100)); // the goal cell blocks
}

#[test]
fn trigger_cells_do_not_collide() {
    let m = Maze::from_chars(&rows(&["#####", "# t #", "#####"])).unwrap();
    assert!(!check_collision(&m, 250, 150, 100));
    assert!(!check_collision_with_margin(&m, 250, 150, 100, 15));
}

#[test]
fn margin_collision_touches_walls() {
    let m = goal_maze();
    // Center of the interior: all four corners clear.
    assert!(!check_collision_with_margin(&m, 250, 250, 100, 15));
    // Close to the left wall: the left corners poke into it.
    assert!(check_collision_with_margin(&m, 110, 250, 100, 15));
}

#[test]
fn goal_collision_radius() {
    let m = goal_maze();
    // Goal center is (350, 250); radius is 70.
    assert!(check_goal_collision(&m, 350, 250, 100));
    assert!(check_goal_collision(&m, 290, 250, 100)); // 60 away
    assert!(check_goal_collision(&m, 280, 250, 100)); // exactly 70 away
    assert!(!check_goal_collision(&m, 279, 250, 100)); // 71 away
}

#[test]
fn triggers_within_radius_are_reported() {
    let m = Maze::from_chars(&rows(&["#####", "# t #", "#####"])).unwrap();
    // Trigger center is (250, 150).
    let hits = find_activated_triggers(&m, 260, 150, 100);
    assert_eq!(hits.len(), 1);
    assert_eq!(hits[0], (250, 150, 't'));
    let none = find_activated_triggers(&m, 450, 150, 100);
    assert_eq!(none.len(), 0);
}

#[test]
fn player_start_prefers_empty_neighbor() {
    let m = Maze::from_chars(&rows(&["#####", "# p #", "#####"])).unwrap();
    // The start marker is at cell (2, 1); up and down are walls, left is
    // the first empty neighbor in scan order (up, down, left, right).
    let p = find_player_start(&m).unwrap();
    assert_eq!(p, (150, 150));
}

#[test]
fn player_start_missing() {
    assert!(find_player_start(&goal_maze()).is_none());
}

#[test]
fn line_of_sight_blocked_by_wall() {
    let m = Maze::from_chars(&rows(&["#####", "# # #", "#####"])).unwrap();
    // (150,150) and (350,150) have the wall cell (2,1) between them.
    assert!(!has_line_of_sight(&m, 150, 150, 350, 150, 100));
    // Two nearby points see each other.
    assert!(has_line_of_sight(&m, 150, 150, 155, 150, 100));
}

#[test]
fn line_of_sight_clear() {
    let m = goal_maze();
    assert!(has_line_of_sight(&m, 150, 150, 350, 150, 100));
}

/// The end-to-end goal scenario: from the interior center facing right,
/// a ray hits the goal cell one cell away, at roughly half a cell of
/// marched distance (the march lands on the first step at or past the
/// face, 51 with step 3).
#[test]
fn ray_hits_goal_half_cell_ahead() {
    let m = goal_maze();
    let p = player_at(250, 250, 0, 1_047_198);
    let hit = cast_ray(&m, &p, 0, 100, 3);
    assert_eq!(hit.impact, Cell::Goal);
    assert!(50 <= hit.distance && hit.distance <= 53);
    assert_eq!(hit.distance, 51);
    assert_eq!(hit.wall_side, WallSide::Vertical);
    assert_eq!(hit.hit_x, 300);
    assert_eq!(hit.hit_y, 250);
}

/// A perpendicular ray whose step divides the face distance reports the
/// face distance exactly.
#[test]
fn perpendicular_ray_exact_distance() {
    let m = goal_maze();
    // A unit direction straight along the x axis: the goal face is 50
    // away, and steps of 1 and 5 both divide it.
    let hit = march_ray(&m, 250, 250, 1000, 0, 1, 100);
    assert_eq!(hit.distance, 50);
    let hit5 = march_ray(&m, 250, 250, 1000, 0, 5, 100);
    assert_eq!(hit5.distance, 50);
    // A step of 3 does not divide 50: the march overshoots by one unit.
    let hit3 = march_ray(&m, 250, 250, 1000, 0, 3, 100);
    assert_eq!(hit3.distance, 51);
}

/// Hitting exactly on a cell's left edge classifies vertical; exactly
/// on a top edge, horizontal.
#[test]
fn edge_hits_classify_by_nearest_edge() {
    let m = goal_maze();
    // Straight right with step 50: lands exactly on the goal cell's
    // left edge.
    let right = march_ray(&m, 250, 250, 1000, 0, 50, 100);
    assert_eq!(right.hit_x, 300);
    assert_eq!(right.wall_side, WallSide::Vertical);
    // Straight down with step 50: lands exactly on the border cell's
    // top edge.
    let down = march_ray(&m, 250, 250, 0, 1000, 50, 100);
    assert_eq!(down.hit_y, 400);
    assert_eq!(down.wall_side, WallSide::Horizontal);
}

/// The same downward ray through the angle interface: the fixed-point
/// sine is 999 per-mille, so the march lands just short of each cell
/// boundary and overshoots into row four a little deeper.
#[test]
fn angled_down_ray_classifies_horizontal() {
    let m = goal_maze();
    let p = player_at(250, 250, 0, 1_047_198);
    let down = cast_ray(&m, &p, 1_570_796, 100, 50);
    assert_eq!(down.wall_side, WallSide::Horizontal);
    assert_eq!(down.hit_y, 449);
}

/// A ray in an unenclosed map leaves the grid and reports the no-wall
/// sentinel.
#[test]
fn open_map_ray_reports_no_wall() {
    let m = Maze::from_chars(&rows(&["   ", "   ", "   "])).unwrap();
    let hit = march_ray(&m, 150, 150, 1000, 0, 3, 100);
    assert_eq!(hit.impact, Cell::Empty);
    assert!(hit.hit_x >= 300);
}

#[test]
fn move_pose_slides_along_walls() {
    let m = goal_maze();
    // Moving straight into the right wall from near it: x rejected.
    let np = move_pose(&m, Vec2 { x: 250, y: 250 }, 200, 0, 100, 15);
    assert_eq!(np, Vec2 { x: 250, y: 250 });
    // A small legal move is taken.
    let np2 = move_pose(&m, Vec2 { x: 250, y: 250 }, 10, 5, 100, 15);
    assert_eq!(np2, Vec2 { x: 260, y: 255 });
}

#[test]
fn process_events_turns_and_walks() {
    let m = goal_maze();
    let mut p = player_at(250, 250, 0, 1_047_198);
    // Walk forward facing right: cos is 1000, one step of 10 units.
    // cos of angle zero is 999 per-mille: the ten-unit walk step
    // truncates to nine units.
    process_events(&mut p, &m, InputEvent { rotate_delta: 0, forward: true, backward: false });
    assert_eq!(p.pos, Vec2 { x: 259, y: 250 });
    assert_eq!(p.a, 0);
    // Turning by pi keeps the heading normalized.
    process_events(
        &mut p,
        &m,
        InputEvent { rotate_delta: 3_141_593, forward: false, backward: false },
    );
    assert_eq!(p.a, 3_141_593);
}

/// The depth buffer after a render pass holds the wall distance for
/// covered columns and the far sentinel for uncovered ones.
#[test]
fn render3d_depth_buffer_values() {
    let m = goal_maze();
    let p = player_at(250, 250, 0, 1_047_198);
    let tm = TextureManager::new(Vec::new());
    let mut fb = Framebuffer::new(64, 64, Color::new(0, 0, 50, 255));
    let z = render3d(&mut fb, &p, &tm, &m);
    assert_eq!(z.len(), 64);
    // Ray 16 of 32 points along the heading: columns 32 and 33 hold the
    // goal-face distance.
    assert_eq!(z[32], 51);
    assert_eq!(z[33], 51);
    // Every covered column ends at a finite distance in this closed map.
    for x in 0..64 {
        assert!(z[x] != DEPTH_FAR);
        assert!(z[x] >= 50);
    }
}

#[test]
fn render3d_draws_wall_strip() {
    let m = goal_maze();
    let p = player_at(250, 250, 0, 1_047_198);
    let tm = TextureManager::new(Vec::new());
    let bg = Color::new(0, 0, 50, 255);
    let mut fb = Framebuffer::new(64, 64, bg);
    let _z = render3d(&mut fb, &p, &tm, &m);
    // The wall ahead is 51 away: strip height 62, so the screen center
    // is painted with the shaded white fallback texture.
    let c = fb.get_pixel(32, 32);
    assert_ne!(c, bg);
    // Shading at distance 51: 255 * 949 / 1000 == 241.
    assert_eq!(c, Color::new(241, 241, 241, 255));
}

#[test]
fn sentinel_intersect_fields() {
    let m = Maze::from_chars(&rows(&["  ", "  "])).unwrap();
    let hit: Intersect = march_ray(&m, 50, 50, 0, -1000, RAY_STEP, 100);
    assert_eq!(hit.impact, Cell::Empty);
    assert_eq!(hit.wall_side, WallSide::Vertical);
    assert!(hit.hit_y < 0);
}

#[test]
fn minimap_paints_walls_and_player() {
    let m = goal_maze();
    let p = player_at(250, 250, 0, 1_047_198);
    let bg = Color::new(9, 9, 9, 255);
    let mut fb = Framebuffer::new(320, 320, bg);
    render_minimap(&mut fb, &m, &p, 100);
    // The window starts at cell (0,0); tiles are three pixels wide at
    // offset (30, 10). The border wall cell (0,0) paints red.
    assert_eq!(fb.get_pixel(30, 10), Color::new(255, 0, 0, 255));
    // The open interior cell (1,1) leaves the background.
    assert_eq!(fb.get_pixel(33, 13), bg);
    // The goal cell (3,2) is solid on the map.
    assert_eq!(fb.get_pixel(39, 16), Color::new(255, 0, 0, 255));
    // The player's cell (2,2) carries the green marker.
    assert_eq!(fb.get_pixel(36, 16), Color::new(0, 255, 0, 255));
    // Far outside the minimap nothing changes.
    assert_eq!(fb.get_pixel(200, 200), bg);
}

#[test]
fn render_world_paints_sky_and_ground() {
    let p = player_at(250, 250, 0, 1_047_198);
    let bg = Color::new(1, 1, 1, 255);
    let mut fb = Framebuffer::new(16, 9, bg);
    render_world(&mut fb, &p);
    let gray = Color::new(130, 130, 130, 255);
    assert_eq!(fb.get_pixel(0, 0), gray);
    assert_eq!(fb.get_pixel(15, 7), gray);
    // With an odd height the last row is left as it was.
    assert_eq!(fb.get_pixel(0, 8), bg);
}
