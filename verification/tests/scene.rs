//! Textures, sprite compositing and the pursuit update on concrete
//! scenes, including the occlusion scenarios.

use maze_caster::caster::render3d;
use maze_caster::color::Color;
use maze_caster::framebuffer::Framebuffer;
use maze_caster::geometry::Vec2;
use maze_caster::maze::Maze;
use maze_caster::player::Player;
use maze_caster::sprites::{
    draw_sprite, update_sprite_ai, update_sprite_distances, Sprite, TransparencyPolicy, SPRITE_FOV,
};
use maze_caster::textures::{Texture, TextureManager};

fn rows(strs: &[&str]) -> Vec<Vec<char>> {
    strs.iter().map(|s| s.chars().collect()).collect()
}

fn solid_texture(w: u32, h: u32, c: Color) -> Texture {
    Texture::new(w, h, vec![c; (w * h) as usize])
}

fn blue() -> Color {
    Color::new(0, 0, 255, 255)
}

/// A 7x7 map with an open five-cell-square interior.
fn open_maze() -> Maze {
    Maze::from_chars(
        &rows(&["#######", "#     #", "#     #", "#     #", "#     #", "#     #", "#######"]),
    ).unwrap()
}

/// The same map with one wall cell directly ahead of the camera.
fn blocked_maze() -> Maze {
    Maze::from_chars(
        &rows(&["#######", "#     #", "#     #", "# #   #", "#     #", "#     #", "#######"]),
    ).unwrap()
}

fn camera() -> Player {
    Player { pos: Vec2 { x: 150, y: 350 }, a: 0, fov: 1_047_198 }
}

#[test]
fn texture_sampling_clamps_and_repeats() {
    let mut pixels = vec![Color::new(10, 20, 30, 255); 4];
    pixels[3] = Color::new(200, 100, 50, 255); // texel (1, 1)
    let t = Texture::new(2, 2, pixels);
    let tm = TextureManager::new(vec![('w', t)]);
    // Sampling the same coordinates twice yields the same color.
    let a = tm.get_pixel_color('w', 1, 1);
    let b = tm.get_pixel_color('w', 1, 1);
    assert_eq!(a, b);
    assert_eq!(a, Color::new(200, 100, 50, 255));
    // Out-of-range coordinates clamp to the edge texel.
    assert_eq!(tm.get_pixel_color('w', 9, 9), Color::new(200, 100, 50, 255));
    // Unmapped tags sample opaque white.
    assert_eq!(tm.get_pixel_color('?', 0, 0), Color::new(255, 255, 255, 255));
    assert_eq!(tm.get_texture_dimensions('w'), Some((2, 2)));
    assert!(tm.get_texture_dimensions('?').is_none());
}

/// A sprite two cells directly ahead with no wall between: the
/// compositor draws its texel at the horizontal screen center.
#[test]
fn sprite_ahead_draws_at_center() {
    let m = open_maze();
    let p = camera();
    let tm = TextureManager::new(vec![('e', solid_texture(4, 4, blue()))]);
    let bg = Color::new(0, 0, 50, 255);
    let mut fb = Framebuffer::new(64, 64, bg);
    let z = render3d(&mut fb, &p, &tm, &m);
    let s = Sprite::new(350, 350, 'e');
    draw_sprite(&mut fb, &p, &s, &tm, &z, TransparencyPolicy::AlphaChroma);
    // Distance 200, intensity 800 per-mille: the blue texel dims to 204.
    assert_eq!(fb.get_pixel(32, 32), Color::new(0, 0, 204, 255));
}

/// The same sprite behind a wall one cell ahead: the depth test
/// rejects every pixel and the frame is untouched.
#[test]
fn sprite_behind_wall_draws_nothing() {
    let m = blocked_maze();
    let p = camera();
    let tm = TextureManager::new(vec![('e', solid_texture(4, 4, blue()))]);
    let bg = Color::new(0, 0, 50, 255);
    let mut fb = Framebuffer::new(64, 64, bg);
    let z = render3d(&mut fb, &p, &tm, &m);
    let before = fb.color_buffer.clone();
    let s = Sprite::new(350, 350, 'e');
    draw_sprite(&mut fb, &p, &s, &tm, &z, TransparencyPolicy::AlphaChroma);
    assert_eq!(fb.color_buffer, before);
}

/// Under the luminance-mask policy a near-white sprite reads as
/// background and is never drawn, while the alpha policy draws it.
#[test]
fn luminance_mask_hides_near_white() {
    let m = open_maze();
    let p = camera();
    let tm = TextureManager::new(
        vec![('e', solid_texture(4, 4, Color::new(250, 250, 250, 255)))],
    );
    let mut fb = Framebuffer::new(64, 64, Color::new(0, 0, 50, 255));
    let z = render3d(&mut fb, &p, &tm, &m);
    let before = fb.color_buffer.clone();
    let s = Sprite::new(350, 350, 'e');
    draw_sprite(&mut fb, &p, &s, &tm, &z, TransparencyPolicy::LuminanceMask);
    assert_eq!(fb.color_buffer, before);
    draw_sprite(&mut fb, &p, &s, &tm, &z, TransparencyPolicy::AlphaChroma);
    assert_ne!(fb.color_buffer, before);
}

/// Transparent texels are never drawn: a pure magenta sprite leaves the
/// frame untouched even when visible.
#[test]
fn magenta_sprite_is_transparent() {
    let m = open_maze();
    let p = camera();
    let tm = TextureManager::new(
        vec![('e', solid_texture(4, 4, Color::new(255, 0, 255, 255)))],
    );
    let mut fb = Framebuffer::new(64, 64, Color::new(0, 0, 50, 255));
    let z = render3d(&mut fb, &p, &tm, &m);
    let before = fb.color_buffer.clone();
    let s = Sprite::new(350, 350, 'e');
    draw_sprite(&mut fb, &p, &s, &tm, &z, TransparencyPolicy::AlphaChroma);
    assert_eq!(fb.color_buffer, before);
}

#[test]
fn sprite_distances_update_and_sort_far_to_near() {
    let p = camera();
    let mut sprites = vec![
        Sprite::new(250, 350, 'a'), // 100 away
        Sprite::new(550, 350, 'b'), // 400 away
        Sprite::new(150, 150, 'c'), // 200 away
    ];
    update_sprite_distances(&mut sprites, &p);
    assert_eq!(sprites.len(), 3);
    assert_eq!(sprites[0].distance, 400);
    assert_eq!(sprites[0].texture_char, 'b');
    assert_eq!(sprites[1].distance, 200);
    assert_eq!(sprites[1].texture_char, 'c');
    assert_eq!(sprites[2].distance, 100);
    assert_eq!(sprites[2].texture_char, 'a');
    // The angle cache points from the camera to the sprite.
    assert_eq!(sprites[2].angle, 0);
}

#[test]
fn sprite_ai_chases_visible_player() {
    let m = open_maze();
    let p = camera();
    // A sprite to the right of the player, facing left toward it.
    let mut sprites = vec![Sprite {
        pos: Vec2 { x: 350, y: 350 },
        texture_char: 'e',
        distance: 0,
        angle: 0,
        facing_angle: 3_141_593,
        fov: SPRITE_FOV,
        player_detected: false,
    }];
    update_sprite_ai(&mut sprites, &p, &m, 100);
    let s = &sprites[0];
    assert!(s.player_detected);
    // One speed unit toward the player: dx is -200 over distance 200.
    assert_eq!(s.pos, Vec2 { x: 345, y: 350 });
}

#[test]
fn sprite_ai_ignores_player_behind_it() {
    let m = open_maze();
    let p = camera();
    // The same sprite facing away from the player.
    let mut sprites = vec![Sprite {
        pos: Vec2 { x: 350, y: 350 },
        texture_char: 'e',
        distance: 0,
        angle: 0,
        facing_angle: 0,
        fov: SPRITE_FOV,
        player_detected: false,
    }];
    update_sprite_ai(&mut sprites, &p, &m, 100);
    let s = &sprites[0];
    assert!(!s.player_detected);
    assert_eq!(s.pos, Vec2 { x: 350, y: 350 });
    // It turns toward the player at the slow undetected rate.
    assert_eq!(s.facing_angle, 40_000);
}

#[test]
fn sprite_sees_player_with_clear_line() {
    let m = open_maze();
    let s = Sprite {
        pos: Vec2 { x: 350, y: 350 },
        texture_char: 'e',
        distance: 0,
        angle: 0,
        facing_angle: 3_141_593,
        fov: SPRITE_FOV,
        player_detected: false,
    };
    assert!(s.can_see_player(Vec2 { x: 150, y: 350 }, &m, 100));
    // A wall in between blocks the view.
    let blocked = blocked_maze();
    assert!(!s.can_see_player(Vec2 { x: 150, y: 350 }, &blocked, 100));
}
