//! Geometry, pixel buffer, post effect and screen flow behavior on
//! concrete values.

use maze_caster::color::Color;
use maze_caster::framebuffer::Framebuffer;
use maze_caster::geometry::{atan2_urad, cos_milli, distance, isqrt, norm_angle, sin_milli, Vec2, PI_URAD};
use maze_caster::menu::{create_main_menu, Menu, MenuAction};
use maze_caster::screens::{
    handle_menu_input, handle_victory_input, MenuKey, MenuState, ScreenManager, ScreenType,
    MenuAction as ScreenAction, VictoryAction, render_screen,
};
use maze_caster::textures::Texture;
use maze_caster::visual_effects::{
    apply_damage_effect, apply_flashlight_effect, apply_fog_effect, VisualEffects,
};
use maze_caster::player::Player;

#[test]
fn isqrt_rounds_down() {
    assert_eq!(isqrt(0), 0);
    assert_eq!(isqrt(1), 1);
    assert_eq!(isqrt(3), 1);
    assert_eq!(isqrt(4), 2);
    assert_eq!(isqrt(99), 9);
    assert_eq!(isqrt(100), 10);
    assert_eq!(isqrt(u64::MAX), 0xFFFF_FFFF);
}

#[test]
fn distance_is_euclidean_floor() {
    assert_eq!(distance(Vec2 { x: 0, y: 0 }, Vec2 { x: 3, y: 4 }), 5);
    assert_eq!(distance(Vec2 { x: 10, y: 10 }, Vec2 { x: 11, y: 11 }), 1);
    assert_eq!(distance(Vec2 { x: -100, y: 0 }, Vec2 { x: 100, y: 0 }), 200);
}

#[test]
fn angles_normalize_into_half_turn() {
    assert_eq!(norm_angle(0), 0);
    assert_eq!(norm_angle(PI_URAD), PI_URAD);
    assert_eq!(norm_angle(PI_URAD + 1), PI_URAD + 1 - 2 * PI_URAD);
    assert_eq!(norm_angle(2 * PI_URAD), PI_URAD + PI_URAD - 2 * PI_URAD);
    assert_eq!(norm_angle(-PI_URAD - 1), PI_URAD - 1);
}

#[test]
fn fixed_point_trig_values() {
    assert_eq!(sin_milli(0), 0);
    assert_eq!(sin_milli(PI_URAD / 2), 999);
    assert_eq!(sin_milli(-PI_URAD / 2), -999);
    assert_eq!(cos_milli(0), 999);
    assert_eq!(cos_milli(PI_URAD), -999);
    assert_eq!(cos_milli(PI_URAD / 2), 0);
}

#[test]
fn atan2_quadrants() {
    assert_eq!(atan2_urad(0, 100), 0);
    assert_eq!(atan2_urad(0, -100), PI_URAD);
    assert_eq!(atan2_urad(100, 0), PI_URAD / 2);
    assert_eq!(atan2_urad(-100, 0), -(PI_URAD / 2));
    // The diagonal is a quarter of a half turn, up to approximation.
    let d = atan2_urad(100, 100);
    assert!((d - 785398).abs() < 5000);
}

#[test]
fn framebuffer_set_get_and_clear() {
    let bg = Color::new(1, 2, 3, 255);
    let mut fb = Framebuffer::new(8, 4, bg);
    assert_eq!(fb.get_pixel(0, 0), bg);
    fb.set_current_color(Color::new(9, 9, 9, 255));
    fb.set_pixel(7, 3);
    assert_eq!(fb.get_pixel(7, 3), Color::new(9, 9, 9, 255));
    // Out-of-range writes are dropped; out-of-range reads answer black.
    fb.set_pixel(8, 0);
    assert_eq!(fb.get_pixel(8, 0), Color::new(0, 0, 0, 255));
    fb.clear();
    assert_eq!(fb.get_pixel(7, 3), bg);
}

#[test]
fn draw_rectangle_clips() {
    let bg = Color::new(0, 0, 0, 255);
    let mut fb = Framebuffer::new(4, 4, bg);
    fb.set_current_color(Color::new(5, 5, 5, 255));
    fb.draw_rectangle(2, 2, 10, 10);
    assert_eq!(fb.get_pixel(3, 3), Color::new(5, 5, 5, 255));
    assert_eq!(fb.get_pixel(1, 1), bg);
}

#[test]
fn line_paints_current_color() {
    let bg = Color::new(0, 0, 0, 255);
    let mut fb = Framebuffer::new(8, 8, bg);
    fb.set_current_color(Color::new(7, 7, 7, 255));
    maze_caster::line::line(&mut fb, Vec2 { x: 0, y: 0 }, Vec2 { x: 7, y: 7 });
    assert_eq!(fb.get_pixel(0, 0), Color::new(7, 7, 7, 255));
    assert_eq!(fb.get_pixel(7, 7), Color::new(7, 7, 7, 255));
    assert_eq!(fb.get_pixel(3, 3), Color::new(7, 7, 7, 255));
    assert_eq!(fb.get_pixel(7, 0), bg);
}

#[test]
fn effects_update_decays_levels() {
    let mut e = VisualEffects::new();
    e.trigger_anxiety();
    e.trigger_damage();
    assert_eq!(e.anxiety_level, 1000);
    assert_eq!(e.damage_effect, 1000);
    e.update(100);
    assert_eq!(e.time, 100);
    assert_eq!(e.anxiety_level, 950);
    assert_eq!(e.damage_effect, 800);
    e.update(2000);
    assert_eq!(e.anxiety_level, 0);
    assert_eq!(e.damage_effect, 0);
    e.toggle_flashlight();
    assert!(!e.flashlight_enabled);
}

#[test]
fn fog_saturates_at_the_bottom() {
    let mut fb = Framebuffer::new(2, 2, Color::new(200, 200, 200, 255));
    let e = VisualEffects::new();
    apply_fog_effect(&mut fb, &e);
    // Bottom row: full fog toward (100, 100, 120).
    assert_eq!(fb.get_pixel(0, 1), Color::new(100, 100, 120, 255));
    // Top row: no fog at all.
    assert_eq!(fb.get_pixel(0, 0), Color::new(200, 200, 200, 255));
}

#[test]
fn flashlight_brightens_center_and_dims_edges() {
    let mut fb = Framebuffer::new(600, 600, Color::new(100, 100, 100, 255));
    let e = VisualEffects::new();
    let p = Player { pos: Vec2 { x: 0, y: 0 }, a: 0, fov: 1_047_198 };
    apply_flashlight_effect(&mut fb, &p, &e);
    // Center: factor 1200 per-mille.
    assert_eq!(fb.get_pixel(300, 300), Color::new(120, 120, 120, 255));
    // Far corner: dimmed to 15 percent.
    assert_eq!(fb.get_pixel(0, 0), Color::new(15, 15, 15, 255));
}

#[test]
fn damage_effect_at_zero_level_is_inert() {
    let mut fb = Framebuffer::new(2, 2, Color::new(50, 60, 70, 255));
    let e = VisualEffects::new();
    apply_damage_effect(&mut fb, &e);
    assert_eq!(fb.get_pixel(1, 1), Color::new(50, 60, 70, 255));
}

#[test]
fn menu_selection_wraps() {
    let mut m = create_main_menu();
    assert_eq!(m.selected_index, 0);
    m.move_up();
    assert_eq!(m.selected_index, 2);
    m.move_down();
    assert_eq!(m.selected_index, 0);
    m.move_down();
    assert_eq!(m.selected_index, 1);
    assert!(matches!(m.get_selected_action(), MenuAction::Custom(_)));
}

#[test]
fn menu_builder_options() {
    let mut m = Menu::new("probe".to_owned());
    m.add_option("one".to_owned(), MenuAction::Exit);
    assert_eq!(m.options.len(), 1);
    assert_eq!(m.get_selected_text().as_str(), "one");
    assert!(matches!(m.get_selected_action(), MenuAction::Exit));
}

#[test]
fn screen_manager_flow() {
    let mut sm = ScreenManager::new();
    assert_eq!(sm.get_current_level(), 1);
    assert_eq!(sm.get_level_file(1), "maze.txt");
    assert_eq!(sm.get_level_file(2), "maze2.txt");
    assert_eq!(sm.get_level_file(3), "maze3.txt");
    assert_eq!(sm.get_level_file(9), "maze.txt");
    // Walk down to the exit entry and choose it.
    assert_eq!(handle_menu_input(MenuKey::Down, &mut sm), ScreenAction::Idle);
    assert_eq!(handle_menu_input(MenuKey::Down, &mut sm), ScreenAction::Idle);
    assert_eq!(sm.get_selected_option(), 2);
    assert_eq!(handle_menu_input(MenuKey::Enter, &mut sm), ScreenAction::Exit);
    // Back up to the selector page and pick level two.
    sm.set_selected_option(1);
    assert_eq!(handle_menu_input(MenuKey::Enter, &mut sm), ScreenAction::Idle);
    assert_eq!(sm.get_menu_state(), MenuState::LevelSelect);
    assert_eq!(handle_menu_input(MenuKey::Down, &mut sm), ScreenAction::Idle);
    assert_eq!(handle_menu_input(MenuKey::Enter, &mut sm), ScreenAction::StartLevel(2));
    // Escape returns to the top page.
    assert_eq!(handle_menu_input(MenuKey::Escape, &mut sm), ScreenAction::Idle);
    assert_eq!(sm.get_menu_state(), MenuState::MainMenu);
}

#[test]
fn victory_inputs() {
    assert_eq!(handle_victory_input(MenuKey::Enter), VictoryAction::NextLevel);
    assert_eq!(handle_victory_input(MenuKey::Escape), VictoryAction::MainMenu);
    assert_eq!(handle_victory_input(MenuKey::Other), VictoryAction::Idle);
}

#[test]
fn render_screen_blits_background() {
    let mut fb = Framebuffer::new(512, 256, Color::new(0, 0, 0, 255));
    let tex = Texture::new(2, 2, vec![Color::new(40, 50, 60, 255); 4]);
    let sm = ScreenManager::new();
    render_screen(&mut fb, Some(&tex), None, ScreenType::Victory, &sm);
    // The victory screen with no image clears to black over the blit.
    assert_eq!(fb.get_pixel(256, 128), Color::new(0, 0, 0, 255));
    let mut fb2 = Framebuffer::new(512, 256, Color::new(0, 0, 0, 255));
    render_screen(&mut fb2, None, Some(&tex), ScreenType::Victory, &sm);
    // The victory image covers the screen center.
    assert_eq!(fb2.get_pixel(256, 128), Color::new(40, 50, 60, 255));
}
