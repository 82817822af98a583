//! Screen flow: which screen is up, which level is chosen, and the key
//! handling for the menu and victory screens. Also the pixel work of
//! those screens: a scale-to-fit background blit and the simple visual
//! indicators of the level menu.

use vstd::prelude::*;

verus! {

use crate::color::Color;
use crate::framebuffer::{lemma_pix_idx_bounds, lemma_pix_idx_injective, pix_idx, Framebuffer};
use crate::textures::Texture;

/// Which full screen is being shown.
#[derive(Clone, Copy, PartialEq, Eq, Structural, Debug)]
pub enum ScreenType {
    /// The main menu.
    MainMenu,
    /// The victory screen.
    Victory,
}

/// Which menu page is active inside the menu screen.
#[derive(Clone, Copy, PartialEq, Eq, Structural, Debug)]
pub enum MenuState {
    /// The top-level menu page.
    MainMenu,
    /// The level selection page.
    LevelSelect,
}

/// A key press, already reduced to what the screens care about.
#[derive(Clone, Copy, PartialEq, Eq, Structural, Debug)]
pub enum MenuKey {
    /// Move the cursor up.
    Up,
    /// Move the cursor down.
    Down,
    /// Choose the highlighted entry.
    Enter,
    /// Leave the current page.
    Escape,
    /// Any other key.
    Other,
}

/// What the menu asks the frame loop to do.
#[derive(Clone, Copy, PartialEq, Eq, Structural, Debug)]
pub enum MenuAction {
    /// Start the given level.
    StartLevel(usize),
    /// Leave the game.
    Exit,
    /// Keep showing the menu.
    Idle,
}

/// What the victory screen asks the frame loop to do.
#[derive(Clone, Copy, PartialEq, Eq, Structural, Debug)]
pub enum VictoryAction {
    /// Advance to the next level.
    NextLevel,
    /// Return to the main menu.
    MainMenu,
    /// Keep showing the victory screen.
    Idle,
}

/// The screen flow state: current level, menu page and cursor.
/// The loaded background images live with the presentation layer.
#[derive(Clone, Copy, PartialEq, Eq, Structural, Debug)]
pub struct ScreenManager {
    /// The level the player is on or has highlighted, 1-based.
    pub current_level: usize,
    /// The active menu page.
    pub menu_state: MenuState,
    /// The highlighted entry of the top-level menu page.
    pub selected_option: usize,
}

impl ScreenManager {
    /// The initial screen state: level 1, top-level menu, first entry.
    pub fn new() -> (m: ScreenManager)
        ensures
            m == (ScreenManager {
                current_level: 1usize,
                menu_state: MenuState::MainMenu,
                selected_option: 0usize,
            }),
    {
        ScreenManager { current_level: 1, menu_state: MenuState::MainMenu, selected_option: 0 }
    }

    /// The map file of a level: levels one to three have their own
    /// files, anything else falls back to the first.
    pub fn get_level_file(&self, level: usize) -> (r: &'static str)
        ensures
            r@ == if level == 2 {
                "maze2.txt"@
            } else if level == 3 {
                "maze3.txt"@
            } else {
                "maze.txt"@
            },
    {
        match level {
            2 => "maze2.txt",
            3 => "maze3.txt",
            _ => "maze.txt",
        }
    }

    /// Sets the current level.
    pub fn set_current_level(&mut self, level: usize)
        ensures
            *final(self) == (ScreenManager { current_level: level, ..*old(self) }),
    {
        self.current_level = level;
    }

    /// Reads the current level.
    pub fn get_current_level(&self) -> (r: usize)
        ensures
            r == self.current_level,
    {
        self.current_level
    }

    /// Reads the active menu page.
    pub fn get_menu_state(&self) -> (r: MenuState)
        ensures
            r == self.menu_state,
    {
        self.menu_state
    }

    /// Sets the active menu page.
    pub fn set_menu_state(&mut self, state: MenuState)
        ensures
            *final(self) == (ScreenManager { menu_state: state, ..*old(self) }),
    {
        self.menu_state = state;
    }

    /// Reads the highlighted entry of the top-level page.
    pub fn get_selected_option(&self) -> (r: usize)
        ensures
            r == self.selected_option,
    {
        self.selected_option
    }

    /// Sets the highlighted entry of the top-level page.
    pub fn set_selected_option(&mut self, option: usize)
        ensures
            *final(self) == (ScreenManager { selected_option: option, ..*old(self) }),
    {
        self.selected_option = option;
    }
}

/// The menu state machine: what one key press does to the screen state
/// and what it asks of the frame loop.
pub open spec fn menu_input_spec(m: ScreenManager, key: MenuKey) -> (ScreenManager, MenuAction) {
    match m.menu_state {
        MenuState::MainMenu => match key {
            MenuKey::Up => {
                if m.selected_option > 0 {
                    (ScreenManager { selected_option: (m.selected_option - 1) as usize, ..m }, MenuAction::Idle)
                } else {
                    (m, MenuAction::Idle)
                }
            },
            MenuKey::Down => {
                if m.selected_option < 2 {
                    (ScreenManager { selected_option: (m.selected_option + 1) as usize, ..m }, MenuAction::Idle)
                } else {
                    (m, MenuAction::Idle)
                }
            },
            MenuKey::Enter => {
                if m.selected_option == 0 {
                    (ScreenManager { current_level: 1usize, ..m }, MenuAction::StartLevel(1))
                } else if m.selected_option == 1 {
                    (
                        ScreenManager {
                            menu_state: MenuState::LevelSelect,
                            current_level: 1usize,
                            ..m
                        },
                        MenuAction::Idle,
                    )
                } else if m.selected_option == 2 {
                    (m, MenuAction::Exit)
                } else {
                    (m, MenuAction::Idle)
                }
            },
            _ => (m, MenuAction::Idle),
        },
        MenuState::LevelSelect => match key {
            MenuKey::Up => {
                if m.current_level > 1 {
                    (ScreenManager { current_level: (m.current_level - 1) as usize, ..m }, MenuAction::Idle)
                } else {
                    (m, MenuAction::Idle)
                }
            },
            MenuKey::Down => {
                if m.current_level < 3 {
                    (ScreenManager { current_level: (m.current_level + 1) as usize, ..m }, MenuAction::Idle)
                } else {
                    (m, MenuAction::Idle)
                }
            },
            MenuKey::Enter => (m, MenuAction::StartLevel(m.current_level)),
            MenuKey::Escape => (ScreenManager { menu_state: MenuState::MainMenu, ..m }, MenuAction::Idle),
            _ => (m, MenuAction::Idle),
        },
    }
}

/// Applies one key press to the menu screens: cursor movement on the
/// top page, level choice on the selector page, and the start or exit
/// request the frame loop must act on.
pub fn handle_menu_input(key: MenuKey, screen_manager: &mut ScreenManager) -> (r: MenuAction)
    ensures
        (*final(screen_manager), r) == menu_input_spec(*old(screen_manager), key),
{
    match screen_manager.menu_state {
        MenuState::MainMenu => {
            match key {
                MenuKey::Up => {
                    if screen_manager.selected_option > 0 {
                        screen_manager.selected_option = screen_manager.selected_option - 1;
                    }
                    MenuAction::Idle
                },
                MenuKey::Down => {
                    if screen_manager.selected_option < 2 {
                        screen_manager.selected_option = screen_manager.selected_option + 1;
                    }
                    MenuAction::Idle
                },
                MenuKey::Enter => {
                    if screen_manager.selected_option == 0 {
                        screen_manager.current_level = 1;
                        MenuAction::StartLevel(1)
                    } else if screen_manager.selected_option == 1 {
                        screen_manager.menu_state = MenuState::LevelSelect;
                        screen_manager.current_level = 1;
                        MenuAction::Idle
                    } else if screen_manager.selected_option == 2 {
                        MenuAction::Exit
                    } else {
                        MenuAction::Idle
                    }
                },
                _ => MenuAction::Idle,
            }
        },
        MenuState::LevelSelect => {
            match key {
                MenuKey::Up => {
                    if screen_manager.current_level > 1 {
                        screen_manager.current_level = screen_manager.current_level - 1;
                    }
                    MenuAction::Idle
                },
                MenuKey::Down => {
                    if screen_manager.current_level < 3 {
                        screen_manager.current_level = screen_manager.current_level + 1;
                    }
                    MenuAction::Idle
                },
                MenuKey::Enter => MenuAction::StartLevel(screen_manager.current_level),
                MenuKey::Escape => {
                    screen_manager.menu_state = MenuState::MainMenu;
                    MenuAction::Idle
                },
                _ => MenuAction::Idle,
            }
        },
    }
}

/// The victory state machine: advance on enter, back out on escape.
pub open spec fn victory_input_spec(key: MenuKey) -> VictoryAction {
    match key {
        MenuKey::Enter => VictoryAction::NextLevel,
        MenuKey::Escape => VictoryAction::MainMenu,
        _ => VictoryAction::Idle,
    }
}

/// Applies one key press to the victory screen.
pub fn handle_victory_input(key: MenuKey) -> (r: VictoryAction)
    ensures
        r == victory_input_spec(key),
{
    match key {
        MenuKey::Enter => VictoryAction::NextLevel,
        MenuKey::Escape => VictoryAction::MainMenu,
        _ => VictoryAction::Idle,
    }
}

} // verus!

verus! {

/// Width of the scale-to-fit image placement: the image is enlarged or
/// shrunk uniformly until it touches the screen on one axis.
pub open spec fn blit_scaled_w(w: int, h: int, tw: int, th: int) -> int {
    if w * th <= h * tw {
        w
    } else {
        (tw * h) / th
    }
}

/// Height of the scale-to-fit image placement.
pub open spec fn blit_scaled_h(w: int, h: int, tw: int, th: int) -> int {
    if w * th <= h * tw {
        (th * w) / tw
    } else {
        h
    }
}

/// One pixel after a centered scale-to-fit blit: inside the placed
/// rectangle the image is sampled with nearest-texel scaling, outside
/// it the prior contents stay.
pub open spec fn blit_pixel(t: Texture, w: int, h: int, qx: int, qy: int, old_pix: Color) -> Color {
    let sw = blit_scaled_w(w, h, t.width as int, t.height as int);
    let sh = blit_scaled_h(w, h, t.width as int, t.height as int);
    let ox = (w - sw) / 2;
    let oy = (h - sh) / 2;
    if ox <= qx < ox + sw && oy <= qy < oy + sh {
        let sx = ((qx - ox) * (t.width as int)) / sw;
        let sy = ((qy - oy) * (t.height as int)) / sh;
        t.pix(
            if sx >= t.width {
                t.width - 1
            } else {
                sx
            },
            if sy >= t.height {
                t.height - 1
            } else {
                sy
            },
        )
    } else {
        old_pix
    }
}

/// Draws a texture scaled to fit the screen, centered, with nearest
/// texel sampling; pixels outside the placed rectangle are untouched.
pub fn draw_scaled_image(framebuffer: &mut Framebuffer, tex: &Texture)
    requires
        old(framebuffer).wf(),
        tex.wf(),
    ensures
        final(framebuffer).wf(),
        final(framebuffer).width == old(framebuffer).width,
        final(framebuffer).height == old(framebuffer).height,
        final(framebuffer).background_color == old(framebuffer).background_color,
        final(framebuffer).current_color == old(framebuffer).current_color,
        forall|qx: int, qy: int|
            final(framebuffer).in_bounds(qx, qy) ==> #[trigger] final(framebuffer).pix(qx, qy)
                == blit_pixel(
                *tex,
                old(framebuffer).width as int,
                old(framebuffer).height as int,
                qx,
                qy,
                old(framebuffer).pix(qx, qy),
            ),
{
    let w: u32 = framebuffer.width;
    let h: u32 = framebuffer.height;
    let ghost gw: int = w as int;
    let ghost gh: int = h as int;
    let tw: u32 = tex.width;
    let th: u32 = tex.height;
    proof {
        assert((w as int) * (th as int) <= 32768 * 4096 && (h as int) * (tw as int) <= 32768
            * 4096) by (nonlinear_arith)
            requires
                w <= 32768,
                h <= 32768,
                tw <= 4096,
                th <= 4096,
        ;
    }
    let fit_x: bool = (w as u64) * (th as u64) <= (h as u64) * (tw as u64);
    let sw: u32 = if fit_x {
        w
    } else {
        ((tw as u64) * (h as u64) / (th as u64)) as u32
    };
    let sh: u32 = if fit_x {
        ((th as u64) * (w as u64) / (tw as u64)) as u32
    } else {
        h
    };
    proof {
        if !fit_x {
            assert((tw as int) * (gh as int) / (th as int) <= gw) by (nonlinear_arith)
                requires
                    (gw as int) * (th as int) > (gh as int) * (tw as int),
                    tw >= 1,
                    th >= 1,
                    gw >= 0,
                    gh >= 0,
            ;
        } else {
            assert((th as int) * (gw as int) / (tw as int) <= gh) by (nonlinear_arith)
                requires
                    (gw as int) * (th as int) <= (gh as int) * (tw as int),
                    tw >= 1,
                    th >= 1,
                    gw >= 0,
                    gh >= 0,
            ;
        }
        assert(sw == blit_scaled_w(gw, gh, tw as int, th as int));
        assert(sh == blit_scaled_h(gw, gh, tw as int, th as int));
        assert(sw <= w && sh <= h);
    }
    let ox: u32 = (w - sw) / 2;
    let oy: u32 = (h - sh) / 2;
    let mut py: u32 = 0;
    while py < sh
        invariant
            framebuffer.wf(),
            tex.wf(),
            framebuffer.width == old(framebuffer).width,
            framebuffer.height == old(framebuffer).height,
            framebuffer.background_color == old(framebuffer).background_color,
            framebuffer.current_color == old(framebuffer).current_color,
            w == old(framebuffer).width,
            h == old(framebuffer).height,
            gw == w as int,
            gh == h as int,
            tw == tex.width,
            th == tex.height,
            sw == blit_scaled_w(gw, gh, tw as int, th as int),
            sh == blit_scaled_h(gw, gh, tw as int, th as int),
            sw <= w,
            sh <= h,
            ox == (gw - sw) / 2,
            oy == (gh - sh) / 2,
            0 <= py <= sh,
            forall|qx: int, qy: int|
                framebuffer.in_bounds(qx, qy) ==> #[trigger] framebuffer.pix(qx, qy) == if ox <= qx
                    < ox + sw && oy <= qy < oy + py {
                    blit_pixel(*tex, gw, gh, qx, qy, old(framebuffer).pix(qx, qy))
                } else {
                    old(framebuffer).pix(qx, qy)
                },
        decreases sh - py,
    {
        let mut px: u32 = 0;
        while px < sw
            invariant
                framebuffer.wf(),
                tex.wf(),
                framebuffer.width == old(framebuffer).width,
                framebuffer.height == old(framebuffer).height,
                framebuffer.background_color == old(framebuffer).background_color,
                framebuffer.current_color == old(framebuffer).current_color,
                w == old(framebuffer).width,
                h == old(framebuffer).height,
                gw == w as int,
                gh == h as int,
                tw == tex.width,
                th == tex.height,
                sw == blit_scaled_w(gw, gh, tw as int, th as int),
                sh == blit_scaled_h(gw, gh, tw as int, th as int),
                sw <= w,
                sh <= h,
                ox == (gw - sw) / 2,
                oy == (gh - sh) / 2,
                0 <= py < sh,
                0 <= px <= sw,
                forall|qx: int, qy: int|
                    framebuffer.in_bounds(qx, qy) ==> #[trigger] framebuffer.pix(qx, qy) == if (ox
                        <= qx < ox + sw && oy <= qy < oy + py) || (qy == oy + py && ox <= qx < ox
                        + px) {
                        blit_pixel(*tex, gw, gh, qx, qy, old(framebuffer).pix(qx, qy))
                    } else {
                        old(framebuffer).pix(qx, qy)
                    },
            decreases sw - px,
        {
            proof {
                assert((px as int) * (tw as int) <= 32768 * 4096 && (py as int) * (th as int)
                    <= 32768 * 4096) by (nonlinear_arith)
                    requires
                        px <= 32768,
                        py <= 32768,
                        tw <= 4096,
                        th <= 4096,
                ;
            }
            let sx_raw: u32 = (((px as u64) * (tw as u64)) / (sw as u64)) as u32;
            let sy_raw: u32 = (((py as u64) * (th as u64)) / (sh as u64)) as u32;
            let sx: u32 = if sx_raw >= tw {
                tw - 1
            } else {
                sx_raw
            };
            let sy: u32 = if sy_raw >= th {
                th - 1
            } else {
                sy_raw
            };
            proof {
                lemma_pix_idx_bounds(tw as int, th as int, sx as int, sy as int);
            }
            let i: usize = (sy as usize) * (tw as usize) + (sx as usize);
            let c = tex.pixels[i];
            let ghost pre = *framebuffer;
            framebuffer.set_pixel_color(ox + px, oy + py, c);
            proof {
                lemma_pix_idx_bounds(gw, gh, (ox + px) as int, (oy + py) as int);
                assert(c == blit_pixel(
                    *tex,
                    gw,
                    gh,
                    (ox + px) as int,
                    (oy + py) as int,
                    old(framebuffer).pix((ox + px) as int, (oy + py) as int),
                ));
                assert forall|qx: int, qy: int| framebuffer.in_bounds(qx, qy) implies
                    #[trigger] framebuffer.pix(qx, qy) == if (ox <= qx < ox + sw && oy <= qy < oy
                    + py) || (qy == oy + py && ox <= qx < ox + px + 1) {
                    blit_pixel(*tex, gw, gh, qx, qy, old(framebuffer).pix(qx, qy))
                } else {
                    old(framebuffer).pix(qx, qy)
                } by {
                    lemma_pix_idx_bounds(gw, gh, qx, qy);
                    if pix_idx(gw, qx, qy) == pix_idx(gw, (ox + px) as int, (oy + py) as int) {
                        lemma_pix_idx_injective(gw, qx, qy, (ox + px) as int, (oy + py) as int);
                    } else {
                        assert(framebuffer.pix(qx, qy) == pre.pix(qx, qy));
                    }
                }
            }
            px = px + 1;
        }
        py = py + 1;
    }
    proof {
        assert forall|qx: int, qy: int| framebuffer.in_bounds(qx, qy) implies
            #[trigger] framebuffer.pix(qx, qy) == blit_pixel(
            *tex,
            gw,
            gh,
            qx,
            qy,
            old(framebuffer).pix(qx, qy),
        ) by {
            if !(ox <= qx < ox + sw && oy <= qy < oy + sh) {
                assert(blit_pixel(*tex, gw, gh, qx, qy, old(framebuffer).pix(qx, qy)) == old(
                    framebuffer,
                ).pix(qx, qy));
            }
        }
    }
}

} // verus!

verus! {

/// The indicator colors the menu painter may leave on screen.
pub open spec fn is_menu_indicator_color(c: Color) -> bool {
    ||| c == (Color { r: 255, g: 255, b: 0, a: 255 })
    ||| c == (Color { r: 130, g: 130, b: 130, a: 255 })
    ||| c == (Color { r: 255, g: 255, b: 255, a: 255 })
}

/// Paints a small filled disc in the current color.
fn paint_disc(framebuffer: &mut Framebuffer, cx: u32, cy: u32)
    requires
        old(framebuffer).wf(),
        4 <= cx,
        cx + 4 <= old(framebuffer).width,
        4 <= cy,
        cy + 4 <= old(framebuffer).height,
    ensures
        final(framebuffer).wf(),
        final(framebuffer).width == old(framebuffer).width,
        final(framebuffer).height == old(framebuffer).height,
        final(framebuffer).background_color == old(framebuffer).background_color,
        final(framebuffer).current_color == old(framebuffer).current_color,
        forall|qx: int, qy: int|
            final(framebuffer).in_bounds(qx, qy) ==> #[trigger] final(framebuffer).pix(qx, qy)
                == old(framebuffer).pix(qx, qy) || final(framebuffer).pix(qx, qy) == old(
                framebuffer,
            ).current_color,
{
    let mut dy: i32 = -3;
    while dy <= 3
        invariant
            framebuffer.wf(),
            framebuffer.width == old(framebuffer).width,
            framebuffer.height == old(framebuffer).height,
            framebuffer.background_color == old(framebuffer).background_color,
            framebuffer.current_color == old(framebuffer).current_color,
            4 <= cx && cx + 4 <= framebuffer.width,
            4 <= cy && cy + 4 <= framebuffer.height,
            -3 <= dy <= 4,
            forall|qx: int, qy: int|
                framebuffer.in_bounds(qx, qy) ==> #[trigger] framebuffer.pix(qx, qy) == old(
                    framebuffer,
                ).pix(qx, qy) || framebuffer.pix(qx, qy) == old(framebuffer).current_color,
        decreases 4 - dy,
    {
        let mut dx: i32 = -3;
        while dx <= 3
            invariant
                framebuffer.wf(),
                framebuffer.width == old(framebuffer).width,
                framebuffer.height == old(framebuffer).height,
                framebuffer.background_color == old(framebuffer).background_color,
                framebuffer.current_color == old(framebuffer).current_color,
                4 <= cx && cx + 4 <= framebuffer.width,
                4 <= cy && cy + 4 <= framebuffer.height,
                -3 <= dy <= 3,
                -3 <= dx <= 4,
                forall|qx: int, qy: int|
                    framebuffer.in_bounds(qx, qy) ==> #[trigger] framebuffer.pix(qx, qy) == old(
                        framebuffer,
                    ).pix(qx, qy) || framebuffer.pix(qx, qy) == old(framebuffer).current_color,
            decreases 4 - dx,
        {
            proof {
                assert(dx * dx <= 16 && dy * dy <= 16 && dx * dx >= 0 && dy * dy >= 0)
                    by (nonlinear_arith)
                    requires
                        -3 <= dx <= 4,
                        -3 <= dy <= 4,
                ;
            }
            if dx * dx + dy * dy <= 9 {
                let px: u32 = (cx as i64 + dx as i64) as u32;
                let py: u32 = (cy as i64 + dy as i64) as u32;
                let ghost pre = *framebuffer;
                framebuffer.set_pixel(px, py);
                proof {
                    assert forall|qx: int, qy: int| framebuffer.in_bounds(qx, qy) implies
                        #[trigger] framebuffer.pix(qx, qy) == old(framebuffer).pix(qx, qy)
                        || framebuffer.pix(qx, qy) == old(framebuffer).current_color by {
                        lemma_pix_idx_bounds(
                            framebuffer.width as int,
                            framebuffer.height as int,
                            qx,
                            qy,
                        );
                        if framebuffer.in_bounds(px as int, py as int) {
                            lemma_pix_idx_bounds(
                                framebuffer.width as int,
                                framebuffer.height as int,
                                px as int,
                                py as int,
                            );
                        }
                        if framebuffer.pix(qx, qy) != pre.pix(qx, qy) {
                            assert(framebuffer.pix(qx, qy) == pre.current_color);
                        }
                    }
                }
            }
            dx = dx + 1;
        }
        dy = dy + 1;
    }
}

/// Paints the level menu indicators: a highlight rectangle behind the
/// chosen level, a disc bullet per level, and the white instruction
/// bar. Every pixel it touches holds one of the indicator colors; the
/// instruction bar is painted white exactly.
pub fn render_main_menu(
    framebuffer: &mut Framebuffer,
    width: u32,
    height: u32,
    screen_manager: &ScreenManager,
)
    requires
        old(framebuffer).wf(),
        width == old(framebuffer).width,
        height == old(framebuffer).height,
        512 <= width,
        256 <= height,
    ensures
        final(framebuffer).wf(),
        final(framebuffer).width == old(framebuffer).width,
        final(framebuffer).height == old(framebuffer).height,
        final(framebuffer).background_color == old(framebuffer).background_color,
        forall|qx: int, qy: int|
            final(framebuffer).in_bounds(qx, qy) ==> #[trigger] final(framebuffer).pix(qx, qy)
                == old(framebuffer).pix(qx, qy) || is_menu_indicator_color(
                final(framebuffer).pix(qx, qy),
            ),
        forall|qx: int, qy: int|
            final(framebuffer).in_bounds(qx, qy) && width / 2 - 200 <= qx < width / 2 + 200
                && height - 30 <= qy < height - 20 ==> #[trigger] final(framebuffer).pix(qx, qy)
                == (Color { r: 255, g: 255, b: 255, a: 255 }),
{
    let center_x: u32 = width / 2;
    let center_y: u32 = height / 2;
    let start_y: u32 = center_y - 50;
    let mut i: u32 = 0;
    while i < 3
        invariant
            framebuffer.wf(),
            framebuffer.width == old(framebuffer).width,
            framebuffer.height == old(framebuffer).height,
            framebuffer.background_color == old(framebuffer).background_color,
            width == old(framebuffer).width,
            height == old(framebuffer).height,
            512 <= width,
            256 <= height,
            center_x == width / 2,
            center_y == height / 2,
            start_y == center_y - 50,
            0 <= i <= 3,
            forall|qx: int, qy: int|
                framebuffer.in_bounds(qx, qy) ==> #[trigger] framebuffer.pix(qx, qy) == old(
                    framebuffer,
                ).pix(qx, qy) || is_menu_indicator_color(framebuffer.pix(qx, qy)),
        decreases 3 - i,
    {
        let ghost head = *framebuffer;
        let y: u32 = start_y + i * 80;
        let selected: bool = (i + 1) as usize == screen_manager.current_level;
        if selected {
            framebuffer.set_current_color(Color::new(255, 255, 0, 255));
            if y >= 5 && y + 25 <= height && center_x >= 100 && center_x + 100 <= width {
                let ghost pre = *framebuffer;
                framebuffer.draw_rectangle(center_x - 100, y - 5, 200, 30);
                proof {
                    assert forall|qx: int, qy: int| framebuffer.in_bounds(qx, qy) implies
                        #[trigger] framebuffer.pix(qx, qy) == old(framebuffer).pix(qx, qy)
                        || is_menu_indicator_color(framebuffer.pix(qx, qy)) by {
                        assert(pre.pix(qx, qy) == head.pix(qx, qy));
                        if framebuffer.pix(qx, qy) != pre.pix(qx, qy) {
                            assert(framebuffer.pix(qx, qy) == pre.current_color);
                        } else {
                            assert(head.pix(qx, qy) == old(framebuffer).pix(qx, qy)
                                || is_menu_indicator_color(head.pix(qx, qy)));
                        }
                    }
                }
            }
        } else {
            framebuffer.set_current_color(Color::new(130, 130, 130, 255));
        }
        proof {
            assert forall|qx: int, qy: int| framebuffer.in_bounds(qx, qy) implies
                #[trigger] framebuffer.pix(qx, qy) == old(framebuffer).pix(qx, qy)
                || is_menu_indicator_color(framebuffer.pix(qx, qy)) by {
                if framebuffer.pix(qx, qy) == head.pix(qx, qy) {
                    assert(head.pix(qx, qy) == old(framebuffer).pix(qx, qy)
                        || is_menu_indicator_color(head.pix(qx, qy)));
                }
            }
        }
        if center_x >= 124 && y + 14 <= height {
            let ghost pre2 = *framebuffer;
            paint_disc(framebuffer, center_x - 120, y + 10);
            proof {
                assert forall|qx: int, qy: int| framebuffer.in_bounds(qx, qy) implies
                    #[trigger] framebuffer.pix(qx, qy) == old(framebuffer).pix(qx, qy)
                    || is_menu_indicator_color(framebuffer.pix(qx, qy)) by {
                    if framebuffer.pix(qx, qy) == pre2.pix(qx, qy) {
                        assert(pre2.pix(qx, qy) == old(framebuffer).pix(qx, qy)
                            || is_menu_indicator_color(pre2.pix(qx, qy)));
                    } else {
                        assert(framebuffer.pix(qx, qy) == pre2.current_color);
                        assert(is_menu_indicator_color(pre2.current_color));
                    }
                }
            }
        }
        i = i + 1;
    }
    let ghost pre_bar_colors = *framebuffer;
    framebuffer.set_current_color(Color::new(255, 255, 255, 255));
    let ghost before_bar = *framebuffer;
    framebuffer.draw_rectangle(center_x - 200, height - 30, 400, 10);
    proof {
        assert forall|qx: int, qy: int| framebuffer.in_bounds(qx, qy) implies
            #[trigger] framebuffer.pix(qx, qy) == old(framebuffer).pix(qx, qy)
            || is_menu_indicator_color(framebuffer.pix(qx, qy)) by {
            assert(before_bar.pix(qx, qy) == pre_bar_colors.pix(qx, qy));
            if framebuffer.pix(qx, qy) == before_bar.pix(qx, qy) {
                assert(pre_bar_colors.pix(qx, qy) == old(framebuffer).pix(qx, qy)
                    || is_menu_indicator_color(pre_bar_colors.pix(qx, qy)));
            } else {
                assert(framebuffer.pix(qx, qy) == (Color { r: 255, g: 255, b: 255, a: 255 }));
            }
        }
    }
}

/// Draws the victory background: the door image scaled to fit, or a
/// black clear when no image is available.
pub fn render_victory_background(
    framebuffer: &mut Framebuffer,
    width: u32,
    height: u32,
    victory_image: Option<&Texture>,
)
    requires
        old(framebuffer).wf(),
        width == old(framebuffer).width,
        height == old(framebuffer).height,
        match victory_image {
            Some(t) => t.wf(),
            None => true,
        },
    ensures
        final(framebuffer).wf(),
        final(framebuffer).width == old(framebuffer).width,
        final(framebuffer).height == old(framebuffer).height,
        match victory_image {
            Some(t) => {
                &&& final(framebuffer).background_color == old(framebuffer).background_color
                &&& final(framebuffer).current_color == old(framebuffer).current_color
                &&& forall|qx: int, qy: int|
                    final(framebuffer).in_bounds(qx, qy) ==> #[trigger] final(framebuffer).pix(
                        qx,
                        qy,
                    ) == blit_pixel(
                        *t,
                        old(framebuffer).width as int,
                        old(framebuffer).height as int,
                        qx,
                        qy,
                        old(framebuffer).pix(qx, qy),
                    )
            },
            None => {
                &&& final(framebuffer).background_color == (Color { r: 0, g: 0, b: 0, a: 255 })
                &&& forall|qx: int, qy: int|
                    final(framebuffer).in_bounds(qx, qy) ==> #[trigger] final(framebuffer).pix(
                        qx,
                        qy,
                    ) == (Color { r: 0, g: 0, b: 0, a: 255 })
            },
        },
{
    match victory_image {
        Some(t) => {
            draw_scaled_image(framebuffer, t);
        },
        None => {
            framebuffer.set_background_color(Color::black());
            framebuffer.clear();
        },
    }
}

/// Draws the victory screen.
pub fn render_victory_screen(
    framebuffer: &mut Framebuffer,
    width: u32,
    height: u32,
    victory_image: Option<&Texture>,
)
    requires
        old(framebuffer).wf(),
        width == old(framebuffer).width,
        height == old(framebuffer).height,
        match victory_image {
            Some(t) => t.wf(),
            None => true,
        },
    ensures
        final(framebuffer).wf(),
        final(framebuffer).width == old(framebuffer).width,
        final(framebuffer).height == old(framebuffer).height,
        match victory_image {
            Some(t) => forall|qx: int, qy: int|
                final(framebuffer).in_bounds(qx, qy) ==> #[trigger] final(framebuffer).pix(qx, qy)
                    == blit_pixel(
                    *t,
                    old(framebuffer).width as int,
                    old(framebuffer).height as int,
                    qx,
                    qy,
                    old(framebuffer).pix(qx, qy),
                ),
            None => forall|qx: int, qy: int|
                final(framebuffer).in_bounds(qx, qy) ==> #[trigger] final(framebuffer).pix(qx, qy)
                    == (Color { r: 0, g: 0, b: 0, a: 255 }),
        },
{
    render_victory_background(framebuffer, width, height, victory_image);
}

/// Draws one full screen: the scaled background image (or a black
/// clear), then the screen's own content: the menu indicators for the
/// main menu, the victory image for the victory screen.
pub fn render_screen(
    framebuffer: &mut Framebuffer,
    background: Option<&Texture>,
    victory_image: Option<&Texture>,
    screen_type: ScreenType,
    screen_manager: &ScreenManager,
)
    requires
        old(framebuffer).wf(),
        512 <= old(framebuffer).width,
        256 <= old(framebuffer).height,
        match background {
            Some(t) => t.wf(),
            None => true,
        },
        match victory_image {
            Some(t) => t.wf(),
            None => true,
        },
    ensures
        final(framebuffer).wf(),
        final(framebuffer).width == old(framebuffer).width,
        final(framebuffer).height == old(framebuffer).height,
{
    let w: u32 = framebuffer.width;
    let h: u32 = framebuffer.height;
    match background {
        Some(t) => {
            draw_scaled_image(framebuffer, t);
        },
        None => {
            framebuffer.set_background_color(Color::black());
            framebuffer.clear();
        },
    }
    match screen_type {
        ScreenType::MainMenu => {
            render_main_menu(framebuffer, w, h, screen_manager);
        },
        ScreenType::Victory => {
            render_victory_screen(framebuffer, w, h, victory_image);
        },
    }
}

} // verus!
