//! Menu data: titles, options with actions, the selection cursor and
//! the builders for the game's standard menus. Drawing menus with a
//! text API is the presentation layer's job; this module owns the
//! state and its transitions.

use vstd::prelude::*;

verus! {

use crate::color::Color;

/// What choosing a menu option does.
#[derive(Clone, Debug)]
pub enum MenuAction {
    /// Start the configured level.
    StartLevel,
    /// Leave the game.
    Exit,
    /// Advance to the next level.
    NextLevel,
    /// Restart the current level.
    Restart,
    /// Return to the main menu.
    MainMenu,
    /// A custom action identified by name.
    Custom(String),
}

/// One selectable menu entry.
#[derive(Clone, Debug)]
pub struct MenuOption {
    /// The label drawn for the entry.
    pub text: String,
    /// An optional illustration path for the entry.
    pub image_path: Option<String>,
    /// What choosing the entry does.
    pub action: MenuAction,
}

/// A menu: a title, its options, the selection cursor and its colors.
#[derive(Debug)]
pub struct Menu {
    /// The menu's heading.
    pub title: String,
    /// The selectable entries, top to bottom.
    pub options: Vec<MenuOption>,
    /// Index of the highlighted entry.
    pub selected_index: usize,
    /// An optional background image path.
    pub background_image: Option<String>,
    /// Color of the title text.
    pub title_color: Color,
    /// Color of the highlighted entry.
    pub selected_color: Color,
    /// Color of the other entries.
    pub normal_color: Color,
    /// Color behind the menu.
    pub background_color: Color,
}

impl Menu {
    /// A new menu with the given title, no options, the first entry
    /// selected and the default colors.
    pub fn new(title: String) -> (m: Menu)
        ensures
            m.title == title,
            m.options@.len() == 0,
            m.selected_index == 0,
            m.background_image matches Option::None,
            m.title_color == (Color { r: 255, g: 255, b: 255, a: 255 }),
            m.selected_color == (Color { r: 255, g: 255, b: 0, a: 255 }),
            m.normal_color == (Color { r: 255, g: 255, b: 255, a: 255 }),
            m.background_color == (Color { r: 0, g: 0, b: 0, a: 200 }),
    {
        Menu {
            title,
            options: Vec::new(),
            selected_index: 0,
            background_image: None,
            title_color: Color::new(255, 255, 255, 255),
            selected_color: Color::new(255, 255, 0, 255),
            normal_color: Color::new(255, 255, 255, 255),
            background_color: Color::new(0, 0, 0, 200),
        }
    }

    /// Appends an option without an illustration.
    pub fn add_option(&mut self, text: String, action: MenuAction)
        ensures
            final(self).options@ == old(self).options@.push(
                MenuOption { text, image_path: Option::None, action },
            ),
            final(self).title == old(self).title,
            final(self).selected_index == old(self).selected_index,
            final(self).background_image == old(self).background_image,
            final(self).title_color == old(self).title_color,
            final(self).selected_color == old(self).selected_color,
            final(self).normal_color == old(self).normal_color,
            final(self).background_color == old(self).background_color,
    {
        self.options.push(MenuOption { text, image_path: None, action });
    }

    /// Appends an option with an illustration path.
    pub fn add_option_with_image(&mut self, text: String, image_path: String, action: MenuAction)
        ensures
            final(self).options@ == old(self).options@.push(
                MenuOption { text, image_path: Option::Some(image_path), action },
            ),
            final(self).title == old(self).title,
            final(self).selected_index == old(self).selected_index,
            final(self).background_image == old(self).background_image,
            final(self).title_color == old(self).title_color,
            final(self).selected_color == old(self).selected_color,
            final(self).normal_color == old(self).normal_color,
            final(self).background_color == old(self).background_color,
    {
        self.options.push(MenuOption { text, image_path: Some(image_path), action });
    }

    /// Sets the background image path.
    pub fn set_background_image(&mut self, image_path: String)
        ensures
            final(self).background_image == Option::Some(image_path),
            final(self).title == old(self).title,
            final(self).options == old(self).options,
            final(self).selected_index == old(self).selected_index,
            final(self).title_color == old(self).title_color,
            final(self).selected_color == old(self).selected_color,
            final(self).normal_color == old(self).normal_color,
            final(self).background_color == old(self).background_color,
    {
        self.background_image = Some(image_path);
    }

    /// Sets the four menu colors.
    pub fn set_colors(&mut self, title: Color, selected: Color, normal: Color, background: Color)
        ensures
            final(self).title_color == title,
            final(self).selected_color == selected,
            final(self).normal_color == normal,
            final(self).background_color == background,
            final(self).title == old(self).title,
            final(self).options == old(self).options,
            final(self).selected_index == old(self).selected_index,
            final(self).background_image == old(self).background_image,
    {
        self.title_color = title;
        self.selected_color = selected;
        self.normal_color = normal;
        self.background_color = background;
    }

    /// Moves the selection up one entry, wrapping to the last.
    pub fn move_up(&mut self)
        requires
            old(self).options@.len() >= 1,
        ensures
            final(self).selected_index == if old(self).selected_index > 0 {
                old(self).selected_index - 1
            } else {
                old(self).options@.len() - 1
            },
            final(self).title == old(self).title,
            final(self).options == old(self).options,
            final(self).background_image == old(self).background_image,
            final(self).title_color == old(self).title_color,
            final(self).selected_color == old(self).selected_color,
            final(self).normal_color == old(self).normal_color,
            final(self).background_color == old(self).background_color,
    {
        if self.selected_index > 0 {
            self.selected_index = self.selected_index - 1;
        } else {
            self.selected_index = self.options.len() - 1;
        }
    }

    /// Moves the selection down one entry, wrapping to the first.
    pub fn move_down(&mut self)
        requires
            old(self).options@.len() >= 1,
            old(self).selected_index < old(self).options@.len(),
        ensures
            final(self).selected_index == if old(self).selected_index + 1 < old(
                self,
            ).options@.len() {
                old(self).selected_index + 1
            } else {
                0
            },
            final(self).title == old(self).title,
            final(self).options == old(self).options,
            final(self).background_image == old(self).background_image,
            final(self).title_color == old(self).title_color,
            final(self).selected_color == old(self).selected_color,
            final(self).normal_color == old(self).normal_color,
            final(self).background_color == old(self).background_color,
    {
        let n = self.options.len();
        if n - self.selected_index > 1 {
            self.selected_index = self.selected_index + 1;
        } else {
            self.selected_index = 0;
        }
    }

    /// The action of the highlighted entry.
    pub fn get_selected_action(&self) -> (r: &MenuAction)
        requires
            self.selected_index < self.options@.len(),
        ensures
            *r == self.options@[self.selected_index as int].action,
    {
        &self.options[self.selected_index].action
    }

    /// The label of the highlighted entry.
    pub fn get_selected_text(&self) -> (r: &String)
        requires
            self.selected_index < self.options@.len(),
        ensures
            *r == self.options@[self.selected_index as int].text,
    {
        &self.options[self.selected_index].text
    }
}

/// The game's main menu: start, level selector and exit entries.
pub fn create_main_menu() -> (m: Menu)
    ensures
        m.title@ == "Maze Runner"@,
        m.options@.len() == 3,
        m.options@[0].action matches MenuAction::StartLevel,
        m.options@[1].action matches MenuAction::Custom(n) && n@ == "level_selector"@,
        m.options@[2].action matches MenuAction::Exit,
        m.selected_index == 0,
{
    let mut menu = Menu::new("Maze Runner".to_owned());
    menu.set_background_image("assets/SpookyBG.png".to_owned());
    menu.set_colors(
        Color::new(255, 215, 0, 255),
        Color::new(255, 100, 100, 255),
        Color::new(255, 255, 255, 255),
        Color::new(0, 0, 0, 150),
    );
    menu.add_option_with_image(
        "Empezar Juego".to_owned(),
        "assets/SpookyNormal.png".to_owned(),
        MenuAction::StartLevel,
    );
    menu.add_option_with_image(
        "Seleccionar Nivel".to_owned(),
        "assets/enemybg.png".to_owned(),
        MenuAction::Custom("level_selector".to_owned()),
    );
    menu.add_option("Salir".to_owned(), MenuAction::Exit);
    menu
}

/// The level-complete menu: next level, restart and main menu entries.
pub fn create_level_complete_menu() -> (m: Menu)
    ensures
        m.options@.len() == 3,
        m.options@[0].action matches MenuAction::NextLevel,
        m.options@[1].action matches MenuAction::Restart,
        m.options@[2].action matches MenuAction::MainMenu,
        m.selected_index == 0,
{
    let mut menu = Menu::new("Nivel Completado".to_owned());
    menu.set_background_image("assets/SpookyBG.png".to_owned());
    menu.set_colors(
        Color::new(0, 255, 0, 255),
        Color::new(255, 215, 0, 255),
        Color::new(255, 255, 255, 255),
        Color::new(0, 0, 0, 150),
    );
    menu.add_option("Siguiente Nivel".to_owned(), MenuAction::NextLevel);
    menu.add_option("Reiniciar".to_owned(), MenuAction::Restart);
    menu.add_option("Menu Principal".to_owned(), MenuAction::MainMenu);
    menu
}

/// The game-over menu: retry, main menu and exit entries.
pub fn create_game_over_menu() -> (m: Menu)
    ensures
        m.options@.len() == 3,
        m.options@[0].action matches MenuAction::Restart,
        m.options@[1].action matches MenuAction::MainMenu,
        m.options@[2].action matches MenuAction::Exit,
        m.selected_index == 0,
{
    let mut menu = Menu::new("Game Over".to_owned());
    menu.set_background_image("assets/SpookyBG.png".to_owned());
    menu.set_colors(
        Color::new(255, 0, 0, 255),
        Color::new(255, 215, 0, 255),
        Color::new(255, 255, 255, 255),
        Color::new(0, 0, 0, 150),
    );
    menu.add_option("Reintentar".to_owned(), MenuAction::Restart);
    menu.add_option("Menu Principal".to_owned(), MenuAction::MainMenu);
    menu.add_option("Salir".to_owned(), MenuAction::Exit);
    menu
}

/// The level selector: one entry per level and a way back.
pub fn create_level_selector_menu() -> (m: Menu)
    ensures
        m.options@.len() == 4,
        m.options@[0].action matches MenuAction::Custom(n) && n@ == "level_1"@,
        m.options@[1].action matches MenuAction::Custom(n) && n@ == "level_2"@,
        m.options@[2].action matches MenuAction::Custom(n) && n@ == "level_3"@,
        m.options@[3].action matches MenuAction::MainMenu,
        m.selected_index == 0,
{
    let mut menu = Menu::new("Seleccionar Nivel".to_owned());
    menu.set_background_image("assets/SpookyBG.png".to_owned());
    menu.set_colors(
        Color::new(100, 200, 255, 255),
        Color::new(255, 215, 0, 255),
        Color::new(255, 255, 255, 255),
        Color::new(0, 0, 0, 150),
    );
    menu.add_option_with_image(
        "Nivel 1 - Tutorial".to_owned(),
        "assets/SpookyNormal.png".to_owned(),
        MenuAction::Custom("level_1".to_owned()),
    );
    menu.add_option_with_image(
        "Nivel 2 - Desafio".to_owned(),
        "assets/enemybg.png".to_owned(),
        MenuAction::Custom("level_2".to_owned()),
    );
    menu.add_option_with_image(
        "Nivel 3 - Experto".to_owned(),
        "assets/brick.png".to_owned(),
        MenuAction::Custom("level_3".to_owned()),
    );
    menu.add_option("Menu Principal".to_owned(), MenuAction::MainMenu);
    menu
}

} // verus!
