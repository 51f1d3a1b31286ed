//! Themes and the colors that they resolve to.

use vstd::prelude::*;

verus! {

/// A color of a terminal cell.
#[derive(Debug, Clone, Copy, PartialEq, Eq, Structural)]
pub enum Color {
    /// The terminal's own color.
    Reset,
    Red,
    Green,
    Yellow,
    Cyan,
    DarkGray,
    Rgb(u8, u8, u8),
}

/// The selectable themes.
#[derive(Debug, Clone, Copy, PartialEq, Eq, Structural)]
pub enum Theme {
    /// Dark or light, whichever the terminal is.
    Auto,
    Dark,
    Light,
    /// The terminal's own colors, with no painted background.
    Terminal,
}

/// Concrete colors to draw with.
#[derive(Debug, Clone, Copy, PartialEq, Eq, Structural)]
pub struct Palette {
    /// The painted background; none inherits the terminal's own.
    pub bg: Option<Color>,
    pub fg: Color,
    pub gold: Color,
    pub teal: Color,
    pub dim: Color,
    pub green: Color,
    pub red: Color,
    pub frame: Color,
}

/// The colors of the dark theme.
pub open spec fn dark_palette() -> Palette {
    Palette {
        bg: Some(Color::Rgb(16, 18, 24)),
        fg: Color::Rgb(222, 226, 234),
        gold: Color::Rgb(240, 190, 90),
        teal: Color::Rgb(94, 200, 190),
        dim: Color::Rgb(122, 130, 146),
        green: Color::Rgb(126, 204, 120),
        red: Color::Rgb(232, 104, 104),
        frame: Color::Rgb(66, 74, 90),
    }
}

/// The colors of the light theme.
pub open spec fn light_palette() -> Palette {
    Palette {
        bg: Some(Color::Rgb(250, 248, 242)),
        fg: Color::Rgb(36, 40, 48),
        gold: Color::Rgb(158, 104, 10),
        teal: Color::Rgb(14, 118, 110),
        dim: Color::Rgb(110, 116, 128),
        green: Color::Rgb(36, 124, 44),
        red: Color::Rgb(184, 40, 40),
        frame: Color::Rgb(190, 188, 180),
    }
}

/// The terminal's own colors.
pub open spec fn terminal_palette() -> Palette {
    Palette {
        bg: None,
        fg: Color::Reset,
        gold: Color::Yellow,
        teal: Color::Cyan,
        dim: Color::DarkGray,
        green: Color::Green,
        red: Color::Red,
        frame: Color::DarkGray,
    }
}

/// The colors of a theme, on a terminal that is light or not.
pub open spec fn palette_of(theme: Theme, light_terminal: bool) -> Palette {
    match theme {
        Theme::Auto => if light_terminal {
            light_palette()
        } else {
            dark_palette()
        },
        Theme::Dark => dark_palette(),
        Theme::Light => light_palette(),
        Theme::Terminal => terminal_palette(),
    }
}

/// The name of a theme.
pub open spec fn theme_label(theme: Theme) -> Seq<char> {
    match theme {
        Theme::Auto => "auto"@,
        Theme::Dark => "dark"@,
        Theme::Light => "light"@,
        Theme::Terminal => "terminal"@,
    }
}

/// What a theme does, in a few words.
pub open spec fn theme_hint(theme: Theme) -> Seq<char> {
    match theme {
        Theme::Auto => "match the terminal"@,
        Theme::Dark => "painted dark canvas"@,
        Theme::Light => "painted light canvas"@,
        Theme::Terminal => "your terminal's own colors"@,
    }
}

/// The themes in the order in which they are offered.
pub open spec fn all_themes() -> Seq<Theme> {
    seq![Theme::Auto, Theme::Dark, Theme::Light, Theme::Terminal]
}

impl Theme {
    /// Every theme, in the order in which they are offered.
    pub fn all() -> (r: Vec<Theme>)
        ensures
            r@ == all_themes(),
    {
        let out: Vec<Theme> = vec![Theme::Auto, Theme::Dark, Theme::Light, Theme::Terminal];
        assert(out@ =~= all_themes());
        out
    }

    /// The name of the theme.
    pub fn label(self) -> (r: &'static str)
        ensures
            r@ == theme_label(self),
    {
        match self {
            Theme::Auto => "auto",
            Theme::Dark => "dark",
            Theme::Light => "light",
            Theme::Terminal => "terminal",
        }
    }

    /// What the theme does, in a few words.
    pub fn hint(self) -> (r: &'static str)
        ensures
            r@ == theme_hint(self),
    {
        match self {
            Theme::Auto => "match the terminal",
            Theme::Dark => "painted dark canvas",
            Theme::Light => "painted light canvas",
            Theme::Terminal => "your terminal's own colors",
        }
    }

    /// The colors of the theme, on a terminal that is light or not.
    pub fn palette(self, light_terminal: bool) -> (r: Palette)
        ensures
            r == palette_of(self, light_terminal),
    {
        match self {
            Theme::Auto => if light_terminal {
                Palette::light()
            } else {
                Palette::dark()
            },
            Theme::Dark => Palette::dark(),
            Theme::Light => Palette::light(),
            Theme::Terminal => Palette::terminal(),
        }
    }
}

impl Default for Theme {
    fn default() -> (r: Theme)
        ensures
            r == Theme::Auto,
    {
        Theme::Auto
    }
}

impl Palette {
    /// The colors of the dark theme.
    pub fn dark() -> (r: Palette)
        ensures
            r == dark_palette(),
    {
        Palette {
            bg: Some(Color::Rgb(16, 18, 24)),
            fg: Color::Rgb(222, 226, 234),
            gold: Color::Rgb(240, 190, 90),
            teal: Color::Rgb(94, 200, 190),
            dim: Color::Rgb(122, 130, 146),
            green: Color::Rgb(126, 204, 120),
            red: Color::Rgb(232, 104, 104),
            frame: Color::Rgb(66, 74, 90),
        }
    }

    /// The colors of the light theme.
    pub fn light() -> (r: Palette)
        ensures
            r == light_palette(),
    {
        Palette {
            bg: Some(Color::Rgb(250, 248, 242)),
            fg: Color::Rgb(36, 40, 48),
            gold: Color::Rgb(158, 104, 10),
            teal: Color::Rgb(14, 118, 110),
            dim: Color::Rgb(110, 116, 128),
            green: Color::Rgb(36, 124, 44),
            red: Color::Rgb(184, 40, 40),
            frame: Color::Rgb(190, 188, 180),
        }
    }

    /// The terminal's own colors.
    pub fn terminal() -> (r: Palette)
        ensures
            r == terminal_palette(),
    {
        Palette {
            bg: None,
            fg: Color::Reset,
            gold: Color::Yellow,
            teal: Color::Cyan,
            dim: Color::DarkGray,
            green: Color::Green,
            red: Color::Red,
            frame: Color::DarkGray,
        }
    }
}

impl Default for Palette {
    fn default() -> (r: Palette)
        ensures
            r == dark_palette(),
    {
        Palette::dark()
    }
}

/// Every theme is offered, and the dark and the light theme paint a background
/// while the terminal's own colors do not.
pub proof fn every_theme_is_offered(theme: Theme, light_terminal: bool)
    ensures
        all_themes().contains(theme),
        palette_of(theme, light_terminal).bg is None <==> theme == Theme::Terminal,
{
    let all = all_themes();
    assert(all[0] == Theme::Auto && all[1] == Theme::Dark && all[2] == Theme::Light && all[3]
        == Theme::Terminal);
}

/// Only the automatic theme looks at the terminal: on a light one it is the light
/// theme and on a dark one the dark theme, which do not paint alike.
pub proof fn only_auto_follows_the_terminal(theme: Theme, light_terminal: bool, other: bool)
    ensures
        palette_of(Theme::Auto, true) == palette_of(Theme::Light, other),
        palette_of(Theme::Auto, false) == palette_of(Theme::Dark, other),
        theme != Theme::Auto ==> palette_of(theme, light_terminal) == palette_of(theme, other),
        palette_of(Theme::Light, other).bg != palette_of(Theme::Dark, other).bg,
{
}

} // verus!
