//! Resolve semantic colors against an explicit or terminal-owned canvas.

use crate::style::{accent, secondary_text, thought_text, Color};
use crate::text::{lower, same, to_lower};
use vstd::prelude::*;

verus! {

#[derive(Clone, Copy, Debug, Eq, PartialEq, Structural)]
pub enum Theme {
    Terminal,
    Light,
    Dark,
}

impl Default for Theme {
    fn default() -> (theme: Self)
        ensures
            theme == Theme::Terminal,
    {
        Theme::Terminal
    }
}

/// The theme that a setting names; anything unknown is `Terminal`.
pub open spec fn theme_setting(value: Seq<char>) -> Theme {
    if lower(value) == "light"@ {
        Theme::Light
    } else if lower(value) == "dark"@ {
        Theme::Dark
    } else {
        Theme::Terminal
    }
}

/// The setting that names a theme.
pub open spec fn theme_name(theme: Theme) -> Seq<char> {
    match theme {
        Theme::Terminal => "terminal"@,
        Theme::Light => "light"@,
        Theme::Dark => "dark"@,
    }
}

/// How a theme is shown.
pub open spec fn theme_label(theme: Theme) -> Seq<char> {
    match theme {
        Theme::Terminal => "Terminal"@,
        Theme::Light => "Light"@,
        Theme::Dark => "Dark"@,
    }
}

/// The theme after a theme, round and round.
pub open spec fn theme_after(theme: Theme) -> Theme {
    match theme {
        Theme::Terminal => Theme::Light,
        Theme::Light => Theme::Dark,
        Theme::Dark => Theme::Terminal,
    }
}

/// The colors by which agents are told apart.
pub open spec fn agent_colors() -> Seq<Color> {
    seq![
        Color::Rgb(175, 82, 222),
        Color::Rgb(217, 119, 6),
        Color::Rgb(214, 58, 104),
        Color::Rgb(36, 138, 61),
    ]
}

/// The color of the agent with the given number, round and round.
pub fn agent_color(number: usize) -> (color: Color)
    ensures
        color == agent_colors()[number as int % 4],
{
    let which: usize = number % 4;
    if which == 0 {
        Color::Rgb(175, 82, 222)
    } else if which == 1 {
        Color::Rgb(217, 119, 6)
    } else if which == 2 {
        Color::Rgb(214, 58, 104)
    } else {
        Color::Rgb(36, 138, 61)
    }
}

/// The number of an agent color.
pub open spec fn agent_number(color: Color) -> Option<int> {
    if color == agent_colors()[0] {
        Some(0)
    } else if color == agent_colors()[1] {
        Some(1)
    } else if color == agent_colors()[2] {
        Some(2)
    } else if color == agent_colors()[3] {
        Some(3)
    } else {
        None
    }
}

fn number_of_agent(color: Color) -> (number: Option<usize>)
    ensures
        match number {
            Some(n) => agent_number(color) == Some(n as int) && n < 4,
            None => agent_number(color) is None,
        },
{
    if color == agent_color(0) {
        Some(0)
    } else if color == agent_color(1) {
        Some(1)
    } else if color == agent_color(2) {
        Some(2)
    } else if color == agent_color(3) {
        Some(3)
    } else {
        None
    }
}

/// A color in the terminal's own palette.
pub open spec fn terminal_color(color: Color) -> Color {
    if color == accent() {
        Color::Cyan
    } else if color == secondary_text() {
        Color::Reset
    } else if color == thought_text() {
        Color::DarkGray
    } else {
        match agent_number(color) {
            Some(n) => seq![Color::Magenta, Color::Yellow, Color::Red, Color::Green][n],
            None => color,
        }
    }
}

/// A color as (light, dark) on an explicit canvas; `None` where it stays as it is.
pub open spec fn palette(color: Color, background: bool) -> Option<(Color, Color)> {
    if color == Color::Reset && background {
        Some((Color::Rgb(250, 250, 250), Color::Rgb(20, 22, 26)))
    } else if color == Color::Reset || color == Color::White || color == Color::Black {
        Some((Color::Rgb(28, 28, 30), Color::Rgb(230, 233, 239)))
    } else if color == accent() || color == Color::Cyan || color == Color::LightCyan {
        Some((Color::Rgb(0, 105, 100), Color::Rgb(74, 210, 200)))
    } else if color == thought_text() {
        Some((Color::Rgb(155, 155, 160), Color::Rgb(110, 114, 124)))
    } else if color == secondary_text() || color == Color::Gray || color == Color::DarkGray {
        Some((Color::Rgb(90, 90, 95), Color::Rgb(164, 169, 180)))
    } else if color == Color::Red || color == Color::LightRed {
        Some((Color::Rgb(170, 30, 45), Color::Rgb(255, 120, 135)))
    } else if color == Color::Green || color == Color::LightGreen {
        Some((Color::Rgb(25, 110, 45), Color::Rgb(110, 210, 140)))
    } else if color == Color::Yellow || color == Color::LightYellow {
        Some((Color::Rgb(130, 85, 0), Color::Rgb(235, 195, 100)))
    } else if color == Color::Blue || color == Color::LightBlue {
        Some((Color::Rgb(35, 80, 170), Color::Rgb(130, 175, 255)))
    } else if color == Color::Magenta || color == Color::LightMagenta {
        Some((Color::Rgb(130, 45, 175), Color::Rgb(205, 145, 245)))
    } else {
        match agent_number(color) {
            Some(n) => Some(
                seq![
                    (Color::Rgb(130, 45, 175), Color::Rgb(205, 145, 245)),
                    (Color::Rgb(150, 80, 0), Color::Rgb(240, 180, 100)),
                    (Color::Rgb(170, 35, 80), Color::Rgb(255, 135, 175)),
                    (Color::Rgb(25, 110, 45), Color::Rgb(110, 210, 140)),
                ][n],
            ),
            None => None,
        }
    }
}

/// The color that a theme draws in place of a color.
pub open spec fn themed(theme: Theme, color: Color, background: bool) -> Color {
    match theme {
        Theme::Terminal => terminal_color(color),
        Theme::Light => match palette(color, background) {
            Some((light, dark)) => light,
            None => color,
        },
        Theme::Dark => match palette(color, background) {
            Some((light, dark)) => dark,
            None => color,
        },
    }
}

fn in_palette(color: Color, background: bool) -> (pair: Option<(Color, Color)>)
    ensures
        pair == palette(color, background),
{
    if color == Color::Reset && background {
        Some((Color::Rgb(250, 250, 250), Color::Rgb(20, 22, 26)))
    } else if color == Color::Reset || color == Color::White || color == Color::Black {
        Some((Color::Rgb(28, 28, 30), Color::Rgb(230, 233, 239)))
    } else if color == accent() || color == Color::Cyan || color == Color::LightCyan {
        Some((Color::Rgb(0, 105, 100), Color::Rgb(74, 210, 200)))
    } else if color == thought_text() {
        // Thought text is deliberately faint, exempt from the normal contrast target.
        Some((Color::Rgb(155, 155, 160), Color::Rgb(110, 114, 124)))
    } else if color == secondary_text() || color == Color::Gray || color == Color::DarkGray {
        Some((Color::Rgb(90, 90, 95), Color::Rgb(164, 169, 180)))
    } else if color == Color::Red || color == Color::LightRed {
        Some((Color::Rgb(170, 30, 45), Color::Rgb(255, 120, 135)))
    } else if color == Color::Green || color == Color::LightGreen {
        Some((Color::Rgb(25, 110, 45), Color::Rgb(110, 210, 140)))
    } else if color == Color::Yellow || color == Color::LightYellow {
        Some((Color::Rgb(130, 85, 0), Color::Rgb(235, 195, 100)))
    } else if color == Color::Blue || color == Color::LightBlue {
        Some((Color::Rgb(35, 80, 170), Color::Rgb(130, 175, 255)))
    } else if color == Color::Magenta || color == Color::LightMagenta {
        Some((Color::Rgb(130, 45, 175), Color::Rgb(205, 145, 245)))
    } else {
        match number_of_agent(color) {
            Some(n) => if n == 0 {
                Some((Color::Rgb(130, 45, 175), Color::Rgb(205, 145, 245)))
            } else if n == 1 {
                Some((Color::Rgb(150, 80, 0), Color::Rgb(240, 180, 100)))
            } else if n == 2 {
                Some((Color::Rgb(170, 35, 80), Color::Rgb(255, 135, 175)))
            } else {
                Some((Color::Rgb(25, 110, 45), Color::Rgb(110, 210, 140)))
            },
            None => None,
        }
    }
}

impl Theme {
    pub fn from_setting(value: &str) -> (theme: Self)
        ensures
            theme == theme_setting(value@),
    {
        let low = to_lower(value);
        if same(low.as_str(), "light") {
            Theme::Light
        } else if same(low.as_str(), "dark") {
            Theme::Dark
        } else {
            Theme::Terminal
        }
    }

    pub fn as_str(self) -> (name: &'static str)
        ensures
            name@ == theme_name(self),
    {
        match self {
            Theme::Terminal => "terminal",
            Theme::Light => "light",
            Theme::Dark => "dark",
        }
    }

    pub fn label(self) -> (label: &'static str)
        ensures
            label@ == theme_label(self),
    {
        match self {
            Theme::Terminal => "Terminal",
            Theme::Light => "Light",
            Theme::Dark => "Dark",
        }
    }

    pub fn next(self) -> (theme: Self)
        ensures
            theme == theme_after(self),
    {
        match self {
            Theme::Terminal => Theme::Light,
            Theme::Light => Theme::Dark,
            Theme::Dark => Theme::Terminal,
        }
    }

    /// The color that the theme draws in place of a color.
    pub fn color(self, color: Color, background: bool) -> (shown: Color)
        ensures
            shown == themed(self, color, background),
    {
        match self {
            Theme::Terminal => if color == accent() {
                Color::Cyan
            } else if color == secondary_text() {
                Color::Reset
            } else if color == thought_text() {
                Color::DarkGray
            } else {
                match number_of_agent(color) {
                    Some(n) => if n == 0 {
                        Color::Magenta
                    } else if n == 1 {
                        Color::Yellow
                    } else if n == 2 {
                        Color::Red
                    } else {
                        Color::Green
                    },
                    None => color,
                }
            },
            Theme::Light => match in_palette(color, background) {
                Some((light, dark)) => light,
                None => color,
            },
            Theme::Dark => match in_palette(color, background) {
                Some((light, dark)) => dark,
                None => color,
            },
        }
    }
}

/// A theme that is written down is read back as it was, and the themes come round
/// after three steps.
pub proof fn law_themes_survive_saving(theme: Theme)
    ensures
        theme_setting(theme_name(theme)) == theme,
        theme_after(theme_after(theme_after(theme))) == theme,
{
    reveal_strlit("light");
    reveal_strlit("dark");
    reveal_strlit("terminal");
    assert(lower("light"@) =~= "light"@);
    assert(lower("dark"@) =~= "dark"@);
    assert(lower("terminal"@).len() == 8);
    assert("light"@.len() == 5 && "dark"@.len() == 4);
}

/// An explicit canvas is never left to the terminal: text and background that the
/// terminal would own get a color of the theme.
pub proof fn law_explicit_themes_own_their_canvas(theme: Theme, background: bool)
    requires
        theme != Theme::Terminal,
    ensures
        themed(theme, Color::Reset, background) is Rgb,
        themed(theme, Color::Reset, true) != themed(theme, Color::Reset, false),
{
}

} // verus!
