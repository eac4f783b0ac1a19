//! Styled text as plain values: what is drawn, and in which colors.

use crate::order::item_contents;
use vstd::prelude::*;

verus! {

/// A terminal color.
#[derive(Clone, Copy, Debug, Eq, PartialEq, Structural)]
pub enum Color {
    Reset,
    Black,
    Red,
    Green,
    Yellow,
    Blue,
    Magenta,
    Cyan,
    Gray,
    DarkGray,
    LightRed,
    LightGreen,
    LightYellow,
    LightBlue,
    LightMagenta,
    LightCyan,
    White,
    Rgb(u8, u8, u8),
    Indexed(u8),
}

// Theme-adaptive chrome: the terminal owns its canvas and text colors, and one
// restrained teal accent marks focus and controls.
pub const TRANSCRIPT_BG: Color = Color::Reset;

pub const STATUS_BG: Color = Color::Reset;

pub const PANEL_BG: Color = Color::Reset;

pub const PRIMARY_TEXT: Color = Color::Reset;

/// The color of supporting text.
#[verifier::allow_in_spec]
pub fn secondary_text() -> Color
    returns
        Color::Rgb(120, 120, 125),
{
    Color::Rgb(120, 120, 125)
}

/// The color of an agent's thoughts.
#[verifier::allow_in_spec]
pub fn thought_text() -> Color
    returns
        Color::Rgb(142, 142, 147),
{
    Color::Rgb(142, 142, 147)
}

/// The color of focus and controls.
#[verifier::allow_in_spec]
pub fn accent() -> Color
    returns
        Color::Rgb(36, 184, 176),
{
    Color::Rgb(36, 184, 176)
}

pub const SEPARATOR: Color = Color::Gray;

/// How a piece of text is drawn. A color that is not set is left to what is
/// already there.
#[derive(Clone, Copy, Debug, Eq, PartialEq, Structural)]
pub struct Style {
    pub fg: Option<Color>,
    pub bg: Option<Color>,
    pub bold: bool,
    pub dim: bool,
    pub italic: bool,
    pub underlined: bool,
    pub reversed: bool,
}

/// Nothing set.
pub open spec fn plain_style() -> Style {
    Style {
        fg: None,
        bg: None,
        bold: false,
        dim: false,
        italic: false,
        underlined: false,
        reversed: false,
    }
}

/// Only a text color.
pub open spec fn colored(color: Color) -> Style {
    Style { fg: Some(color), ..plain_style() }
}

/// The style with another text color.
pub open spec fn with_fg(style: Style, color: Color) -> Style {
    Style { fg: Some(color), ..style }
}

/// The style in bold.
pub open spec fn in_bold(style: Style) -> Style {
    Style { bold: true, ..style }
}

/// The style underlined.
pub open spec fn underlined(style: Style) -> Style {
    Style { underlined: true, ..style }
}

/// How the focused row is drawn.
pub open spec fn focused() -> Style {
    Style { fg: Some(accent()), bold: true, reversed: true, ..plain_style() }
}

impl Style {
    pub fn plain() -> (style: Style)
        ensures
            style == plain_style(),
    {
        Style {
            fg: None,
            bg: None,
            bold: false,
            dim: false,
            italic: false,
            underlined: false,
            reversed: false,
        }
    }

    pub fn color(color: Color) -> (style: Style)
        ensures
            style == colored(color),
    {
        Style::plain().fg(color)
    }

    pub fn fg(self, color: Color) -> (style: Style)
        ensures
            style == with_fg(self, color),
    {
        Style {
            fg: Some(color),
            bg: self.bg,
            bold: self.bold,
            dim: self.dim,
            italic: self.italic,
            underlined: self.underlined,
            reversed: self.reversed,
        }
    }

    pub fn bold(self) -> (style: Style)
        ensures
            style == in_bold(self),
    {
        let mut style = self;
        style.bold = true;
        style
    }

    pub fn underline(self) -> (style: Style)
        ensures
            style == underlined(self),
    {
        let mut style = self;
        style.underlined = true;
        style
    }
}

/// How the focused row is drawn.
pub fn selected_style() -> (style: Style)
    ensures
        style == focused(),
{
    let mut style = Style::color(accent()).bold();
    style.reversed = true;
    style
}

/// A stretch of text in one style.
#[derive(Clone, Debug, Eq, PartialEq)]
pub struct Piece {
    pub text: String,
    pub style: Style,
}

pub struct PieceView {
    pub text: Seq<char>,
    pub style: Style,
}

impl View for Piece {
    type V = PieceView;

    open spec fn view(&self) -> PieceView {
        PieceView { text: self.text@, style: self.style }
    }
}

/// A stretch of text in a style.
pub open spec fn piece(text: Seq<char>, style: Style) -> PieceView {
    PieceView { text, style }
}

impl Piece {
    pub fn new(text: &str, style: Style) -> (made: Piece)
        ensures
            made@ == piece(text@, style),
    {
        Piece { text: text.to_owned(), style }
    }
}

/// A line of styled text.
#[derive(Clone, Debug, Eq, PartialEq)]
pub struct StyledLine {
    pub pieces: Vec<Piece>,
}

impl View for StyledLine {
    type V = Seq<PieceView>;

    open spec fn view(&self) -> Seq<PieceView> {
        item_contents(self.pieces@)
    }
}

impl StyledLine {
    /// A line of one piece.
    pub fn single(text: &str, style: Style) -> (line: StyledLine)
        ensures
            line@ == seq![piece(text@, style)],
    {
        let mut pieces: Vec<Piece> = Vec::new();
        pieces.push(Piece::new(text, style));
        let line = StyledLine { pieces };
        assert(line@ =~= seq![piece(text@, style)]);
        line
    }
}

} // verus!
