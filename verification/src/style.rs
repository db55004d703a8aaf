//! Text styles and styled spans, as the editor and highlighter use them.

use vstd::prelude::*;

verus! {

/// A 24-bit terminal colour.
#[derive(Clone, Copy, Debug, PartialEq, Eq, Structural)]
pub struct Color {
    pub r: u8,
    pub g: u8,
    pub b: u8,
}

/// Foreground and background colour plus text modifiers.
#[derive(Clone, Copy, Debug, PartialEq, Eq, Structural)]
pub struct Style {
    pub fg: Option<Color>,
    pub bg: Option<Color>,
    pub bold: bool,
    pub italic: bool,
    pub underlined: bool,
    pub crossed_out: bool,
    pub dim: bool,
}

/// The style with no colour and no modifier.
pub open spec fn plain_style() -> Style {
    Style {
        fg: None,
        bg: None,
        bold: false,
        italic: false,
        underlined: false,
        crossed_out: false,
        dim: false,
    }
}

/// The plain style with foreground colour `(r, g, b)`.
pub open spec fn fg_style(r: u8, g: u8, b: u8) -> Style {
    Style { fg: Some(Color { r, g, b }), ..plain_style() }
}

impl Color {
    pub fn rgb(r: u8, g: u8, b: u8) -> (c: Color)
        ensures
            c == (Color { r, g, b }),
    {
        Color { r, g, b }
    }
}

impl Style {
    /// The style with no colour and no modifier.
    pub fn plain() -> (s: Style)
        ensures
            s == plain_style(),
    {
        Style {
            fg: None,
            bg: None,
            bold: false,
            italic: false,
            underlined: false,
            crossed_out: false,
            dim: false,
        }
    }

    /// The plain style with foreground colour `(r, g, b)`.
    pub fn fg(r: u8, g: u8, b: u8) -> (s: Style)
        ensures
            s == fg_style(r, g, b),
    {
        Style { fg: Some(Color { r, g, b }), ..Style::plain() }
    }

    /// `self` in bold.
    pub fn bold(self) -> (s: Style)
        ensures
            s == (Style { bold: true, ..self }),
    {
        Style { bold: true, ..self }
    }

    /// `self` in italics.
    pub fn italic(self) -> (s: Style)
        ensures
            s == (Style { italic: true, ..self }),
    {
        Style { italic: true, ..self }
    }

    /// `self` underlined.
    pub fn underlined(self) -> (s: Style)
        ensures
            s == (Style { underlined: true, ..self }),
    {
        Style { underlined: true, ..self }
    }

    /// `self` crossed out.
    pub fn crossed_out(self) -> (s: Style)
        ensures
            s == (Style { crossed_out: true, ..self }),
    {
        Style { crossed_out: true, ..self }
    }

    /// `self` dimmed.
    pub fn dim(self) -> (s: Style)
        ensures
            s == (Style { dim: true, ..self }),
    {
        Style { dim: true, ..self }
    }

    /// `self` with background colour `(r, g, b)`.
    pub fn bg(self, r: u8, g: u8, b: u8) -> (s: Style)
        ensures
            s == (Style { bg: Some(Color { r, g, b }), ..self }),
    {
        Style { bg: Some(Color { r, g, b }), ..self }
    }
}

/// A run of text in one style.
#[derive(Clone, Debug)]
pub struct Span {
    pub content: String,
    pub style: Style,
}

impl Span {
    /// A span of `content` in `style`.
    pub fn styled(content: &str, style: Style) -> (s: Span)
        ensures
            s.content@ == content@,
            s.style == style,
    {
        Span { content: String::from_str(content), style }
    }

    /// A span of `content` in the plain style.
    pub fn raw(content: &str) -> (s: Span)
        ensures
            s.content@ == content@,
            s.style == plain_style(),
    {
        Span { content: String::from_str(content), style: Style::plain() }
    }
}

} // verus!
