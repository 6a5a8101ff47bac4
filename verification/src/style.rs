use vstd::prelude::*;

verus! {

/// A 24-bit color.
#[derive(Debug, Clone, Copy, PartialEq, Eq, Structural)]
pub struct Color {
    pub r: u8,
    pub g: u8,
    pub b: u8,
}

/// A pixel's style: optional foreground and background colors and the text
/// attributes the editor uses.
#[derive(Debug, Clone, Copy, PartialEq, Eq, Structural)]
pub struct Style {
    pub fg: Option<Color>,
    pub bg: Option<Color>,
    pub bold: bool,
    pub underlined: bool,
}

impl Style {
    /// The terminal's default style: no colors, no attributes.
    pub open spec fn plain() -> Style {
        Style { fg: None, bg: None, bold: false, underlined: false }
    }

    pub fn new() -> (r: Style)
        ensures
            r == Style::plain(),
    {
        Style { fg: None, bg: None, bold: false, underlined: false }
    }

    /// This style with the given foreground color.
    pub fn with(self, fg: Color) -> (r: Style)
        ensures
            r == (Style { fg: Some(fg), ..self }),
    {
        Style { fg: Some(fg), ..self }
    }

    /// This style with the given background color.
    pub fn on(self, bg: Color) -> (r: Style)
        ensures
            r == (Style { bg: Some(bg), ..self }),
    {
        Style { bg: Some(bg), ..self }
    }

    /// This style with the bold attribute set.
    pub fn bold(self) -> (r: Style)
        ensures
            r == (Style { bold: true, ..self }),
    {
        Style { bold: true, ..self }
    }

    /// This style with the underline attribute set.
    pub fn underlined(self) -> (r: Style)
        ensures
            r == (Style { underlined: true, ..self }),
    {
        Style { underlined: true, ..self }
    }

    /// Whether two styles are the same.
    pub fn style_eq(&self, other: &Style) -> (r: bool)
        ensures
            r == (*self == *other),
    {
        let fg_eq = match (self.fg, other.fg) {
            (None, None) => true,
            (Some(a), Some(b)) => a == b,
            _ => false,
        };
        let bg_eq = match (self.bg, other.bg) {
            (None, None) => true,
            (Some(a), Some(b)) => a == b,
            _ => false,
        };
        fg_eq && bg_eq && self.bold == other.bold && self.underlined == other.underlined
    }

    /// Whether two styles set the same attributes (colors aside).
    pub fn attrs_eq(&self, other: &Style) -> (r: bool)
        ensures
            r == (self.bold == other.bold && self.underlined == other.underlined),
    {
        self.bold == other.bold && self.underlined == other.underlined
    }
}

impl Default for Style {
    fn default() -> (r: Style)
        ensures
            r == Style::plain(),
    {
        Style { fg: None, bg: None, bold: false, underlined: false }
    }
}

pub fn background() -> (r: Color)
    ensures
        r == (Color { r: 34, g: 34, b: 34 }),
{
    Color { r: 34, g: 34, b: 34 }
}

pub fn background_selected() -> (r: Color)
    ensures
        r == (Color { r: 38, g: 79, b: 120 }),
{
    Color { r: 38, g: 79, b: 120 }
}

pub fn background_primary() -> (r: Color)
    ensures
        r == (Color { r: 166, g: 226, b: 46 }),
{
    Color { r: 166, g: 226, b: 46 }
}

pub fn background_sidebar() -> (r: Color)
    ensures
        r == (Color { r: 51, g: 51, b: 51 }),
{
    Color { r: 51, g: 51, b: 51 }
}

pub fn text_primary() -> (r: Color)
    ensures
        r == (Color { r: 34, g: 34, b: 34 }),
{
    Color { r: 34, g: 34, b: 34 }
}

pub fn text() -> (r: Color)
    ensures
        r == (Color { r: 204, g: 204, b: 204 }),
{
    Color { r: 204, g: 204, b: 204 }
}

pub fn text_dimmed() -> (r: Color)
    ensures
        r == (Color { r: 126, g: 126, b: 126 }),
{
    Color { r: 126, g: 126, b: 126 }
}

pub fn text_statusbar() -> (r: Color)
    ensures
        r == (Color { r: 255, g: 255, b: 255 }),
{
    Color { r: 255, g: 255, b: 255 }
}

pub fn text_sidebar_selected() -> (r: Color)
    ensures
        r == (Color { r: 204, g: 204, b: 204 }),
{
    Color { r: 204, g: 204, b: 204 }
}

pub fn text_model() -> (r: Color)
    ensures
        r == (Color { r: 231, g: 231, b: 231 }),
{
    Color { r: 231, g: 231, b: 231 }
}

pub fn text_model_primary() -> (r: Color)
    ensures
        r == (Color { r: 0, g: 120, b: 212 }),
{
    Color { r: 0, g: 120, b: 212 }
}

/// The color a highlight category is painted in.
pub fn token_color(token: crate::syntax::TokenType) -> (r: Color)
    ensures
        r == spec_token_color(token),
{
    match token {
        crate::syntax::TokenType::Normal => Color { r: 240, g: 240, b: 240 },
        crate::syntax::TokenType::Number => Color { r: 181, g: 206, b: 168 },
        crate::syntax::TokenType::Match => Color { r: 204, g: 204, b: 204 },
        crate::syntax::TokenType::String => Color { r: 206, g: 145, b: 120 },
        crate::syntax::TokenType::MlString => Color { r: 215, g: 186, b: 125 },
        crate::syntax::TokenType::Comment => Color { r: 106, g: 153, b: 85 },
        crate::syntax::TokenType::MlComment => Color { r: 99, g: 142, b: 80 },
        crate::syntax::TokenType::Keyword1 => Color { r: 86, g: 156, b: 214 },
        crate::syntax::TokenType::Keyword2 => Color { r: 78, g: 201, b: 176 },
        crate::syntax::TokenType::Keyword3 => Color { r: 195, g: 133, b: 190 },
    }
}

/// The color table for highlight categories.
pub open spec fn spec_token_color(token: crate::syntax::TokenType) -> Color {
    match token {
        crate::syntax::TokenType::Normal => Color { r: 240, g: 240, b: 240 },
        crate::syntax::TokenType::Number => Color { r: 181, g: 206, b: 168 },
        crate::syntax::TokenType::Match => Color { r: 204, g: 204, b: 204 },
        crate::syntax::TokenType::String => Color { r: 206, g: 145, b: 120 },
        crate::syntax::TokenType::MlString => Color { r: 215, g: 186, b: 125 },
        crate::syntax::TokenType::Comment => Color { r: 106, g: 153, b: 85 },
        crate::syntax::TokenType::MlComment => Color { r: 99, g: 142, b: 80 },
        crate::syntax::TokenType::Keyword1 => Color { r: 86, g: 156, b: 214 },
        crate::syntax::TokenType::Keyword2 => Color { r: 78, g: 201, b: 176 },
        crate::syntax::TokenType::Keyword3 => Color { r: 195, g: 133, b: 190 },
    }
}

} // verus!
