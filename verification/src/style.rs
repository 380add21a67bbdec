//! Colors and text styles.
use vstd::prelude::*;

verus! {

/// A terminal color: the default one, one of the 16 named ones, a truecolor
/// or a place in the 256-color palette. The names without `Dark` are the
/// bright variants.
#[derive(Clone, Copy, Debug, PartialEq, Eq, Structural)]
pub enum Color {
    Reset,
    Black,
    DarkGrey,
    Red,
    DarkRed,
    Green,
    DarkGreen,
    Yellow,
    DarkYellow,
    Blue,
    DarkBlue,
    Magenta,
    DarkMagenta,
    Cyan,
    DarkCyan,
    White,
    Grey,
    Rgb { r: u8, g: u8, b: u8 },
    AnsiValue(u8),
}

/// The weight of a text.
#[derive(Clone, Copy, Debug, PartialEq, Eq, Structural)]
pub enum Weight {
    Normal,
    Bold,
    Light,
}

impl Default for Weight {
    fn default() -> (r: Weight)
        ensures
            r == Weight::Normal,
    {
        Weight::Normal
    }
}

/// The form of an underline.
#[derive(Clone, Copy, Debug, PartialEq, Eq, Structural)]
pub enum UnderlineStyle {
    Single,
    Double,
    Curly,
    Dotted,
    Dashed,
}

/// How the cells of a text are drawn.
#[derive(Clone, Copy, Debug, PartialEq, Eq, Structural)]
pub struct CanvasTextStyle {
    pub color: Option<Color>,
    pub weight: Weight,
    pub dim: bool,
    pub underline: bool,
    pub underline_style: UnderlineStyle,
    pub underline_color: Option<Color>,
    pub italic: bool,
    pub blink: bool,
    pub hidden: bool,
    pub strikethrough: bool,
    pub overline: bool,
    pub invert: bool,
}

/// The style of a text without any styling.
pub open spec fn unstyled() -> CanvasTextStyle {
    CanvasTextStyle {
        color: None,
        weight: Weight::Normal,
        dim: false,
        underline: false,
        underline_style: UnderlineStyle::Single,
        underline_color: None,
        italic: false,
        blink: false,
        hidden: false,
        strikethrough: false,
        overline: false,
        invert: false,
    }
}

impl Default for CanvasTextStyle {
    fn default() -> (r: CanvasTextStyle)
        ensures
            r == unstyled(),
    {
        CanvasTextStyle {
            color: None,
            weight: Weight::Normal,
            dim: false,
            underline: false,
            underline_style: UnderlineStyle::Single,
            underline_color: None,
            italic: false,
            blink: false,
            hidden: false,
            strikethrough: false,
            overline: false,
            invert: false,
        }
    }
}

impl CanvasTextStyle {
    /// Whether the text is bold.
    pub fn is_bold(&self) -> (r: bool)
        ensures
            r == (self.weight == Weight::Bold),
    {
        self.weight == Weight::Bold
    }

    /// Whether the text is dim, by its own attribute or by its weight.
    pub fn is_dim(&self) -> (r: bool)
        ensures
            r == (self.dim || self.weight == Weight::Light),
    {
        self.dim || self.weight == Weight::Light
    }
}

/// Style fields that a part of a text may set for itself.
#[derive(Clone, Copy, Debug, PartialEq, Eq, Structural)]
pub struct TextStyles {
    pub color: Option<Color>,
    pub background_color: Option<Color>,
    pub bold: Option<bool>,
    pub dim: Option<bool>,
    pub italic: Option<bool>,
    pub underline: Option<bool>,
    pub strikethrough: Option<bool>,
    pub inverse: Option<bool>,
}

/// Style fields that are all left to the text round the part.
pub open spec fn inherited() -> TextStyles {
    TextStyles {
        color: None,
        background_color: None,
        bold: None,
        dim: None,
        italic: None,
        underline: None,
        strikethrough: None,
        inverse: None,
    }
}

impl Default for TextStyles {
    fn default() -> (r: TextStyles)
        ensures
            r == inherited(),
    {
        TextStyles {
            color: None,
            background_color: None,
            bold: None,
            dim: None,
            italic: None,
            underline: None,
            strikethrough: None,
            inverse: None,
        }
    }
}

} // verus!
