//! Terminal cells: rectangles, colors and styles.

use vstd::prelude::*;

verus! {

/// A rectangle of cells.
#[derive(Clone, Copy, Debug, PartialEq, Eq, Structural)]
pub struct Rect {
    pub x: u16,
    pub y: u16,
    pub width: u16,
    pub height: u16,
}

impl Rect {
    /// Whether the cell past the far corner still has coordinates.
    pub open spec fn fits(self) -> bool {
        self.x + self.width <= u16::MAX && self.y + self.height <= u16::MAX
    }

    pub fn new(x: u16, y: u16, width: u16, height: u16) -> (out: Rect)
        ensures
            out == (Rect { x, y, width, height }),
    {
        Rect { x, y, width, height }
    }
}

#[derive(Clone, Copy, Debug, PartialEq, Eq, Structural)]
pub enum Color {
    Reset,
    Black,
    Red,
    Green,
    Yellow,
    Blue,
    Magenta,
    Cyan,
    Gray,
    LightRed,
    LightGreen,
    LightYellow,
    LightBlue,
    LightMagenta,
    LightCyan,
    LightGray,
    White,
    Rgb(u8, u8, u8),
    Indexed(u8),
}

#[derive(Clone, Copy, Debug, PartialEq, Eq, Structural)]
pub enum UnderlineStyle {
    Reset,
    Line,
    Curl,
    Dotted,
    Dashed,
    DoubleLine,
}

/// A change of how a cell looks. What is `None` stays as it is.
#[derive(Clone, Copy, Debug, PartialEq, Eq, Structural)]
pub struct Style {
    pub fg: Option<Color>,
    pub bg: Option<Color>,
    pub underline_color: Option<Color>,
    pub underline_style: Option<UnderlineStyle>,
    /// The modifiers to set, one bit each.
    pub add_modifier: u16,
    /// The modifiers to unset, one bit each.
    pub sub_modifier: u16,
}

/// The first value that there is.
pub open spec fn or<T>(first: Option<T>, second: Option<T>) -> Option<T> {
    if first is Some {
        first
    } else {
        second
    }
}

impl Style {
    /// The style that changes nothing.
    pub open spec fn plain() -> Style {
        Style {
            fg: None,
            bg: None,
            underline_color: None,
            underline_style: None,
            add_modifier: 0,
            sub_modifier: 0,
        }
    }

    /// The effect of this style and then the other one.
    pub open spec fn patched(self, other: Style) -> Style {
        Style {
            fg: or(other.fg, self.fg),
            bg: or(other.bg, self.bg),
            underline_color: or(other.underline_color, self.underline_color),
            underline_style: or(other.underline_style, self.underline_style),
            add_modifier: (self.add_modifier & !other.sub_modifier) | other.add_modifier,
            sub_modifier: (self.sub_modifier & !other.add_modifier) | other.sub_modifier,
        }
    }

    /// The effect of this style and then the other one.
    pub fn patch(self, other: Style) -> (out: Style)
        ensures
            out == self.patched(other),
    {
        Style {
            fg: if other.fg.is_some() {
                other.fg
            } else {
                self.fg
            },
            bg: if other.bg.is_some() {
                other.bg
            } else {
                self.bg
            },
            underline_color: if other.underline_color.is_some() {
                other.underline_color
            } else {
                self.underline_color
            },
            underline_style: if other.underline_style.is_some() {
                other.underline_style
            } else {
                self.underline_style
            },
            add_modifier: (self.add_modifier & !other.sub_modifier) | other.add_modifier,
            sub_modifier: (self.sub_modifier & !other.add_modifier) | other.sub_modifier,
        }
    }

    pub fn fg(self, color: Color) -> (out: Style)
        ensures
            out == (Style { fg: Some(color), ..self }),
    {
        Style { fg: Some(color), ..self }
    }

    pub fn bg(self, color: Color) -> (out: Style)
        ensures
            out == (Style { bg: Some(color), ..self }),
    {
        Style { bg: Some(color), ..self }
    }
}

impl Default for Style {
    /// The style that changes nothing.
    fn default() -> (out: Style)
        ensures
            out == Style::plain(),
    {
        Style {
            fg: None,
            bg: None,
            underline_color: None,
            underline_style: None,
            add_modifier: 0,
            sub_modifier: 0,
        }
    }
}

/// Patching with the plain style changes nothing.
pub proof fn law_plain_patch_is_neutral(style: Style)
    ensures
        style.patched(Style::plain()) == style,
        Style::plain().patched(style) == style,
{
    let a = style.add_modifier;
    let s = style.sub_modifier;
    assert((a & !0u16) | 0u16 == a && (0u16 & !s) | a == a) by (bit_vector);
    assert((s & !0u16) | 0u16 == s && (0u16 & !a) | s == s) by (bit_vector);
}

/// A style on top of another one gives each color and the underline that it has,
/// and leaves those that it does not have.
pub proof fn law_the_upper_style_wins(lower: Style, upper: Style)
    ensures
        lower.patched(upper).fg == (if upper.fg is Some { upper.fg } else { lower.fg }),
        lower.patched(upper).bg == (if upper.bg is Some { upper.bg } else { lower.bg }),
        lower.patched(upper).underline_color == (if upper.underline_color is Some {
            upper.underline_color
        } else {
            lower.underline_color
        }),
        lower.patched(upper).underline_style == (if upper.underline_style is Some {
            upper.underline_style
        } else {
            lower.underline_style
        }),
{
}

/// Styles on top of each other can be put together in any grouping, as far as
/// colors and underlines go.
pub proof fn law_colors_are_put_together_in_any_grouping(first: Style, second: Style, third: Style)
    ensures
        first.patched(second).patched(third).fg == first.patched(second.patched(third)).fg,
        first.patched(second).patched(third).bg == first.patched(second.patched(third)).bg,
        first.patched(second).patched(third).underline_color == first.patched(second.patched(third)).underline_color,
        first.patched(second).patched(third).underline_style == first.patched(second.patched(third)).underline_style,
{
}

} // verus!
