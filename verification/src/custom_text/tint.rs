//! Full-row backgrounds, mixed out of the colors of a theme.

use vstd::prelude::*;

use crate::graphics::{Color, Style};
use crate::theme::Theme;

verus! {

broadcast use vstd::string::group_string_axioms;

/// A channel of the foreground over one of the background, at a percentage.
pub open spec fn mixed_channel(foreground: u8, background: u8, opacity: u8) -> u8 {
    let share = if opacity < 100 {
        opacity as int
    } else {
        100
    };
    ((foreground * share + background * (100 - share) + 50) / 100) as u8
}

fn mix(foreground: u8, background: u8, opacity: u8) -> (out: u8)
    ensures
        out == mixed_channel(foreground, background, opacity),
{
    let opacity: u16 = if opacity < 100 {
        opacity as u16
    } else {
        100
    };
    let inverse: u16 = 100 - opacity;
    proof {
        assert(foreground as int * opacity as int + background as int * inverse as int <= 255 * 100) by (nonlinear_arith)
            requires
                0 <= foreground <= 255,
                0 <= background <= 255,
                0 <= opacity <= 100,
                inverse == 100 - opacity,
        ;
        assert(0 <= foreground as int * opacity as int) by (nonlinear_arith)
            requires
                0 <= foreground,
                0 <= opacity,
        ;
        assert(0 <= background as int * inverse as int) by (nonlinear_arith)
            requires
                0 <= background,
                0 <= inverse,
        ;
    }
    ((foreground as u16 * opacity + background as u16 * inverse + 50) / 100) as u8
}

/// The foreground over the background, at a percentage.
pub fn blend_rgb(foreground: [u8; 3], background: [u8; 3], opacity: u8) -> (out: [u8; 3])
    ensures
        forall|i: int|
            0 <= i < 3 ==> #[trigger] out@[i] == mixed_channel(foreground@[i], background@[i], opacity),
{
    [
        mix(foreground[0], background[0], opacity),
        mix(foreground[1], background[1], opacity),
        mix(foreground[2], background[2], opacity),
    ]
}

/// A level of the color cube.
pub open spec fn cube_level(value: int) -> u8 {
    if value == 0 {
        0
    } else {
        (55 + value * 40) as u8
    }
}

/// The channels of an entry of the 256-color palette.
pub open spec fn palette_rgb(index: u8) -> Seq<u8> {
    if index == 7 {
        seq![192u8, 192u8, 192u8]
    } else if index == 8 {
        seq![128u8, 128u8, 128u8]
    } else if index < 16 {
        let on: u8 = if index < 8 {
            128
        } else {
            255
        };
        seq![
            if index % 2 == 1 { on } else { 0u8 },
            if (index / 2) % 2 == 1 { on } else { 0u8 },
            if (index / 4) % 2 == 1 { on } else { 0u8 },
        ]
    } else if index >= 232 {
        let level = (8 + (index - 232) * 10) as u8;
        seq![level, level, level]
    } else {
        seq![cube_level((index - 16) / 36), cube_level(((index - 16) % 36) / 6), cube_level((index - 16) % 6)]
    }
}

fn level_of(value: u8) -> (out: u8)
    requires
        value <= 5,
    ensures
        out == cube_level(value as int),
{
    if value == 0 {
        0
    } else {
        55 + value * 40
    }
}

/// The channels of an entry of the 256-color palette.
pub fn ansi256_rgb(index: u8) -> (out: [u8; 3])
    ensures
        out@ == palette_rgb(index),
{
    let out: [u8; 3] = if index < 16 {
        match index {
            0 => [0, 0, 0],
            1 => [128, 0, 0],
            2 => [0, 128, 0],
            3 => [128, 128, 0],
            4 => [0, 0, 128],
            5 => [128, 0, 128],
            6 => [0, 128, 128],
            7 => [192, 192, 192],
            8 => [128, 128, 128],
            9 => [255, 0, 0],
            10 => [0, 255, 0],
            11 => [255, 255, 0],
            12 => [0, 0, 255],
            13 => [255, 0, 255],
            14 => [0, 255, 255],
            _ => [255, 255, 255],
        }
    } else if index >= 232 {
        let level: u8 = 8 + (index - 232) * 10;
        [level, level, level]
    } else {
        let cube: u8 = index - 16;
        [level_of(cube / 36), level_of((cube % 36) / 6), level_of(cube % 6)]
    };
    proof {
        assert(out@ =~= palette_rgb(index));
    }
    out
}

/// The channels of a color.
pub open spec fn rgb_of(color: Option<Color>, reset: Seq<u8>) -> Seq<u8> {
    match color {
        Some(Color::Rgb(red, green, blue)) => seq![red, green, blue],
        Some(Color::Black) => palette_rgb(0),
        Some(Color::Red) => palette_rgb(1),
        Some(Color::Green) => palette_rgb(2),
        Some(Color::Yellow) => palette_rgb(3),
        Some(Color::Blue) => palette_rgb(4),
        Some(Color::Magenta) => palette_rgb(5),
        Some(Color::Cyan) => palette_rgb(6),
        Some(Color::Gray) => palette_rgb(8),
        Some(Color::LightRed) => palette_rgb(9),
        Some(Color::LightGreen) => palette_rgb(10),
        Some(Color::LightYellow) => palette_rgb(11),
        Some(Color::LightBlue) => palette_rgb(12),
        Some(Color::LightMagenta) => palette_rgb(13),
        Some(Color::LightCyan) => palette_rgb(14),
        Some(Color::LightGray) => palette_rgb(7),
        Some(Color::White) => palette_rgb(15),
        Some(Color::Indexed(index)) => palette_rgb(index),
        Some(Color::Reset) => reset,
        None => reset,
    }
}

/// The channels of a color.
pub fn color_rgb(color: Option<Color>, reset: [u8; 3]) -> (out: [u8; 3])
    ensures
        out@ == rgb_of(color, reset@),
{
    match color {
        Some(Color::Rgb(red, green, blue)) => {
            let out = [red, green, blue];
            proof {
                assert(out@ =~= seq![red, green, blue]);
            }
            out
        },
        Some(Color::Black) => ansi256_rgb(0),
        Some(Color::Red) => ansi256_rgb(1),
        Some(Color::Green) => ansi256_rgb(2),
        Some(Color::Yellow) => ansi256_rgb(3),
        Some(Color::Blue) => ansi256_rgb(4),
        Some(Color::Magenta) => ansi256_rgb(5),
        Some(Color::Cyan) => ansi256_rgb(6),
        Some(Color::Gray) => ansi256_rgb(8),
        Some(Color::LightRed) => ansi256_rgb(9),
        Some(Color::LightGreen) => ansi256_rgb(10),
        Some(Color::LightYellow) => ansi256_rgb(11),
        Some(Color::LightBlue) => ansi256_rgb(12),
        Some(Color::LightMagenta) => ansi256_rgb(13),
        Some(Color::LightCyan) => ansi256_rgb(14),
        Some(Color::LightGray) => ansi256_rgb(7),
        Some(Color::White) => ansi256_rgb(15),
        Some(Color::Indexed(index)) => ansi256_rgb(index),
        Some(Color::Reset) => reset,
        None => reset,
    }
}

/// The place of a channel on the color cube.
pub open spec fn cube_place(value: u8) -> int {
    (value * 5 + 127) / 255
}

/// The nearest entry of the color cube.
pub open spec fn nearest_index(rgb: Seq<u8>) -> u8 {
    (16 + 36 * cube_place(rgb[0]) + 6 * cube_place(rgb[1]) + cube_place(rgb[2])) as u8
}

fn place(value: u8) -> (out: u8)
    ensures
        out == cube_place(value),
        out <= 5,
{
    ((value as u16 * 5 + 127) / 255) as u8
}

/// The nearest entry of the color cube.
pub fn indexed_color(rgb: [u8; 3]) -> (out: Color)
    ensures
        out == Color::Indexed(nearest_index(rgb@)),
{
    Color::Indexed(16 + 36 * place(rgb[0]) + 6 * place(rgb[1]) + place(rgb[2]))
}

/// The background of a row with a scope: the one that the theme gives the
/// scope itself, or else the foreground of the scope over the background of
/// the editor.
pub open spec fn row_color(theme: Theme, scope: Seq<char>, opacity: u8) -> Color {
    if theme.exact(scope) is Some && theme.exact(scope)->0.bg is Some {
        theme.exact(scope)->0.bg->0
    } else {
        let own = if theme.found(scope) is Some {
            theme.found(scope)->0.fg
        } else {
            None
        };
        let text = if theme.found("ui.text"@) is Some {
            theme.found("ui.text"@)->0.fg
        } else {
            None
        };
        let foreground = rgb_of(
            if own is Some {
                own
            } else {
                text
            },
            seq![220u8, 220u8, 220u8],
        );
        let background = rgb_of(
            if theme.found("ui.background"@) is Some {
                theme.found("ui.background"@)->0.bg
            } else {
                None
            },
            seq![0u8, 0u8, 0u8],
        );
        let mixed = Seq::new(3, |i: int| mixed_channel(foreground[i], background[i], opacity));
        if theme.palette() {
            Color::Indexed(nearest_index(mixed))
        } else {
            Color::Rgb(mixed[0], mixed[1], mixed[2])
        }
    }
}

/// The background of a row with a scope.
pub fn background_style(theme: &Theme, scope: &str, opacity: u8) -> (out: Style)
    ensures
        out == (Style { bg: Some(row_color(*theme, scope@, opacity)), ..Style::plain() }),
{
    if let Some(style) = theme.try_get_exact(scope) {
        if let Some(background) = style.bg {
            return Style::default().bg(background);
        }
    }
    let own = match theme.try_get(scope) {
        Some(style) => style.fg,
        None => None,
    };
    let foreground = if own.is_some() {
        own
    } else {
        match theme.try_get("ui.text") {
            Some(style) => style.fg,
            None => None,
        }
    };
    let background = match theme.try_get("ui.background") {
        Some(style) => style.bg,
        None => None,
    };
    let light: [u8; 3] = [220, 220, 220];
    let dark: [u8; 3] = [0, 0, 0];
    proof {
        assert(light@ =~= seq![220u8, 220u8, 220u8]);
        assert(dark@ =~= seq![0u8, 0u8, 0u8]);
    }
    let front = color_rgb(foreground, light);
    let back = color_rgb(background, dark);
    let mixed = blend_rgb(front, back, opacity);
    proof {
        assert(mixed@ =~= Seq::new(3, |i: int| mixed_channel(front@[i], back@[i], opacity)));
    }
    Style::default().bg(
        if theme.is_16_color() {
            indexed_color(mixed)
        } else {
            Color::Rgb(mixed[0], mixed[1], mixed[2])
        },
    )
}

/// At full opacity only the foreground shows, at none only the background,
/// and a mixed channel never leaves the range between the two.
pub proof fn law_blend_is_between(foreground: u8, background: u8, opacity: u8)
    ensures
        mixed_channel(foreground, background, 100) == foreground,
        mixed_channel(foreground, background, 0) == background,
        foreground <= background ==> foreground <= mixed_channel(foreground, background, opacity) <= background,
        background <= foreground ==> background <= mixed_channel(foreground, background, opacity) <= foreground,
{
    let share: int = if opacity < 100 {
        opacity as int
    } else {
        100
    };
    let f = foreground as int;
    let b = background as int;
    assert(f * 0 == 0 && b * 0 == 0) by (nonlinear_arith);
    assert(mixed_channel(foreground, background, 0) == ((f * 0 + b * 100 + 50) / 100) as u8);
    let sum = f * share + b * (100 - share);
    assert(f <= b ==> 100 * f <= sum <= 100 * b) by (nonlinear_arith)
        requires
            sum == f * share + b * (100 - share),
            0 <= share <= 100,
    ;
    assert(b <= f ==> 100 * b <= sum <= 100 * f) by (nonlinear_arith)
        requires
            sum == f * share + b * (100 - share),
            0 <= share <= 100,
    ;
}

/// A color that is mixed at no opacity is the background, at a full one the
/// foreground; and the more opaque it is, the less far it is from the foreground.
pub proof fn law_opacity_moves_to_the_foreground(foreground: u8, background: u8, opacity: u8, more: u8)
    requires
        opacity <= more,
    ensures
        mixed_channel(foreground, background, 0) == background,
        opacity >= 100 ==> mixed_channel(foreground, background, opacity) == foreground,
        background <= foreground ==> background <= mixed_channel(foreground, background, opacity) <= mixed_channel(
            foreground,
            background,
            more,
        ) <= foreground,
        foreground <= background ==> foreground <= mixed_channel(foreground, background, more) <= mixed_channel(
            foreground,
            background,
            opacity,
        ) <= background,
        opacity <= 100 ==> -50 <= 100 * mixed_channel(foreground, background, opacity) - (foreground * opacity + background * (100
            - opacity)) <= 50,
{
    let f = foreground as int;
    let b = background as int;
    let p = if opacity < 100 { opacity as int } else { 100 };
    let q = if more < 100 { more as int } else { 100 };
    let low = f * p + b * (100 - p);
    let high = f * q + b * (100 - q);
    assert(0 <= low <= 25500 && 0 <= high <= 25500) by (nonlinear_arith)
        requires
            0 <= f <= 255,
            0 <= b <= 255,
            0 <= p <= 100,
            0 <= q <= 100,
            low == f * p + b * (100 - p),
            high == f * q + b * (100 - q),
    ;
    assert(b <= f ==> 100 * b <= low <= high <= 100 * f) by (nonlinear_arith)
        requires
            0 <= p <= q <= 100,
            low == f * p + b * (100 - p),
            high == f * q + b * (100 - q),
    ;
    assert(f <= b ==> 100 * f <= high <= low <= 100 * b) by (nonlinear_arith)
        requires
            0 <= p <= q <= 100,
            low == f * p + b * (100 - p),
            high == f * q + b * (100 - q),
    ;
    assert(f * 0 + b * (100 - 0) == 100 * b && f * 100 + b * (100 - 100) == 100 * f);
}

/// A scope that has a background of its own colors its rows with it, at any
/// opacity.
pub proof fn law_own_backgrounds_are_taken(theme: Theme, scope: Seq<char>, style: Style, opacity: u8)
    requires
        theme.exact(scope) == Some(style),
        style.bg is Some,
    ensures
        row_color(theme, scope, opacity) == style.bg->0,
{
}

/// A row of a scope without a background of its own, in a theme with colors of
/// its own making: each channel is that of the scope's foreground over the
/// background of the editor.
pub proof fn law_rows_mix_foreground_and_background(
    theme: Theme,
    scope: Seq<char>,
    opacity: u8,
    style: Style,
    editor: Style,
    front: (u8, u8, u8),
    back: (u8, u8, u8),
)
    requires
        theme.exact(scope) is None || theme.exact(scope)->0.bg is None,
        theme.found(scope) == Some(style),
        style.fg == Some(Color::Rgb(front.0, front.1, front.2)),
        theme.found("ui.background"@) == Some(editor),
        editor.bg == Some(Color::Rgb(back.0, back.1, back.2)),
        !theme.palette(),
    ensures
        row_color(theme, scope, opacity) == Color::Rgb(
            mixed_channel(front.0, back.0, opacity),
            mixed_channel(front.1, back.1, opacity),
            mixed_channel(front.2, back.2, opacity),
        ),
{
}

/// The nearest level of a channel on the color cube is at most half a step off,
/// and the entry that is found for a color is one of the cube.
pub proof fn law_the_nearest_entry_is_on_the_cube(rgb: Seq<u8>, i: int)
    requires
        rgb.len() == 3,
        0 <= i < 3,
    ensures
        0 <= cube_place(rgb[i]) <= 5,
        -128 <= 255 * cube_place(rgb[i]) - 5 * rgb[i] <= 127,
        16 <= nearest_index(rgb) <= 231,
        (nearest_index(rgb) - 16) / 36 == cube_place(rgb[0]),
        ((nearest_index(rgb) - 16) % 36) / 6 == cube_place(rgb[1]),
        (nearest_index(rgb) - 16) % 6 == cube_place(rgb[2]),
{
    assert forall|v: u8| 0 <= #[trigger] cube_place(v) <= 5 by {}
    let a = cube_place(rgb[0]);
    let b = cube_place(rgb[1]);
    let c = cube_place(rgb[2]);
    assert(0 <= a <= 5 && 0 <= b <= 5 && 0 <= c <= 5);
}

/// The entries of the palette: gray entries have one level for all channels, and
/// levels rise along the gray ramp and along each side of the color cube.
pub proof fn law_the_palette_rises(index: u8, next: u8)
    requires
        16 <= index < next,
    ensures
        palette_rgb(index).len() == 3,
        index >= 232 ==> palette_rgb(index)[0] == palette_rgb(index)[1] == palette_rgb(index)[2] < palette_rgb(next)[0],
        index >= 232 && next == index + 1 ==> palette_rgb(next)[0] == palette_rgb(index)[0] + 10,
        next < 232 ==> palette_rgb(index)[0] <= palette_rgb(next)[0],
        next < 232 && next == index + 1 && (index - 16) % 6 < 5 ==> palette_rgb(index)[0] == palette_rgb(next)[0] && palette_rgb(
            index,
        )[1] == palette_rgb(next)[1] && palette_rgb(index)[2] < palette_rgb(next)[2],
{
    let i = index as int - 16;
    let j = next as int - 16;
    assert(i / 36 <= j / 36);
    if next < 232 {
        assert(0 <= i / 36 <= 5 && 0 <= j / 36 <= 5);
        assert(0 <= (i % 36) / 6 <= 5 && 0 <= i % 6 <= 5);
        if next == index + 1 && i % 6 < 5 {
            assert(j / 36 == i / 36);
            assert(j % 6 == i % 6 + 1);
            assert((j % 36) / 6 == (i % 36) / 6);
        }
    }
}

/// Colors with channels have these; the others have those of the palette, and
/// where there is no color it is the one of the terminal.
pub proof fn law_colors_have_their_channels(red: u8, green: u8, blue: u8, index: u8, reset: Seq<u8>)
    ensures
        rgb_of(Some(Color::Rgb(red, green, blue)), reset) == seq![red, green, blue],
        rgb_of(Some(Color::Indexed(index)), reset) == palette_rgb(index),
        rgb_of(None, reset) == reset,
        rgb_of(Some(Color::Reset), reset) == reset,
        rgb_of(Some(Color::Black), reset) == seq![0u8, 0u8, 0u8],
        rgb_of(Some(Color::Red), reset) == seq![128u8, 0u8, 0u8],
        rgb_of(Some(Color::Green), reset) == seq![0u8, 128u8, 0u8],
        rgb_of(Some(Color::Yellow), reset) == seq![128u8, 128u8, 0u8],
        rgb_of(Some(Color::Blue), reset) == seq![0u8, 0u8, 128u8],
        rgb_of(Some(Color::Magenta), reset) == seq![128u8, 0u8, 128u8],
        rgb_of(Some(Color::Cyan), reset) == seq![0u8, 128u8, 128u8],
        rgb_of(Some(Color::Gray), reset) == seq![128u8, 128u8, 128u8],
        rgb_of(Some(Color::LightGray), reset) == seq![192u8, 192u8, 192u8],
        rgb_of(Some(Color::LightRed), reset) == seq![255u8, 0u8, 0u8],
        rgb_of(Some(Color::LightGreen), reset) == seq![0u8, 255u8, 0u8],
        rgb_of(Some(Color::LightYellow), reset) == seq![255u8, 255u8, 0u8],
        rgb_of(Some(Color::LightBlue), reset) == seq![0u8, 0u8, 255u8],
        rgb_of(Some(Color::LightMagenta), reset) == seq![255u8, 0u8, 255u8],
        rgb_of(Some(Color::LightCyan), reset) == seq![0u8, 255u8, 255u8],
        rgb_of(Some(Color::White), reset) == seq![255u8, 255u8, 255u8],
{
}

/// The channels of the color cube start at 0, go on at 95 and rise by 40; those of
/// the gray ramp start at 8.
pub proof fn law_the_cube_has_six_levels(red: int, green: int, blue: int)
    requires
        0 <= red <= 5,
        0 <= green <= 5,
        0 <= blue <= 5,
    ensures
        ({
            let channels = palette_rgb((16 + 36 * red + 6 * green + blue) as u8);
            &&& channels[0] == (if red == 0 { 0 } else { 55 + 40 * red })
            &&& channels[1] == (if green == 0 { 0 } else { 55 + 40 * green })
            &&& channels[2] == (if blue == 0 { 0 } else { 55 + 40 * blue })
        }),
        palette_rgb(232) == seq![8u8, 8u8, 8u8],
{
    let place = 36 * red + 6 * green + blue;
    assert(place / 36 == red && place % 36 == 6 * green + blue && (place % 36) / 6 == green && place % 6 == blue);
}

} // verus!
