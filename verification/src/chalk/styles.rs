//! The codes of the styles and the conversions between color spaces.
use crate::chars;
use crate::chars::{chars_of, is_hex_digit, push_decimal};
use vstd::prelude::*;

verus! {

/// Foreground close code shared by all colors.
pub const FG_CLOSE: u8 = 39;

/// Background close code shared by all colors.
pub const BG_CLOSE: u8 = 49;

/// Underline-color close code.
pub const UNDERLINE_CLOSE: u8 = 59;

/// What turns a foreground code into its background variant.
pub const ANSI_BACKGROUND_OFFSET: u8 = 10;

/// What turns a foreground code into its underline-color variant.
pub const ANSI_UNDERLINE_OFFSET: u8 = 20;

/// The 16 named colors.
#[derive(Clone, Copy, Debug, PartialEq, Eq, Structural)]
pub enum NamedColor {
    Black,
    Red,
    Green,
    Yellow,
    Blue,
    Magenta,
    Cyan,
    White,
    BlackBright,
    RedBright,
    GreenBright,
    YellowBright,
    BlueBright,
    MagentaBright,
    CyanBright,
    WhiteBright,
}

/// The place of a named color in the 16-color palette.
pub open spec fn palette_index(color: NamedColor) -> u8 {
    match color {
        NamedColor::Black => 0,
        NamedColor::Red => 1,
        NamedColor::Green => 2,
        NamedColor::Yellow => 3,
        NamedColor::Blue => 4,
        NamedColor::Magenta => 5,
        NamedColor::Cyan => 6,
        NamedColor::White => 7,
        NamedColor::BlackBright => 8,
        NamedColor::RedBright => 9,
        NamedColor::GreenBright => 10,
        NamedColor::YellowBright => 11,
        NamedColor::BlueBright => 12,
        NamedColor::MagentaBright => 13,
        NamedColor::CyanBright => 14,
        NamedColor::WhiteBright => 15,
    }
}

/// The foreground code of a place in the 16-color palette: 30 to 37, and 90
/// to 97 for the bright half.
pub open spec fn foreground_code(index: u8) -> u8 {
    if index < 8 {
        (30 + index) as u8
    } else {
        (82 + index) as u8
    }
}

impl NamedColor {
    /// The code that opens the color as a foreground.
    pub fn fg_open(self) -> (r: u8)
        ensures
            r == foreground_code(palette_index(self)),
    {
        match self {
            NamedColor::Black => 30,
            NamedColor::Red => 31,
            NamedColor::Green => 32,
            NamedColor::Yellow => 33,
            NamedColor::Blue => 34,
            NamedColor::Magenta => 35,
            NamedColor::Cyan => 36,
            NamedColor::White => 37,
            NamedColor::BlackBright => 90,
            NamedColor::RedBright => 91,
            NamedColor::GreenBright => 92,
            NamedColor::YellowBright => 93,
            NamedColor::BlueBright => 94,
            NamedColor::MagentaBright => 95,
            NamedColor::CyanBright => 96,
            NamedColor::WhiteBright => 97,
        }
    }
}

/// The escape sequence that selects the graphic rendition `params`.
pub open spec fn sgr(params: Seq<char>) -> Seq<char> {
    "\u{1b}["@ + params + "m"@
}

/// The escape sequence of a single code.
pub open spec fn sgr_code(code: int) -> Seq<char> {
    sgr(chars::decimal(code as nat))
}

/// The escape sequence of a place in the 256-color palette. `target` is the
/// code of what gets the color.
pub open spec fn sgr_palette(target: int, index: u8) -> Seq<char> {
    sgr(chars::decimal(target as nat) + ";5;"@ + chars::decimal(index as nat))
}

/// The escape sequence of a truecolor. `target` is the code of what gets the
/// color.
pub open spec fn sgr_rgb(target: int, r: u8, g: u8, b: u8) -> Seq<char> {
    sgr(
        chars::decimal(target as nat) + ";2;"@ + chars::decimal(r as nat) + ";"@ + chars::decimal(
            g as nat,
        ) + ";"@ + chars::decimal(b as nat),
    )
}

/// The escape sequence of one of the 16 colors as an underline color. There
/// is no basic form, so the color is named by its place in the palette.
pub open spec fn sgr_underline(code: u8) -> Seq<char> {
    sgr_palette(
        58,
        if code < 90 {
            (code - 30) as u8
        } else {
            (code - 82) as u8
        },
    )
}

/// The escape sequence of a code moved by `offset`.
pub fn wrap_ansi16(code: u8, offset: u8) -> (r: String)
    requires
        code + offset <= 255,
    ensures
        r@ == sgr_code(code + offset),
{
    let mut out = String::new();
    out.append("\u{1b}[");
    push_decimal(&mut out, (code + offset) as usize);
    out.append("m");
    assert(out@ =~= sgr_code(code + offset));
    out
}

/// The escape sequence of a 256-color, for the target moved by `offset`.
pub fn wrap_ansi256(code: u8, offset: u8) -> (r: String)
    requires
        38 + offset <= 255,
    ensures
        r@ == sgr_palette(38 + offset, code),
{
    let mut out = String::new();
    out.append("\u{1b}[");
    push_decimal(&mut out, (38 + offset) as usize);
    out.append(";5;");
    push_decimal(&mut out, code as usize);
    out.append("m");
    assert(out@ =~= sgr_palette(38 + offset, code));
    out
}

/// The escape sequence of a truecolor, for the target moved by `offset`.
pub fn wrap_ansi16m(r: u8, g: u8, b: u8, offset: u8) -> (s: String)
    requires
        38 + offset <= 255,
    ensures
        s@ == sgr_rgb(38 + offset, r, g, b),
{
    let mut out = String::new();
    out.append("\u{1b}[");
    push_decimal(&mut out, (38 + offset) as usize);
    out.append(";2;");
    push_decimal(&mut out, r as usize);
    out.append(";");
    push_decimal(&mut out, g as usize);
    out.append(";");
    push_decimal(&mut out, b as usize);
    out.append("m");
    assert(out@ =~= sgr_rgb(38 + offset, r, g, b));
    out
}

/// The escape sequence of a 16-color foreground code as an underline color.
pub fn wrap_underline_ansi(code: u8) -> (r: String)
    requires
        30 <= code,
    ensures
        r@ == sgr_underline(code),
{
    let palette: u8 = if code < 90 {
        code - 30
    } else {
        code - 90 + 8
    };
    wrap_ansi256(palette, ANSI_UNDERLINE_OFFSET)
}

/// The level of a channel in the color cube: the quotient `5 * c / 255`,
/// rounded to the nearest integer.
pub open spec fn cube_level_of(c: u8) -> int {
    (10 * c + 255) / 510
}

/// The place of a grey on the grey ramp: the quotient `24 * (c - 8) / 247`,
/// rounded to the nearest integer.
pub open spec fn grey_level_of(c: u8) -> int {
    (48 * (c - 8) + 247) / 494
}

/// The nearest place in the 256-color palette: greys go to the grey ramp,
/// every other color to the cube of six levels per channel.
pub open spec fn nearest_256(r: u8, g: u8, b: u8) -> u8 {
    if r == g && g == b {
        if r < 8 {
            16
        } else if r > 248 {
            231
        } else {
            (232 + grey_level_of(r)) as u8
        }
    } else {
        (16 + 36 * cube_level_of(r) + 6 * cube_level_of(g) + cube_level_of(b)) as u8
    }
}

/// The level of a channel in the color cube.
fn cube_level(c: u8) -> (r: u8)
    ensures
        r == cube_level_of(c),
        r <= 5,
{
    ((10 * (c as u16) + 255) / 510) as u8
}

/// The nearest place of a truecolor in the 256-color palette.
pub fn rgb_to_ansi256(r: u8, g: u8, b: u8) -> (code: u8)
    ensures
        code == nearest_256(r, g, b),
        16 <= code,
{
    if r == g && g == b {
        if r < 8 {
            return 16;
        }
        if r > 248 {
            return 231;
        }
        return ((48 * (r as u16 - 8) + 247) / 494) as u8 + 232;
    }
    16 + 36 * cube_level(r) + 6 * cube_level(g) + cube_level(b)
}

/// The bit of a cube level in the 16-color palette: it is set in the upper
/// half of the levels.
pub open spec fn upper_half(level: int) -> int {
    if 2 * level >= 5 {
        1
    } else {
        0
    }
}

/// The 16-color foreground code that a place in the 256-color palette falls
/// onto. Only a channel at its full value gives a bright color.
pub open spec fn code_of_256(code: u8) -> u8 {
    if code < 16 {
        foreground_code(code)
    } else if code >= 232 {
        if 2 * (10 * (code - 232) + 8) >= 255 {
            37
        } else {
            30
        }
    } else {
        let r = (code - 16) / 36;
        let g = (code - 16) % 36 / 6;
        let b = (code - 16) % 36 % 6;
        let base = 30 + 4 * upper_half(b) + 2 * upper_half(g) + upper_half(r);
        if r == 5 || g == 5 || b == 5 {
            (base + 60) as u8
        } else {
            base as u8
        }
    }
}

/// The foreground codes of the 16 colors.
pub open spec fn is_foreground_code(code: u8) -> bool {
    30 <= code <= 37 || 90 <= code <= 97
}

/// The palette bit of a cube level.
fn level_bit(level: u8) -> (r: u8)
    ensures
        r == upper_half(level as int),
{
    if level >= 3 {
        1
    } else {
        0
    }
}

/// Collapses a 256-color index onto the 16-color foreground codes.
pub fn ansi256_to_ansi(code: u8) -> (r: u8)
    ensures
        r == code_of_256(code),
        is_foreground_code(r),
{
    if code < 8 {
        return 30 + code;
    }
    if code < 16 {
        return 90 + (code - 8);
    }
    if code >= 232 {
        let grey: u16 = (code as u16 - 232) * 10 + 8;
        return if 2 * grey >= 255 {
            37
        } else {
            30
        };
    }
    let c: u8 = code - 16;
    let rest: u8 = c % 36;
    let r: u8 = c / 36;
    let g: u8 = rest / 6;
    let b: u8 = rest % 6;
    let base: u8 = 30 + 4 * level_bit(b) + 2 * level_bit(g) + level_bit(r);
    if r == 5 || g == 5 || b == 5 {
        base + 60
    } else {
        base
    }
}

/// The 16-color foreground code of a truecolor.
pub fn rgb_to_ansi(r: u8, g: u8, b: u8) -> (code: u8)
    ensures
        code == code_of_256(nearest_256(r, g, b)),
        is_foreground_code(code),
{
    ansi256_to_ansi(rgb_to_ansi256(r, g, b))
}

/// Whether `n` hexadecimal digits stand in `s` from position `i` on.
pub open spec fn hex_run(s: Seq<char>, i: int, n: int) -> bool {
    0 <= i && i + n <= s.len() && forall|j: int|
        i <= j < i + n ==> chars::hex_digit(#[trigger] s[j])
}

/// The first position of `s` from `from` on where three hexadecimal digits
/// stand in a row, or the end of `s` where there is none.
pub open spec fn hex_start(s: Seq<char>, from: int) -> int
    decreases s.len() - from,
{
    if from < 0 || from >= s.len() {
        s.len() as int
    } else if hex_run(s, from, 3) {
        from
    } else {
        hex_start(s, from + 1)
    }
}

/// The two-digit hexadecimal number with the digits `high` and `low`.
pub open spec fn hex_pair(high: char, low: char) -> u8 {
    (16 * chars::hex_value(high) + chars::hex_value(low)) as u8
}

/// The color that the first run of hexadecimal digits in `s` stands for: six
/// digits where there are that many, else three, each of them doubled. Text
/// without such a run is black.
pub open spec fn hex_color(s: Seq<char>) -> (u8, u8, u8) {
    let i = hex_start(s, 0);
    if i >= s.len() {
        (0, 0, 0)
    } else if hex_run(s, i, 6) {
        (hex_pair(s[i], s[i + 1]), hex_pair(s[i + 2], s[i + 3]), hex_pair(s[i + 4], s[i + 5]))
    } else {
        (hex_pair(s[i], s[i]), hex_pair(s[i + 1], s[i + 1]), hex_pair(s[i + 2], s[i + 2]))
    }
}

/// Whether `n` hexadecimal digits stand in `s` from position `i` on.
fn has_hex_run(s: &Vec<char>, i: usize, n: usize) -> (r: bool)
    requires
        i <= s@.len(),
    ensures
        r == hex_run(s@, i as int, n as int),
{
    if s.len() - i < n {
        return false;
    }
    let end: usize = i + n;
    let mut j: usize = i;
    while j < end
        invariant
            i <= j <= end <= s@.len(),
            end == i + n,
            forall|k: int| i <= k < j ==> chars::hex_digit(#[trigger] s@[k]),
        decreases end - j,
    {
        if !is_hex_digit(s[j]) {
            return false;
        }
        j = j + 1;
    }
    true
}

/// The value of a hexadecimal digit.
fn hex_digit_value(c: char) -> (r: u8)
    requires
        chars::hex_digit(c),
    ensures
        r == chars::hex_value(c),
        r < 16,
{
    let n: u32 = c as u32;
    if c <= '9' {
        (n - '0' as u32) as u8
    } else if c <= 'F' {
        (n - 'A' as u32 + 10) as u8
    } else {
        (n - 'a' as u32 + 10) as u8
    }
}

/// The two-digit hexadecimal number with the digits `high` and `low`.
fn pair_value(high: char, low: char) -> (r: u8)
    requires
        chars::hex_digit(high),
        chars::hex_digit(low),
    ensures
        r == hex_pair(high, low),
{
    16 * hex_digit_value(high) + hex_digit_value(low)
}

/// Reads a hexadecimal color (`#rrggbb` or `#rgb`) out of a text.
pub fn hex_to_rgb(hex: &str) -> (r: (u8, u8, u8))
    ensures
        r == hex_color(hex@),
{
    let s = chars_of(hex);
    let mut i: usize = 0;
    while i < s.len()
        invariant
            s@ == hex@,
            0 <= i <= s@.len(),
            hex_start(s@, 0) == hex_start(s@, i as int),
        decreases s@.len() - i,
    {
        if has_hex_run(&s, i, 3) {
            if has_hex_run(&s, i, 6) {
                return (
                    pair_value(s[i], s[i + 1]),
                    pair_value(s[i + 2], s[i + 3]),
                    pair_value(s[i + 4], s[i + 5]),
                );
            }
            return (
                pair_value(s[i], s[i]),
                pair_value(s[i + 1], s[i + 1]),
                pair_value(s[i + 2], s[i + 2]),
            );
        }
        i = i + 1;
    }
    (0, 0, 0)
}

/// No level of the cube is nearer to a channel than its own: the levels are 51
/// apart from 0 to 255.
pub proof fn cube_levels_are_nearest(c: u8, other: int)
    requires
        0 <= other <= 5,
    ensures
        ({
            let own = cube_level_of(c);
            let near = if 51 * own <= c {
                c - 51 * own
            } else {
                51 * own - c
            };
            let far = if 51 * other <= c {
                c - 51 * other
            } else {
                51 * other - c
            };
            0 <= own <= 5 && near <= far
        }),
{
}

/// A color that is not grey has its place in the cube: the red level counts
/// most, then the green one, then the blue one, and all colors of the cube
/// come before the greys.
pub proof fn colors_have_their_place_in_the_cube(r: u8, g: u8, b: u8)
    requires
        !(r == g && g == b),
    ensures
        ({
            let place = nearest_256(r, g, b) - 16;
            &&& 0 <= place < 216
            &&& place / 36 == cube_level_of(r)
            &&& place % 36 / 6 == cube_level_of(g)
            &&& place % 6 == cube_level_of(b)
        }),
{
}

/// The colors of the cube are their own nearest places: a color whose channels
/// are levels of the cube is found where it is, unless it is grey.
pub proof fn cube_colors_are_found(r: u8, g: u8, b: u8)
    requires
        r <= 5,
        g <= 5,
        b <= 5,
        !(r == g && g == b),
    ensures
        nearest_256((51 * r) as u8, (51 * g) as u8, (51 * b) as u8) == 16 + 36 * r + 6 * g + b,
{
    assert(cube_level_of((51 * r) as u8) == r);
    assert(cube_level_of((51 * g) as u8) == g);
    assert(cube_level_of((51 * b) as u8) == b);
}

/// A grey goes to the grey ramp, the darker the nearer to its dark end. Only
/// what is all but black or white goes to the corners of the cube.
pub proof fn greys_go_to_the_ramp(a: u8, b: u8)
    requires
        a <= b,
    ensures
        nearest_256(a, a, a) == 16 <==> a < 8,
        nearest_256(a, a, a) == 231 <==> a > 248,
        8 <= a && b <= 248 ==> 232 <= nearest_256(a, a, a) <= nearest_256(b, b, b) <= 255,
        8 <= a <= 248 ==> -247 <= 48 * (a - 8) - 494 * (nearest_256(a, a, a) - 232) <= 247,
        nearest_256(8, 8, 8) == 232,
        nearest_256(247, 247, 247) == 255,
{
}

/// The first sixteen places of the palette are the sixteen colors themselves.
pub proof fn basic_colors_stay(index: u8)
    ensures
        index < 8 ==> code_of_256(index) == 30 + index,
        8 <= index < 16 ==> code_of_256(index) == 90 + (index - 8),
{
}

/// A place of the cube falls onto the color that has a channel where the place
/// has more than half of it: red counts one, green two and blue four. It is
/// bright where a channel is full.
pub proof fn cube_colors_fall_onto_basic_colors(r: u8, g: u8, b: u8)
    requires
        r <= 5,
        g <= 5,
        b <= 5,
    ensures
        ({
            let code = code_of_256((16 + 36 * r + 6 * g + b) as u8) as int;
            let bright = r == 5 || g == 5 || b == 5;
            let base = if bright {
                code - 90
            } else {
                code - 30
            };
            &&& 0 <= base < 8
            &&& base % 2 == 1 <==> r >= 3
            &&& base / 2 % 2 == 1 <==> g >= 3
            &&& base / 4 == 1 <==> b >= 3
        }),
{
    let code = (16 + 36 * r + 6 * g + b) as u8;
    assert((code - 16) / 36 == r);
    assert((code - 16) % 36 / 6 == g);
    assert((code - 16) % 36 % 6 == b);
}

/// The dark half of the grey ramp falls onto black, the bright half onto white.
pub proof fn greys_fall_onto_black_and_white(code: u8)
    requires
        code >= 232,
    ensures
        code_of_256(code) == if code < 244 {
            30u8
        } else {
            37u8
        },
{
}

/// Colors that have a name keep it at the smallest palette: pure red, green,
/// blue, their mixtures, black and white.
pub proof fn pure_colors_keep_their_name()
    ensures
        code_of_256(nearest_256(0, 0, 0)) == 30,
        code_of_256(nearest_256(255, 0, 0)) == 91,
        code_of_256(nearest_256(0, 255, 0)) == 92,
        code_of_256(nearest_256(255, 255, 0)) == 93,
        code_of_256(nearest_256(0, 0, 255)) == 94,
        code_of_256(nearest_256(255, 0, 255)) == 95,
        code_of_256(nearest_256(0, 255, 255)) == 96,
        code_of_256(nearest_256(255, 255, 255)) == 97,
{
}

/// The code of a named color: the dark ones from 30 on and the bright ones
/// from 90 on, in the order black, red, green, yellow, blue, magenta, cyan and
/// white.
pub proof fn named_colors_have_their_codes()
    ensures
        foreground_code(palette_index(NamedColor::Black)) == 30,
        foreground_code(palette_index(NamedColor::Red)) == 31,
        foreground_code(palette_index(NamedColor::Green)) == 32,
        foreground_code(palette_index(NamedColor::Yellow)) == 33,
        foreground_code(palette_index(NamedColor::Blue)) == 34,
        foreground_code(palette_index(NamedColor::Magenta)) == 35,
        foreground_code(palette_index(NamedColor::Cyan)) == 36,
        foreground_code(palette_index(NamedColor::White)) == 37,
        foreground_code(palette_index(NamedColor::BlackBright)) == 90,
        foreground_code(palette_index(NamedColor::RedBright)) == 91,
        foreground_code(palette_index(NamedColor::GreenBright)) == 92,
        foreground_code(palette_index(NamedColor::YellowBright)) == 93,
        foreground_code(palette_index(NamedColor::BlueBright)) == 94,
        foreground_code(palette_index(NamedColor::MagentaBright)) == 95,
        foreground_code(palette_index(NamedColor::CyanBright)) == 96,
        foreground_code(palette_index(NamedColor::WhiteBright)) == 97,
{
}

/// The hexadecimal digit, in lower case, of a number below sixteen.
pub open spec fn hex_char(n: int) -> char {
    if n < 10 {
        ('0' as u32 + n) as char
    } else {
        ('a' as u32 + (n - 10)) as char
    }
}

/// The two digits of a channel.
pub open spec fn hex_of(c: u8) -> Seq<char> {
    seq![hex_char(c as int / 16), hex_char(c as int % 16)]
}

/// A color is read back from its six digits, with or without a mark before
/// them and whatever follows.
pub proof fn hex_colors_are_read_back(r: u8, g: u8, b: u8, rest: Seq<char>)
    ensures
        hex_color(hex_of(r) + hex_of(g) + hex_of(b) + rest) == (r, g, b),
        hex_color(seq!['#'] + hex_of(r) + hex_of(g) + hex_of(b) + rest) == (r, g, b),
{
    let bare = hex_of(r) + hex_of(g) + hex_of(b) + rest;
    let marked = seq!['#'] + hex_of(r) + hex_of(g) + hex_of(b) + rest;
    assert forall|j: int| 0 <= j < 6 implies chars::hex_digit(#[trigger] bare[j]) && marked[j + 1]
        == bare[j] by {}
    assert(hex_run(bare, 0, 3));
    assert(hex_run(bare, 0, 6));
    assert forall|j: int| 1 <= j < 7 implies chars::hex_digit(#[trigger] marked[j]) by {
        assert(chars::hex_digit(bare[j - 1]) && marked[j - 1 + 1] == bare[j - 1]);
    }
    assert(!chars::hex_digit(marked[0]));
    assert(!hex_run(marked, 0, 3));
    assert(hex_run(marked, 1, 3));
    assert(hex_run(marked, 1, 6));
    reveal_with_fuel(hex_start, 3);
    assert(hex_start(bare, 0) == 0);
    assert(hex_start(marked, 0) == 1);
}

/// A color of three digits is that of the six in which each of them is
/// doubled.
pub proof fn short_hex_colors_are_doubled(r: char, g: char, b: char)
    requires
        chars::hex_digit(r),
        chars::hex_digit(g),
        chars::hex_digit(b),
    ensures
        hex_color(seq!['#', r, g, b]) == hex_color(seq!['#', r, r, g, g, b, b]),
        hex_color(seq![r, g, b]) == hex_color(seq![r, r, g, g, b, b]),
{
    reveal_with_fuel(hex_start, 3);
    let short = seq!['#', r, g, b];
    let long = seq!['#', r, r, g, g, b, b];
    assert(!chars::hex_digit(short[0]));
    assert(!chars::hex_digit(long[0]));
    assert(!hex_run(short, 0, 3));
    assert(!hex_run(long, 0, 3));
    assert(hex_run(short, 1, 3));
    assert(hex_run(long, 1, 3));
    assert(hex_run(long, 1, 6));
    assert(!hex_run(short, 1, 6));
    let bare = seq![r, g, b];
    let doubled = seq![r, r, g, g, b, b];
    assert(hex_run(bare, 0, 3));
    assert(!hex_run(bare, 0, 6));
    assert(hex_run(doubled, 0, 3));
    assert(hex_run(doubled, 0, 6));
}

/// Text without three hexadecimal digits in a row is black.
pub proof fn texts_without_a_color_are_black(s: Seq<char>)
    requires
        forall|i: int| !(#[trigger] hex_run(s, i, 3)),
    ensures
        hex_color(s) == (0u8, 0u8, 0u8),
{
    no_run_no_start(s, 0);
}

/// Where no run is, none begins.
proof fn no_run_no_start(s: Seq<char>, from: int)
    requires
        forall|i: int| !(#[trigger] hex_run(s, i, 3)),
    ensures
        hex_start(s, from) == s.len(),
    decreases s.len() - from,
{
    if 0 <= from < s.len() {
        no_run_no_start(s, from + 1);
    }
}

/// A run of three digits that is no run of six is a color of three digits,
/// whatever follows it.
pub proof fn runs_of_less_than_six_digits_are_short(r: char, g: char, b: char, rest: Seq<char>)
    requires
        chars::hex_digit(r),
        chars::hex_digit(g),
        chars::hex_digit(b),
        rest.len() < 3 || !chars::hex_digit(rest[0]) || !chars::hex_digit(rest[1])
            || !chars::hex_digit(rest[2]),
    ensures
        hex_color(seq![r, g, b] + rest) == hex_color(seq![r, r, g, g, b, b]),
{
    let s = seq![r, g, b] + rest;
    let doubled = seq![r, r, g, g, b, b];
    assert(hex_run(s, 0, 3));
    assert(!hex_run(s, 0, 6)) by {
        if hex_run(s, 0, 6) {
            assert(chars::hex_digit(s[3]) && s[3] == rest[0]);
            assert(chars::hex_digit(s[4]) && s[4] == rest[1]);
            assert(chars::hex_digit(s[5]) && s[5] == rest[2]);
        }
    }
    assert(hex_run(doubled, 0, 3));
    assert(hex_run(doubled, 0, 6));
}

} // verus!
