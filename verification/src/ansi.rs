//! The escape sequences that a terminal understands: styles, colors,
//! hyperlinks, titles and the clipboard.
pub mod laws;

use crate::base64;
use crate::base64::base64_encode;
use crate::chalk::level::{stdout_level, ColorLevel, Levels};
use crate::chalk::styles;
use crate::chalk::{ansi256_to_ansi, rgb_to_ansi, rgb_to_ansi256};
use crate::chars;
use crate::chars::{
    all_digits, chars_of, code_of, contains, is_control, join_with, push_char, read_digits,
    replace_part, same, slice,
};
use crate::env;
use crate::env::{Env, EnvMap};
use crate::style::Color;
use vstd::prelude::*;

verus! {

/// Appends the sequence that resets all styles.
pub fn sgr_reset(w: &mut String)
    ensures
        final(w)@ == old(w)@ + "\u{1b}[0m"@,
{
    w.append("\u{1b}[0m");
}

/// Appends the sequence that erases the rest of the line.
pub fn erase_to_eol(w: &mut String)
    ensures
        final(w)@ == old(w)@ + "\u{1b}[K"@,
{
    w.append("\u{1b}[K");
}

/// A text attribute.
#[derive(Clone, Copy, Debug, PartialEq, Eq, Structural)]
pub enum Attribute {
    Reset,
    Bold,
    Dim,
    Italic,
    Underlined,
    DoubleUnderlined,
    Undercurled,
    Underdotted,
    Underdashed,
    SlowBlink,
    RapidBlink,
    Reverse,
    Hidden,
    CrossedOut,
    Fraktur,
    NoBold,
    NormalIntensity,
    NoItalic,
    NoUnderline,
    NoBlink,
    NoReverse,
    NoHidden,
    NotCrossedOut,
    Framed,
    Encircled,
    OverLined,
    NotFramedOrEncircled,
    NotOverLined,
}

/// The place of an attribute in the list of all attributes.
pub open spec fn attribute_index(attr: Attribute) -> int {
    match attr {
        Attribute::Reset => 0,
        Attribute::Bold => 1,
        Attribute::Dim => 2,
        Attribute::Italic => 3,
        Attribute::Underlined => 4,
        Attribute::DoubleUnderlined => 5,
        Attribute::Undercurled => 6,
        Attribute::Underdotted => 7,
        Attribute::Underdashed => 8,
        Attribute::SlowBlink => 9,
        Attribute::RapidBlink => 10,
        Attribute::Reverse => 11,
        Attribute::Hidden => 12,
        Attribute::CrossedOut => 13,
        Attribute::Fraktur => 14,
        Attribute::NoBold => 15,
        Attribute::NormalIntensity => 16,
        Attribute::NoItalic => 17,
        Attribute::NoUnderline => 18,
        Attribute::NoBlink => 19,
        Attribute::NoReverse => 20,
        Attribute::NoHidden => 21,
        Attribute::NotCrossedOut => 22,
        Attribute::Framed => 23,
        Attribute::Encircled => 24,
        Attribute::OverLined => 25,
        Attribute::NotFramedOrEncircled => 26,
        Attribute::NotOverLined => 27,
    }
}

impl Attribute {
    /// The place of the attribute in the list of all attributes.
    pub fn index(self) -> (r: usize)
        ensures
            r == attribute_index(self),
            r < 28,
    {
        match self {
            Attribute::Reset => 0,
            Attribute::Bold => 1,
            Attribute::Dim => 2,
            Attribute::Italic => 3,
            Attribute::Underlined => 4,
            Attribute::DoubleUnderlined => 5,
            Attribute::Undercurled => 6,
            Attribute::Underdotted => 7,
            Attribute::Underdashed => 8,
            Attribute::SlowBlink => 9,
            Attribute::RapidBlink => 10,
            Attribute::Reverse => 11,
            Attribute::Hidden => 12,
            Attribute::CrossedOut => 13,
            Attribute::Fraktur => 14,
            Attribute::NoBold => 15,
            Attribute::NormalIntensity => 16,
            Attribute::NoItalic => 17,
            Attribute::NoUnderline => 18,
            Attribute::NoBlink => 19,
            Attribute::NoReverse => 20,
            Attribute::NoHidden => 21,
            Attribute::NotCrossedOut => 22,
            Attribute::Framed => 23,
            Attribute::Encircled => 24,
            Attribute::OverLined => 25,
            Attribute::NotFramedOrEncircled => 26,
            Attribute::NotOverLined => 27,
        }
    }
}

/// The numbers of the attributes, in the order of the attribute list.
pub open spec fn attribute_codes() -> Seq<nat> {
    seq![
        0nat, 1, 2, 3, 4, 2, 3, 4, 5, 5, 6, 7, 8, 9, 20, 21, 22, 23, 24, 25, 27, 28, 29, 51, 52,
        53, 54, 55,
    ]
}

/// The parameter that selects the attribute at place `index` of the attribute
/// list: its number. The four forms of an underline are variants of the
/// underline.
pub open spec fn attribute_parameter(index: int) -> Seq<char> {
    let number = chars::decimal(attribute_codes()[index]);
    if 5 <= index <= 8 {
        "4:"@ + number
    } else {
        number
    }
}

/// The parameter that selects an attribute, from
/// `crossterm::style::Attribute::sgr`. The attribute is named by its place in
/// `Attribute::iterator`, which lists the 28 attributes in the order of their
/// declaration. The contract claims that the parameter is the number of the
/// attribute in decimal, behind `4:` for the four forms of an underline.
#[verifier::external_body]
fn attribute_sgr(index: usize) -> (r: String)
    requires
        index < 28,
    ensures
        r@ == attribute_parameter(index as int),
{
    let attribute = crossterm::style::Attribute::iterator().nth(index);
    attribute.unwrap().sgr()
}

/// Appends the sequence that selects an attribute.
pub fn sgr_attr(w: &mut String, attr: Attribute)
    ensures
        final(w)@ == old(w)@ + styles::sgr(attribute_parameter(attribute_index(attr))),
{
    let parameter = attribute_sgr(attr.index());
    w.append("\u{1b}[");
    w.append(parameter.as_str());
    w.append("m");
    assert(w@ =~= old(w)@ + styles::sgr(parameter@));
}

/// What gets a color.
#[derive(Clone, Copy, Debug, PartialEq, Eq, Structural)]
pub enum ColorChannel {
    Foreground,
    Background,
    Underline,
}

/// The code that restores the default color of a channel.
pub open spec fn channel_close(channel: ColorChannel) -> u8 {
    match channel {
        ColorChannel::Foreground => 39,
        ColorChannel::Background => 49,
        ColorChannel::Underline => 59,
    }
}

/// The code that introduces a palette color or a truecolor for a channel.
pub open spec fn channel_target(channel: ColorChannel) -> int {
    match channel {
        ColorChannel::Foreground => 38,
        ColorChannel::Background => 48,
        ColorChannel::Underline => 58,
    }
}

impl ColorChannel {
    /// The code that restores the default color.
    pub fn close_code(self) -> (r: u8)
        ensures
            r == channel_close(self),
    {
        match self {
            ColorChannel::Foreground => 39,
            ColorChannel::Background => 49,
            ColorChannel::Underline => 59,
        }
    }
}

/// The color level that output is encoded at: that of standard output where
/// it is a terminal, else full fidelity.
pub fn render_color_level(levels: &Levels, stdout_is_tty: bool) -> (r: ColorLevel)
    ensures
        r == if stdout_is_tty {
            levels.stdout()
        } else {
            3
        },
        r <= 3,
{
    if stdout_is_tty {
        stdout_level(levels)
    } else {
        3
    }
}

/// Whether any styling is emitted at all.
pub fn styles_enabled(levels: &Levels, stdout_is_tty: bool) -> (r: bool)
    ensures
        r == (!stdout_is_tty || levels.stdout() != 0),
{
    render_color_level(levels, stdout_is_tty) != 0
}

/// The place of a named color in the 16-color palette.
pub open spec fn named_index(color: Color) -> Option<u8> {
    match color {
        Color::Black => Some(0u8),
        Color::DarkRed => Some(1u8),
        Color::DarkGreen => Some(2u8),
        Color::DarkYellow => Some(3u8),
        Color::DarkBlue => Some(4u8),
        Color::DarkMagenta => Some(5u8),
        Color::DarkCyan => Some(6u8),
        Color::Grey => Some(7u8),
        Color::DarkGrey => Some(8u8),
        Color::Red => Some(9u8),
        Color::Green => Some(10u8),
        Color::Yellow => Some(11u8),
        Color::Blue => Some(12u8),
        Color::Magenta => Some(13u8),
        Color::Cyan => Some(14u8),
        Color::White => Some(15u8),
        _ => None,
    }
}

/// The sequence of a 16-color foreground code on a channel. An underline
/// takes the color by its place in the palette.
pub open spec fn basic_sequence(code: u8, channel: ColorChannel) -> Seq<char> {
    match channel {
        ColorChannel::Foreground => styles::sgr_code(code as int),
        ColorChannel::Background => styles::sgr_code(code + 10),
        ColorChannel::Underline => styles::sgr_underline(code),
    }
}

/// The sequence of a color on a channel at a color level: the color itself
/// where the level has it, else the nearest that it has. Level 0 has none.
pub open spec fn color_sequence(color: Color, channel: ColorChannel, level: ColorLevel) -> Seq<
    char,
> {
    if level == 0 {
        Seq::empty()
    } else {
        match color {
            Color::Reset => styles::sgr_code(channel_close(channel) as int),
            Color::Rgb { r, g, b } => if level == 3 {
                styles::sgr_rgb(channel_target(channel), r, g, b)
            } else if level == 2 {
                styles::sgr_palette(channel_target(channel), styles::nearest_256(r, g, b))
            } else {
                basic_sequence(styles::code_of_256(styles::nearest_256(r, g, b)), channel)
            },
            Color::AnsiValue(code) => if level >= 2 {
                styles::sgr_palette(channel_target(channel), code)
            } else {
                basic_sequence(styles::code_of_256(code), channel)
            },
            named => basic_sequence(styles::foreground_code(named_index(named)->0), channel),
        }
    }
}

/// Appends the sequence of a foreground color.
pub fn sgr_fg(w: &mut String, color: Color, level: ColorLevel)
    ensures
        final(w)@ == old(w)@ + color_sequence(color, ColorChannel::Foreground, level),
{
    sgr_color(w, color, ColorChannel::Foreground, level)
}

/// Appends the sequence of a background color.
pub fn sgr_bg(w: &mut String, color: Color, level: ColorLevel)
    ensures
        final(w)@ == old(w)@ + color_sequence(color, ColorChannel::Background, level),
{
    sgr_color(w, color, ColorChannel::Background, level)
}

/// Appends the sequence of an underline color.
pub fn sgr_underline_color(w: &mut String, color: Color, level: ColorLevel)
    ensures
        final(w)@ == old(w)@ + color_sequence(color, ColorChannel::Underline, level),
{
    sgr_color(w, color, ColorChannel::Underline, level)
}

/// Appends the sequence of a color on a channel, downgraded to what the level
/// has. Level 0 appends nothing.
pub fn sgr_color(w: &mut String, color: Color, channel: ColorChannel, level: ColorLevel)
    ensures
        final(w)@ == old(w)@ + color_sequence(color, channel, level),
{
    if level == 0 {
        assert(w@ =~= old(w)@ + Seq::<char>::empty());
        return ;
    }
    match color {
        Color::Reset => write_code(w, channel.close_code()),
        Color::Rgb { r, g, b } => match level {
            3 => write_rgb(w, r, g, b, channel),
            2 => write_ansi256(w, rgb_to_ansi256(r, g, b), channel),
            _ => write_ansi16(w, rgb_to_ansi(r, g, b), channel),
        },
        Color::AnsiValue(code) => {
            if level >= 2 {
                write_ansi256(w, code, channel)
            } else {
                write_ansi16(w, ansi256_to_ansi(code), channel)
            }
        },
        named => {
            if let Some(code) = ansi16_code(named) {
                write_ansi16(w, code, channel)
            }
        },
    }
}

/// The foreground code of a named color.
pub fn ansi16_code(color: Color) -> (r: Option<u8>)
    ensures
        r == match named_index(color) {
            Some(index) => Some(styles::foreground_code(index)),
            None => None,
        },
        r matches Some(code) ==> styles::is_foreground_code(code),
{
    match color {
        Color::Black => Some(30),
        Color::DarkRed => Some(31),
        Color::DarkGreen => Some(32),
        Color::DarkYellow => Some(33),
        Color::DarkBlue => Some(34),
        Color::DarkMagenta => Some(35),
        Color::DarkCyan => Some(36),
        Color::Grey => Some(37),
        Color::DarkGrey => Some(90),
        Color::Red => Some(91),
        Color::Green => Some(92),
        Color::Yellow => Some(93),
        Color::Blue => Some(94),
        Color::Magenta => Some(95),
        Color::Cyan => Some(96),
        Color::White => Some(97),
        _ => None,
    }
}

/// Appends the sequence of a single code.
fn write_code(w: &mut String, code: u8)
    ensures
        final(w)@ == old(w)@ + styles::sgr_code(code as int),
{
    let sequence = styles::wrap_ansi16(code, 0);
    w.append(sequence.as_str());
}

/// What moves the foreground target to that of a channel.
fn target_offset(channel: ColorChannel) -> (r: u8)
    ensures
        38 + r == channel_target(channel),
        r <= 20,
{
    match channel {
        ColorChannel::Foreground => 0,
        ColorChannel::Background => styles::ANSI_BACKGROUND_OFFSET,
        ColorChannel::Underline => styles::ANSI_UNDERLINE_OFFSET,
    }
}

/// Appends the sequence of a truecolor on a channel.
fn write_rgb(w: &mut String, r: u8, g: u8, b: u8, channel: ColorChannel)
    ensures
        final(w)@ == old(w)@ + styles::sgr_rgb(channel_target(channel), r, g, b),
{
    let sequence = styles::wrap_ansi16m(r, g, b, target_offset(channel));
    w.append(sequence.as_str());
}

/// Appends the sequence of a 256-color on a channel.
pub fn write_ansi256(w: &mut String, code: u8, channel: ColorChannel)
    ensures
        final(w)@ == old(w)@ + styles::sgr_palette(channel_target(channel), code),
{
    let sequence = styles::wrap_ansi256(code, target_offset(channel));
    w.append(sequence.as_str());
}

/// Appends the sequence of a 16-color foreground code on a channel.
pub fn write_ansi16(w: &mut String, code: u8, channel: ColorChannel)
    requires
        styles::is_foreground_code(code),
    ensures
        final(w)@ == old(w)@ + basic_sequence(code, channel),
{
    match channel {
        ColorChannel::Foreground => write_code(w, code),
        ColorChannel::Background => write_code(w, code + 10),
        ColorChannel::Underline => {
            let sequence = styles::wrap_underline_ansi(code);
            w.append(sequence.as_str());
        },
    }
}

/// A text without its control characters.
pub open spec fn without_controls(s: Seq<char>) -> Seq<char> {
    chars::keep(s, |c: char| !chars::control(c))
}

/// The target of a hyperlink without its control characters.
pub fn sanitize_hyperlink_href(href: &str) -> (r: String)
    ensures
        r@ == without_controls(href@),
{
    let s = chars_of(href);
    let mut out = String::new();
    let mut i: usize = 0;
    assert(out@ =~= without_controls(s@.take(0)));
    while i < s.len()
        invariant
            s@ == href@,
            i <= s@.len(),
            out@ == without_controls(s@.take(i as int)),
        decreases s@.len() - i,
    {
        proof {
            chars::keep_step(s@, |c: char| !chars::control(c), i as int);
        }
        if !is_control(s[i]) {
            push_char(&mut out, s[i]);
        }
        i = i + 1;
    }
    assert(s@.take(i as int) =~= s@);
    out
}

/// The digits of `n` in base 36, lower case and without leading zeros.
pub open spec fn base36(n: nat) -> Seq<char>
    decreases n,
{
    if n < 36 {
        seq![base36_digit(n as int)]
    } else {
        base36(n / 36).push(base36_digit(n as int % 36))
    }
}

/// One digit in base 36.
pub open spec fn base36_digit(n: int) -> char {
    if n < 10 {
        ('0' as u32 + n) as char
    } else {
        ('a' as u32 + (n - 10)) as char
    }
}

/// The digits of a number in base 36.
pub fn base36_u32(value: u32) -> (r: String)
    ensures
        r@ == base36(value as nat),
    decreases value,
{
    let digit: u8 = (value % 36) as u8;
    let c = if digit < 10 {
        ('0' as u8 + digit) as char
    } else {
        ('a' as u8 + (digit - 10)) as char
    };
    let mut out = if value < 36 {
        String::new()
    } else {
        base36_u32(value / 36)
    };
    push_char(&mut out, c);
    assert(out@ =~= base36(value as nat));
    out
}

/// The hash of a text: the number with the characters as digits in base 31,
/// kept to 32 bits.
pub open spec fn link_hash(s: Seq<char>) -> int
    decreases s.len(),
{
    if s.len() == 0 {
        0
    } else {
        (31 * link_hash(s.drop_last()) + s.last() as int) % 0x1_0000_0000
    }
}

/// The identifier of a hyperlink: the hash of its target in base 36.
pub open spec fn link_id(url: Seq<char>) -> Seq<char> {
    base36(link_hash(url) as nat)
}

/// The identifier of a hyperlink. It joins the parts of a link that stands on
/// several lines.
pub fn osc8_id(url: &str) -> (r: String)
    ensures
        r@ == link_id(url@),
{
    let s = chars_of(url);
    let mut hash: u32 = 0;
    let mut i: usize = 0;
    while i < s.len()
        invariant
            s@ == url@,
            i <= s@.len(),
            hash == link_hash(s@.take(i as int)),
        decreases s@.len() - i,
    {
        proof {
            assert(s@.take(i + 1).drop_last() =~= s@.take(i as int));
        }
        let code: u32 = code_of(s[i]);
        hash = ((hash as u64 * 31 + code as u64) % 0x1_0000_0000) as u32;
        i = i + 1;
    }
    assert(s@.take(i as int) =~= s@);
    base36_u32(hash)
}

/// The terminals that show hyperlinks though they are not known for it.
pub open spec fn additional_hyperlink_terminal(term: Seq<char>) -> bool {
    ||| term == "ghostty"@
    ||| term == "Hyper"@
    ||| term == "kitty"@
    ||| term == "alacritty"@
    ||| term == "iTerm.app"@
    ||| term == "iTerm2"@
}

/// Whether a terminal is one of the additional ones.
fn is_additional_hyperlink_terminal(term: &str) -> (r: bool)
    ensures
        r == additional_hyperlink_terminal(term@),
{
    same(term, "ghostty") || same(term, "Hyper") || same(term, "kitty") || same(
        term,
        "alacritty",
    ) || same(term, "iTerm.app") || same(term, "iTerm2")
}

/// Whether hyperlinks are shown: standard output is known to show them, or the
/// environment names a terminal that does.
pub open spec fn hyperlinks_shown(vars: EnvMap, stdout_supported: bool) -> bool {
    ||| stdout_supported
    ||| env::var(vars, "TERM_PROGRAM"@) matches Some(term) && additional_hyperlink_terminal(term)
    ||| env::var(vars, "LC_TERMINAL"@) matches Some(term) && additional_hyperlink_terminal(term)
    ||| env::var(vars, "TERM"@) matches Some(term) && chars::occurs_in(term, "kitty"@)
}

/// Whether a variable names a terminal of the additional list.
fn names_additional_terminal(env: &Env, name: &str) -> (r: bool)
    ensures
        r == (env::var(env@, name@) matches Some(term) && additional_hyperlink_terminal(term)),
{
    match env.get(name) {
        Some(term) => is_additional_hyperlink_terminal(term.as_str()),
        None => false,
    }
}

/// Whether `TERM` names a kitty terminal.
fn term_is_kitty(env: &Env) -> (r: bool)
    ensures
        r == (env::var(env@, "TERM"@) matches Some(term) && chars::occurs_in(term, "kitty"@)),
{
    match env.get("TERM") {
        Some(term) => contains(&chars_of(term.as_str()), "kitty"),
        None => false,
    }
}

/// Whether hyperlinks are shown, given whether standard output is known to
/// show them.
pub fn supports_hyperlinks_with_env(env: &Env, stdout_supported: bool) -> (r: bool)
    ensures
        r == hyperlinks_shown(env@, stdout_supported),
{
    if stdout_supported {
        return true;
    }
    if names_additional_terminal(env, "TERM_PROGRAM") {
        return true;
    }
    if names_additional_terminal(env, "LC_TERMINAL") {
        return true;
    }
    term_is_kitty(env)
}

/// The number that a text of digits, with or without a plus sign, stands for,
/// where it fits in 32 bits.
pub open spec fn parsed_u32(s: Seq<char>) -> Option<u32> {
    let digits = if s.len() > 0 && s[0] == '+' {
        s.skip(1)
    } else {
        s
    };
    if digits.len() > 0 && chars::all_in(digits, |c: char| chars::digit(c)) && chars::number(digits)
        <= u32::MAX {
        Some(chars::number(digits) as u32)
    } else {
        None
    }
}

/// Reads a number of 32 bits.
fn parse_u32(text: &str) -> (r: Option<u32>)
    ensures
        r == parsed_u32(text@),
{
    let s = chars_of(text);
    let from: usize = if s.len() > 0 && s[0] == '+' {
        1
    } else {
        0
    };
    let digits = slice(&s, from, s.len());
    assert(digits@ =~= if text@.len() > 0 && text@[0] == '+' {
        text@.skip(1)
    } else {
        text@
    });
    if digits.len() == 0 || !all_digits(&digits) {
        return None;
    }
    assert(digits@.subrange(0, digits@.len() as int) =~= digits@);
    proof {
        chars::number_bounds(digits@);
    }
    let n: u64 = read_digits(&digits, 0, digits.len());
    if n <= 0xffff_ffff {
        Some(n as u32)
    } else {
        None
    }
}

/// Whether standard output is known to show hyperlinks: they are forced, or it
/// is a terminal that names itself by one of the variables read here.
pub open spec fn stdout_shows_hyperlinks(vars: EnvMap, tty: bool) -> bool {
    ||| env::var(vars, "FORCE_HYPERLINK"@) matches Some(value) && value != "0"@
    ||| env::var(vars, "NETLIFY"@) matches Some(value) && value.len() > 0
    ||| tty && {
        ||| env::is_set(vars, "WT_SESSION"@)
        ||| env::var(vars, "TERM_PROGRAM"@) matches Some(term) && (term == "iTerm.app"@ || term
            == "WezTerm"@ || term == "vscode"@ || term == "ghostty"@ || term == "zed"@)
        ||| env::var(vars, "TERM"@) matches Some(term) && (term == "alacritty"@ || term
            == "xterm-kitty"@)
        ||| env::var(vars, "VTE_VERSION"@) matches Some(value) && (parsed_u32(
            value,
        ) matches Some(version) && version >= 5000)
    }
}

/// Whether standard output is known to show hyperlinks.
pub fn supports_hyperlinks_base_stdout(env: &Env, stdout_is_tty: bool) -> (r: bool)
    ensures
        r == stdout_shows_hyperlinks(env@, stdout_is_tty),
{
    if let Some(value) = env.get("FORCE_HYPERLINK") {
        if !same(value.as_str(), "0") {
            return true;
        }
    }
    if let Some(value) = env.get("NETLIFY") {
        if !value.as_str().is_empty() {
            return true;
        }
    }
    if !stdout_is_tty {
        return false;
    }
    if env.contains("WT_SESSION") {
        return true;
    }
    if let Some(term) = env.get("TERM_PROGRAM") {
        let term = term.as_str();
        if same(term, "iTerm.app") || same(term, "WezTerm") || same(term, "vscode") || same(
            term,
            "ghostty",
        ) || same(term, "zed") {
            return true;
        }
    }
    if let Some(term) = env.get("TERM") {
        if same(term.as_str(), "alacritty") || same(term.as_str(), "xterm-kitty") {
            return true;
        }
    }
    match env.get("VTE_VERSION") {
        Some(value) => match parse_u32(value.as_str()) {
            Some(version) => version >= 5000,
            None => false,
        },
        None => false,
    }
}

/// Whether standard output should be given hyperlinks.
pub fn supports_hyperlinks(env: &Env, stdout_is_tty: bool) -> (r: bool)
    ensures
        r == hyperlinks_shown(env@, stdout_shows_hyperlinks(env@, stdout_is_tty)),
{
    supports_hyperlinks_with_env(env, supports_hyperlinks_base_stdout(env, stdout_is_tty))
}

/// The sequence that opens a hyperlink.
pub open spec fn link_open(href: Seq<char>) -> Seq<char> {
    let target = without_controls(href);
    "\u{1b}]8;id="@ + link_id(target) + ";"@ + target + "\u{1b}\\"@
}

/// Appends the sequence that opens a hyperlink.
pub fn hyperlink_open(w: &mut String, href: &str)
    ensures
        final(w)@ == old(w)@ + link_open(href@),
{
    let target = sanitize_hyperlink_href(href);
    let id = osc8_id(target.as_str());
    w.append("\u{1b}]8;id=");
    w.append(id.as_str());
    w.append(";");
    w.append(target.as_str());
    w.append("\u{1b}\\");
    assert(w@ =~= old(w)@ + link_open(href@));
}

/// Appends the sequence that closes a hyperlink.
pub fn hyperlink_close(w: &mut String)
    ensures
        final(w)@ == old(w)@ + "\u{1b}]8;;\u{1b}\\"@,
{
    w.append("\u{1b}]8;;\u{1b}\\");
}

/// How an escape sequence is passed through a terminal multiplexer.
#[derive(Clone, Copy, Debug, PartialEq, Eq, Structural)]
pub enum MultiplexerPassthrough {
    /// As it is.
    Direct,
    /// Wrapped for tmux, with its escape characters doubled.
    Tmux,
    /// Wrapped for GNU screen.
    Screen,
}

/// A sequence wrapped for a multiplexer.
pub open spec fn wrapped_for(
    sequence: Seq<char>,
    multiplexer: MultiplexerPassthrough,
) -> Seq<char> {
    match multiplexer {
        MultiplexerPassthrough::Direct => sequence,
        MultiplexerPassthrough::Tmux => "\u{1b}Ptmux;"@ + chars::replace_all(
            sequence,
            "\u{1b}"@,
            "\u{1b}\u{1b}"@,
        ) + "\u{1b}\\"@,
        MultiplexerPassthrough::Screen => "\u{1b}P"@ + sequence + "\u{1b}\\"@,
    }
}

/// Wraps an escape sequence for a multiplexer. The escape characters inside
/// are doubled for tmux only; a bell inside is left as it is.
pub fn wrap_for_multiplexer_sequence(
    sequence: &str,
    multiplexer: MultiplexerPassthrough,
) -> (r: String)
    ensures
        r@ == wrapped_for(sequence@, multiplexer),
{
    match multiplexer {
        MultiplexerPassthrough::Direct => sequence.to_owned(),
        MultiplexerPassthrough::Tmux => {
            let escaped = replace_part(&chars_of(sequence), &chars_of("\u{1b}"), "\u{1b}\u{1b}");
            let mut out = String::new();
            out.append("\u{1b}Ptmux;");
            out.append(escaped.as_str());
            out.append("\u{1b}\\");
            assert(out@ =~= wrapped_for(sequence@, multiplexer));
            out
        },
        MultiplexerPassthrough::Screen => {
            let mut out = String::new();
            out.append("\u{1b}P");
            out.append(sequence);
            out.append("\u{1b}\\");
            assert(out@ =~= wrapped_for(sequence@, multiplexer));
            out
        },
    }
}

/// The multiplexer that the environment tells of.
pub open spec fn multiplexer_of(vars: EnvMap) -> MultiplexerPassthrough {
    if env::is_set_nonempty(vars, "TMUX"@) {
        MultiplexerPassthrough::Tmux
    } else if env::is_set_nonempty(vars, "STY"@) {
        MultiplexerPassthrough::Screen
    } else {
        MultiplexerPassthrough::Direct
    }
}

/// The multiplexer that the environment tells of.
pub fn current_multiplexer_passthrough(env: &Env) -> (r: MultiplexerPassthrough)
    ensures
        r == multiplexer_of(env@),
{
    if env.contains_nonempty("TMUX") {
        MultiplexerPassthrough::Tmux
    } else if env.contains_nonempty("STY") {
        MultiplexerPassthrough::Screen
    } else {
        MultiplexerPassthrough::Direct
    }
}

/// Wraps an escape sequence for the multiplexer that the environment tells of.
pub fn wrap_for_current_multiplexer_sequence(sequence: &str, env: &Env) -> (r: String)
    ensures
        r@ == wrapped_for(sequence@, multiplexer_of(env@)),
{
    wrap_for_multiplexer_sequence(sequence, current_multiplexer_passthrough(env))
}

/// Whether the environment tells of a kitty terminal.
pub open spec fn is_kitty(vars: EnvMap) -> bool {
    ||| env::is_set(vars, "KITTY_WINDOW_ID"@)
    ||| env::var(vars, "TERM"@) matches Some(term) && chars::occurs_in(term, "kitty"@)
}

/// What ends a command sequence. A kitty terminal would ring at a bell, so it
/// gets the string terminator.
pub open spec fn osc_terminator(kitty: bool) -> Seq<char> {
    if kitty {
        "\u{1b}\\"@
    } else {
        "\u{7}"@
    }
}

/// Builds an operating system command from its parts.
pub fn osc_sequence(parts: &Vec<String>, env: &Env) -> (r: String)
    ensures
        r@ == "\u{1b}]"@ + chars::join(chars::views(parts@), ";"@) + osc_terminator(is_kitty(env@)),
{
    let terminator = if env.contains("KITTY_WINDOW_ID") || term_is_kitty(env) {
        "\u{1b}\\"
    } else {
        "\u{7}"
    };
    let payload = join_with(parts, ";");
    let mut out = String::new();
    out.append("\u{1b}]");
    out.append(payload.as_str());
    out.append(terminator);
    assert(out@ =~= "\u{1b}]"@ + payload@ + terminator@);
    out
}

/// The characters that may stand in the payload of a command.
pub open spec fn payload_char(c: char) -> bool {
    c == '\n' || c == '\t' || !chars::control(c)
}

/// A text without the control characters that could end a command: all but
/// the line feed and the tab.
pub fn sanitize_osc_payload(text: &str) -> (r: String)
    ensures
        r@ == chars::keep(text@, |c: char| payload_char(c)),
{
    let s = chars_of(text);
    let mut out = String::new();
    let mut i: usize = 0;
    assert(out@ =~= chars::keep(s@.take(0), |c: char| payload_char(c)));
    while i < s.len()
        invariant
            s@ == text@,
            i <= s@.len(),
            out@ == chars::keep(s@.take(i as int), |c: char| payload_char(c)),
        decreases s@.len() - i,
    {
        proof {
            chars::keep_step(s@, |c: char| payload_char(c), i as int);
        }
        let c = s[i];
        if c == '\n' || c == '\t' || !is_control(c) {
            push_char(&mut out, c);
        }
        i = i + 1;
    }
    assert(s@.take(i as int) =~= s@);
    out
}

/// The sequence that puts a text on the clipboard.
pub open spec fn clipboard_sequence(text: Seq<char>, kitty: bool) -> Seq<char> {
    "\u{1b}]52;c;"@ + base64::encoded(vstd::utf8::encode_utf8(text)) + osc_terminator(kitty)
}

/// Builds the sequence that puts a text on the clipboard.
pub fn osc52_clipboard_sequence(text: &str) -> (r: String)
    ensures
        r@ == clipboard_sequence(text@, false),
{
    osc52_clipboard_sequence_with_kitty(text, false)
}

/// Builds the sequence that puts a text on the clipboard, for a terminal that
/// is kitty or is not.
pub fn osc52_clipboard_sequence_with_kitty(text: &str, is_kitty: bool) -> (r: String)
    ensures
        r@ == clipboard_sequence(text@, is_kitty),
{
    let payload = base64_encode(text.as_bytes());
    let mut out = String::new();
    out.append("\u{1b}]52;c;");
    out.append(payload.as_str());
    if is_kitty {
        out.append("\u{1b}\\");
    } else {
        out.append("\u{7}");
    }
    assert(out@ =~= clipboard_sequence(text@, is_kitty));
    out
}

/// Builds the sequence that puts a text on the clipboard, wrapped for a
/// multiplexer. Inside the wrapper it always ends with a bell.
pub fn osc52_clipboard_sequence_for_multiplexer(
    text: &str,
    multiplexer: MultiplexerPassthrough,
) -> (r: String)
    ensures
        r@ == wrapped_for(clipboard_sequence(text@, false), multiplexer),
{
    let sequence = osc52_clipboard_sequence(text);
    wrap_for_multiplexer_sequence(sequence.as_str(), multiplexer)
}

/// Appends the sequence that puts a text on the clipboard.
pub fn osc52_clipboard(w: &mut String, text: &str)
    ensures
        final(w)@ == old(w)@ + clipboard_sequence(text@, false),
{
    let sequence = osc52_clipboard_sequence(text);
    w.append(sequence.as_str());
}

/// Appends the sequence that puts a text on the clipboard, wrapped for a
/// multiplexer.
pub fn osc52_clipboard_for_multiplexer(
    w: &mut String,
    text: &str,
    multiplexer: MultiplexerPassthrough,
)
    ensures
        final(w)@ == old(w)@ + wrapped_for(clipboard_sequence(text@, false), multiplexer),
{
    let sequence = osc52_clipboard_sequence_for_multiplexer(text, multiplexer);
    w.append(sequence.as_str());
}

/// Appends the sequence that sets the title of the terminal.
pub fn terminal_title(w: &mut String, title: &str)
    ensures
        final(w)@ == old(w)@ + "\u{1b}]0;"@ + without_controls(title@) + "\u{7}"@,
{
    let title = sanitize_hyperlink_href(title);
    w.append("\u{1b}]0;");
    w.append(title.as_str());
    w.append("\u{7}");
}

} // verus!
