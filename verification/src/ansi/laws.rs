//! What holds of every escape sequence.
use crate::ansi;
use crate::ansi::{ColorChannel, MultiplexerPassthrough};
use crate::base64;
use crate::chalk;
use crate::chalk::level;
use crate::chalk::styles;
use crate::chalk::ColorLevel;
use crate::chars;
use crate::env;
use crate::env::EnvMap;
use crate::style::Color;
use vstd::prelude::*;

verus! {

/// Level 0 emits no color at all.
pub proof fn level_zero_emits_no_color(color: Color, channel: ColorChannel)
    ensures
        ansi::color_sequence(color, channel, 0) == Seq::<char>::empty(),
{
}

/// A color is encoded here as the styler encodes it: truecolors and palette
/// colors are downgraded alike on every channel.
pub proof fn colors_agree_with_the_styler(r: u8, g: u8, b: u8, code: u8, level: ColorLevel)
    requires
        level > 0,
    ensures
        ansi::color_sequence(Color::Rgb { r, g, b }, ColorChannel::Foreground, level)
            == chalk::rgb_open(level, r, g, b, 0),
        ansi::color_sequence(Color::Rgb { r, g, b }, ColorChannel::Background, level)
            == chalk::rgb_open(level, r, g, b, 10),
        ansi::color_sequence(Color::Rgb { r, g, b }, ColorChannel::Underline, level)
            == chalk::underline_rgb_open(level, r, g, b),
        ansi::color_sequence(Color::AnsiValue(code), ColorChannel::Foreground, level)
            == chalk::ansi256_open(level, code, 0),
        ansi::color_sequence(Color::AnsiValue(code), ColorChannel::Background, level)
            == chalk::ansi256_open(level, code, 10),
        ansi::color_sequence(Color::AnsiValue(code), ColorChannel::Underline, level)
            == chalk::underline_ansi256_open(level, code),
{
}

/// A named color has the same sequence at every level that has colors.
pub proof fn named_colors_are_never_downgraded(
    color: Color,
    channel: ColorChannel,
    level: ColorLevel,
)
    requires
        ansi::named_index(color) is Some,
        level > 0,
    ensures
        ansi::color_sequence(color, channel, level) == ansi::basic_sequence(
            styles::foreground_code(ansi::named_index(color)->0),
            channel,
        ),
{
}

/// The characters that are kept are those of the class.
proof fn kept_is_in_class(s: Seq<char>, class: spec_fn(char) -> bool)
    ensures
        chars::all_in(chars::keep(s, class), class),
    decreases s.len(),
{
    if s.len() > 0 {
        kept_is_in_class(s.drop_last(), class);
    }
}

/// A text of the class is kept as it is.
proof fn class_is_kept(s: Seq<char>, class: spec_fn(char) -> bool)
    requires
        chars::all_in(s, class),
    ensures
        chars::keep(s, class) == s,
    decreases s.len(),
{
    if s.len() > 0 {
        assert(class(s[s.len() - 1]));
        assert(chars::all_in(s.drop_last(), class)) by {
            assert forall|i: int| 0 <= i < s.drop_last().len() implies class(
                #[trigger] s.drop_last()[i],
            ) by {
                assert(class(s[i]));
            }
        }
        class_is_kept(s.drop_last(), class);
        assert(s.drop_last().push(s.last()) =~= s);
    } else {
        assert(chars::keep(s, class) =~= s);
    }
}

/// A sanitized link target or title holds no control character, a text
/// without control characters is left as it is, and sanitizing twice is the
/// same as sanitizing once.
pub proof fn sanitizing_removes_controls(s: Seq<char>)
    ensures
        chars::all_in(ansi::without_controls(s), |c: char| !chars::control(c)),
        chars::all_in(s, |c: char| !chars::control(c)) ==> ansi::without_controls(s) == s,
        ansi::without_controls(ansi::without_controls(s)) == ansi::without_controls(s),
{
    let class = |c: char| !chars::control(c);
    kept_is_in_class(s, class);
    class_is_kept(ansi::without_controls(s), class);
    if chars::all_in(s, class) {
        class_is_kept(s, class);
    }
}

/// A sanitized payload holds no character that could end its command, a text
/// without such characters is left as it is, and sanitizing twice is the same
/// as sanitizing once.
pub proof fn payloads_cannot_end_their_command(s: Seq<char>)
    ensures
        ({
            let payload = chars::keep(s, |c: char| ansi::payload_char(c));
            &&& chars::all_in(payload, |c: char| ansi::payload_char(c))
            &&& forall|i: int|
                0 <= i < payload.len() ==> #[trigger] payload[i] != '\u{7}' && payload[i]
                    != '\u{1b}' && payload[i] != '\u{9c}'
            &&& chars::keep(payload, |c: char| ansi::payload_char(c)) == payload
        }),
        chars::all_in(s, |c: char| ansi::payload_char(c)) ==> chars::keep(
            s,
            |c: char| ansi::payload_char(c),
        ) == s,
{
    let class = |c: char| ansi::payload_char(c);
    let payload = chars::keep(s, class);
    kept_is_in_class(s, class);
    class_is_kept(payload, class);
    assert forall|i: int| 0 <= i < payload.len() implies #[trigger] payload[i] != '\u{7}'
        && payload[i] != '\u{1b}' && payload[i] != '\u{9c}' by {
        assert(class(payload[i]));
    }
    if chars::all_in(s, class) {
        class_is_kept(s, class);
    }
}

/// The identifier of a link is made of letters and digits.
proof fn base36_is_plain(n: nat)
    ensures
        ansi::base36(n).len() > 0,
        chars::all_in(ansi::base36(n), |c: char| !chars::control(c)),
    decreases n,
{
    if n >= 36 {
        base36_is_plain(n / 36);
    }
}

/// A link target cannot end its sequence: between the escape character that
/// opens the sequence and the one that ends it there is no control character.
pub proof fn link_targets_cannot_end_their_sequence(href: Seq<char>)
    ensures
        ({
            let sequence = ansi::link_open(href);
            let n = sequence.len();
            &&& n >= 2
            &&& sequence[0] == '\u{1b}'
            &&& sequence[n - 2] == '\u{1b}'
            &&& sequence[n - 1] == '\\'
            &&& forall|i: int| 0 < i < n - 2 ==> !chars::control(#[trigger] sequence[i])
        }),
{
    reveal_strlit("\u{1b}]8;id=");
    reveal_strlit(";");
    reveal_strlit("\u{1b}\\");
    let target = ansi::without_controls(href);
    let id = ansi::link_id(target);
    let head = "\u{1b}]8;id="@;
    sanitizing_removes_controls(href);
    base36_is_plain(ansi::link_hash(target) as nat);
    let sequence = ansi::link_open(href);
    let n = sequence.len();
    assert(head.len() == 7);
    assert forall|i: int| 0 < i < n - 2 implies !chars::control(#[trigger] sequence[i]) by {
        if i < 7 {
            assert(sequence[i] == head[i]);
        } else if i < 7 + id.len() {
            assert(sequence[i] == id[i - 7]);
            assert(!chars::control(id[i - 7]));
        } else if i == 7 + id.len() {
            assert(sequence[i] == ';');
        } else {
            assert(sequence[i] == target[i - 8 - id.len()]);
            assert(!chars::control(target[i - 8 - id.len()]));
        }
    }
}

/// The hash of a link target fits in 32 bits.
pub proof fn link_hash_fits(s: Seq<char>)
    ensures
        0 <= ansi::link_hash(s) < 0x1_0000_0000,
    decreases s.len(),
{
    if s.len() > 0 {
        link_hash_fits(s.drop_last());
    }
}

/// What is written to the clipboard is the text: its payload decodes to the
/// bytes of the text, and these to the text. The payload cannot end its
/// sequence.
pub proof fn clipboard_payload_is_the_text(text: Seq<char>)
    ensures
        base64::decoded(base64::encoded(vstd::utf8::encode_utf8(text))) == vstd::utf8::encode_utf8(
            text,
        ),
        vstd::utf8::decode_utf8(
            base64::decoded(base64::encoded(vstd::utf8::encode_utf8(text))),
        ) == text,
        chars::all_in(
            base64::encoded(vstd::utf8::encode_utf8(text)),
            |c: char| !chars::control(c),
        ),
{
    let bytes = vstd::utf8::encode_utf8(text);
    base64::decoding_undoes_encoding(bytes);
    base64::encoded_is_in_alphabet(bytes);
    vstd::utf8::encode_utf8_decode_utf8(text);
    assert forall|i: int| 0 <= i < base64::encoded(bytes).len() implies !chars::control(
        #[trigger] base64::encoded(bytes)[i],
    ) by {
        assert(base64::alphabet_char(base64::encoded(bytes)[i]));
    }
}

/// Doubling the escape characters of a text.
proof fn doubling(s: Seq<char>)
    ensures
        chars::replace_all(
            chars::replace_all(s, seq!['\u{1b}'], seq!['\u{1b}', '\u{1b}']),
            seq!['\u{1b}', '\u{1b}'],
            seq!['\u{1b}'],
        ) == s,
        s.len() == 0 ==> chars::replace_all(s, seq!['\u{1b}'], seq!['\u{1b}', '\u{1b}']).len() == 0,
        s.len() > 0 ==> chars::replace_all(s, seq!['\u{1b}'], seq!['\u{1b}', '\u{1b}']).len() > 0
            && chars::replace_all(s, seq!['\u{1b}'], seq!['\u{1b}', '\u{1b}'])[0] == s[0],
    decreases s.len(),
{
    let one = seq!['\u{1b}'];
    let two = seq!['\u{1b}', '\u{1b}'];
    let doubled = chars::replace_all(s, one, two);
    if s.len() == 0 {
        assert(chars::replace_all(doubled, two, one) =~= s);
    } else {
        let rest = chars::replace_all(s.skip(1), one, two);
        doubling(s.skip(1));
        assert(s.take(1)[0] == s[0]);
        if s[0] == '\u{1b}' {
            assert(s.take(1) =~= one);
            assert(doubled == two + rest);
            assert(doubled.take(2) =~= two);
            assert(doubled.skip(2) =~= rest);
            assert(chars::replace_all(doubled, two, one) == one + s.skip(1));
            assert(one + s.skip(1) =~= s);
        } else {
            assert(s.take(1) != one);
            assert(doubled == seq![s[0]] + rest);
            if doubled.len() >= 2 {
                assert(doubled.take(2)[0] == s[0]);
                assert(doubled.take(2) != two);
                assert(doubled.skip(1) =~= rest);
                assert(chars::replace_all(doubled, two, one) == seq![s[0]] + s.skip(1));
            } else {
                assert(rest.len() == 0);
                assert(s.skip(1).len() == 0);
                assert(chars::replace_all(doubled, two, one) == doubled);
            }
            assert(seq![s[0]] + s.skip(1) =~= s);
        }
    }
}

/// Tmux passes on what it was given: with its doubled escape characters made
/// single again, what is wrapped for tmux is the sequence itself.
pub proof fn tmux_wrapping_can_be_undone(sequence: Seq<char>)
    ensures
        ansi::wrapped_for(sequence, MultiplexerPassthrough::Tmux) == "\u{1b}Ptmux;"@
            + chars::replace_all(sequence, "\u{1b}"@, "\u{1b}\u{1b}"@) + "\u{1b}\\"@,
        chars::replace_all(
            chars::replace_all(sequence, "\u{1b}"@, "\u{1b}\u{1b}"@),
            "\u{1b}\u{1b}"@,
            "\u{1b}"@,
        ) == sequence,
{
    reveal_strlit("\u{1b}");
    reveal_strlit("\u{1b}\u{1b}");
    assert("\u{1b}"@ =~= seq!['\u{1b}']);
    assert("\u{1b}\u{1b}"@ =~= seq!['\u{1b}', '\u{1b}']);
    doubling(sequence);
}

/// The number that a channel is named by, in digits: that of its palette and
/// truecolors, and that of its default color.
pub open spec fn channel_digits(channel: ColorChannel) -> (Seq<char>, Seq<char>) {
    match channel {
        ColorChannel::Foreground => ("38"@, "39"@),
        ColorChannel::Background => ("48"@, "49"@),
        ColorChannel::Underline => ("58"@, "59"@),
    }
}

/// The digits of the numbers that channels are named by.
proof fn channels_in_digits(channel: ColorChannel)
    ensures
        chars::decimal(ansi::channel_target(channel) as nat) == channel_digits(channel).0,
        chars::decimal(ansi::channel_close(channel) as nat) == channel_digits(channel).1,
{
    reveal_with_fuel(chars::decimal, 3);
    reveal_strlit("38");
    reveal_strlit("39");
    reveal_strlit("48");
    reveal_strlit("49");
    reveal_strlit("58");
    reveal_strlit("59");
    assert(chars::decimal(38) =~= "38"@);
    assert(chars::decimal(39) =~= "39"@);
    assert(chars::decimal(48) =~= "48"@);
    assert(chars::decimal(49) =~= "49"@);
    assert(chars::decimal(58) =~= "58"@);
    assert(chars::decimal(59) =~= "59"@);
}

/// Where there is truecolor a color is named by its three channels in the
/// order red, green, blue.
pub proof fn truecolors_are_named_by_their_channels(r: u8, g: u8, b: u8, channel: ColorChannel)
    ensures
        ansi::color_sequence(Color::Rgb { r, g, b }, channel, 3) == "\u{1b}["@ + channel_digits(
            channel,
        ).0 + ";2;"@ + chars::decimal(r as nat) + ";"@ + chars::decimal(g as nat) + ";"@
            + chars::decimal(b as nat) + "m"@,
{
    channels_in_digits(channel);
    assert(ansi::color_sequence(Color::Rgb { r, g, b }, channel, 3) =~= "\u{1b}["@
        + channel_digits(channel).0 + ";2;"@ + chars::decimal(r as nat) + ";"@ + chars::decimal(
        g as nat,
    ) + ";"@ + chars::decimal(b as nat) + "m"@);
}

/// Where there are 256 colors a color of the palette is named by its place.
pub proof fn palette_colors_are_named_by_their_place(
    code: u8,
    channel: ColorChannel,
    level: ColorLevel,
)
    requires
        level >= 2,
    ensures
        ansi::color_sequence(Color::AnsiValue(code), channel, level) == "\u{1b}["@ + channel_digits(
            channel,
        ).0 + ";5;"@ + chars::decimal(code as nat) + "m"@,
{
    channels_in_digits(channel);
    assert(ansi::color_sequence(Color::AnsiValue(code), channel, level) =~= "\u{1b}["@
        + channel_digits(channel).0 + ";5;"@ + chars::decimal(code as nat) + "m"@);
}

/// A truecolor is shown with fewer colors as its nearest place in the palette
/// is.
pub proof fn truecolors_fall_back_to_the_palette(
    r: u8,
    g: u8,
    b: u8,
    channel: ColorChannel,
    level: ColorLevel,
)
    requires
        level == 1 || level == 2,
    ensures
        ansi::color_sequence(Color::Rgb { r, g, b }, channel, level) == ansi::color_sequence(
            Color::AnsiValue(styles::nearest_256(r, g, b)),
            channel,
            level,
        ),
{
}

/// The default color is restored in the same way at every level that has
/// colors.
pub proof fn the_default_color_is_restored(channel: ColorChannel, level: ColorLevel)
    requires
        level > 0,
    ensures
        ansi::color_sequence(Color::Reset, channel, level) == "\u{1b}["@ + channel_digits(
            channel,
        ).1 + "m"@,
{
    channels_in_digits(channel);
}

/// The code of each named color as a foreground: the dark ones from 30 on, the
/// bright ones from 90 on. Grey is the dark white, and dark grey the bright
/// black.
pub open spec fn code_of_named(color: Color) -> Option<int> {
    match color {
        Color::Black => Some(30int),
        Color::DarkRed => Some(31),
        Color::DarkGreen => Some(32),
        Color::DarkYellow => Some(33),
        Color::DarkBlue => Some(34),
        Color::DarkMagenta => Some(35),
        Color::DarkCyan => Some(36),
        Color::Grey => Some(37),
        Color::DarkGrey => Some(90),
        Color::Red => Some(91),
        Color::Green => Some(92),
        Color::Yellow => Some(93),
        Color::Blue => Some(94),
        Color::Magenta => Some(95),
        Color::Cyan => Some(96),
        Color::White => Some(97),
        Color::Reset => None,
        Color::Rgb { .. } => None,
        Color::AnsiValue(_) => None,
    }
}

/// A named color has a code of its own as a foreground, ten more as a
/// background, and is named by its place in the palette as the color of an
/// underline.
pub proof fn named_colors_have_codes_of_their_own(color: Color, level: ColorLevel)
    requires
        code_of_named(color) is Some,
        level > 0,
    ensures
        ({
            let code = code_of_named(color)->0;
            let place = if code < 90 {
                code - 30
            } else {
                code - 90 + 8
            };
            &&& ansi::color_sequence(color, ColorChannel::Foreground, level) == "\u{1b}["@
                + chars::decimal(code as nat) + "m"@
            &&& ansi::color_sequence(color, ColorChannel::Background, level) == "\u{1b}["@
                + chars::decimal((code + 10) as nat) + "m"@
            &&& ansi::color_sequence(color, ColorChannel::Underline, level) == "\u{1b}[58;5;"@
                + chars::decimal(place as nat) + "m"@
        }),
{
    let code = code_of_named(color)->0;
    channels_in_digits(ColorChannel::Underline);
    reveal_strlit("\u{1b}[");
    reveal_strlit("\u{1b}[58;5;");
    reveal_strlit(";5;");
    reveal_strlit("58");
    assert("\u{1b}[58;5;"@ =~= "\u{1b}["@ + "58"@ + ";5;"@);
    let place = if code < 90 {
        code - 30
    } else {
        code - 90 + 8
    };
    assert(ansi::color_sequence(color, ColorChannel::Underline, level) =~= "\u{1b}["@ + "58"@
        + ";5;"@ + chars::decimal(place as nat) + "m"@);
}

/// The four forms of an underline are variants of the underline, and each
/// other attribute has a number of its own: two attributes look the same to a
/// terminal only where they are the same.
pub proof fn attributes_are_told_apart(a: ansi::Attribute, b: ansi::Attribute)
    ensures
        a != b ==> ansi::attribute_parameter(ansi::attribute_index(a)) != ansi::attribute_parameter(
            ansi::attribute_index(b),
        ),
{
    if a != b {
        let i = ansi::attribute_index(a);
        let k = ansi::attribute_index(b);
        let m = ansi::attribute_codes()[i];
        let n = ansi::attribute_codes()[k];
        level::laws::decimal_is_digits(m);
        level::laws::decimal_is_digits(n);
        reveal_strlit("4:");
        assert(ansi::attribute_index(a) != ansi::attribute_index(b));
        if 5 <= i <= 8 && 5 <= k <= 8 {
            if chars::decimal(m) != chars::decimal(n) {
                assert(("4:"@ + chars::decimal(m)).skip(2) =~= chars::decimal(m));
                assert(("4:"@ + chars::decimal(n)).skip(2) =~= chars::decimal(n));
            }
        } else if 5 <= i <= 8 {
            colon_is_no_digit(n, "4:"@ + chars::decimal(m));
        } else if 5 <= k <= 8 {
            colon_is_no_digit(m, "4:"@ + chars::decimal(n));
        }
    }
}

/// A text with a colon in its second place is no number.
proof fn colon_is_no_digit(n: nat, s: Seq<char>)
    requires
        s.len() > 2,
        s[1] == ':',
    ensures
        chars::decimal(n) != s,
{
    level::laws::decimal_is_digits(n);
    if chars::decimal(n) == s {
        assert(chars::digit(s[1]));
    }
}

/// The number that digits in base 36 stand for.
pub open spec fn base36_number(s: Seq<char>) -> int
    decreases s.len(),
{
    if s.len() == 0 {
        0
    } else {
        let c = s.last();
        let digit = if '0' <= c <= '9' {
            c as int - '0' as int
        } else {
            c as int - 'a' as int + 10
        };
        36 * base36_number(s.drop_last()) + digit
    }
}

/// A number is read back from its digits in base 36, and they have no leading
/// zero.
pub proof fn base36_is_read_back(n: nat)
    ensures
        base36_number(ansi::base36(n)) == n,
        n > 0 ==> ansi::base36(n)[0] != '0',
        ansi::base36(n).len() > 0,
    decreases n,
{
    let s = ansi::base36(n);
    if n < 36 {
        assert(s.drop_last() =~= Seq::empty());
        reveal_with_fuel(base36_number, 2);
    } else {
        base36_is_read_back(n / 36);
        assert(s.drop_last() =~= ansi::base36(n / 36));
        assert(s[0] == ansi::base36(n / 36)[0]);
    }
}

/// So many times 31 by itself.
pub open spec fn power_of_31(n: nat) -> int
    decreases n,
{
    if n == 0 {
        1
    } else {
        31 * power_of_31((n - 1) as nat)
    }
}

/// The hash of a text is that of its front, moved by 31 for each character of
/// its back, and that of its back, kept to 32 bits. That of one character is
/// the character.
pub proof fn link_hashes_add_up(a: Seq<char>, b: Seq<char>, c: char)
    ensures
        ansi::link_hash(a + b) == (power_of_31(b.len()) * ansi::link_hash(a) + ansi::link_hash(b))
            % 0x1_0000_0000,
        ansi::link_hash(seq![c]) == c as int,
    decreases b.len(),
{
    reveal_with_fuel(ansi::link_hash, 2);
    assert(seq![c].drop_last() =~= Seq::empty());
    assert(seq![c].last() == c);
    link_hash_fits(a);
    if b.len() == 0 {
        assert(a + b =~= a);
        assert(ansi::link_hash(b) == 0);
        assert(power_of_31(0) == 1);
    } else {
        let m = 0x1_0000_0000int;
        let f = b.drop_last();
        let l = b.last() as int;
        link_hashes_add_up(a, f, c);
        assert((a + b).drop_last() =~= a + f);
        assert((a + b).last() == b.last());
        let p = power_of_31(f.len());
        let h = ansi::link_hash(a);
        let k = ansi::link_hash(f);
        let x = p * h + k;
        assert(power_of_31(b.len()) == 31 * p);
        assert((31 * p) * h == 31 * (p * h)) by (nonlinear_arith);
        vstd::arithmetic::div_mod::lemma_fundamental_div_mod(x, m);
        vstd::arithmetic::div_mod::lemma_fundamental_div_mod(31 * k + l, m);
        let q = x / m;
        let u = (31 * k + l) / m;
        assert(31 * (x % m) + l == m * (-(31 * q) + u) + (31 * (p * h) + (31 * k + l) % m))
            by (nonlinear_arith)
            requires
                x == m * q + x % m,
                31 * k + l == m * u + (31 * k + l) % m,
                x == p * h + k,
        ;
        vstd::arithmetic::div_mod::lemma_mod_multiples_vanish(
            -(31 * q) + u,
            31 * (p * h) + (31 * k + l) % m,
            m,
        );
    }
}

/// Hyperlinks are shown where they are forced, on a terminal or not. A value
/// of zero does not force them, and an empty one does.
pub proof fn hyperlinks_can_be_forced(vars: EnvMap, tty: bool, value: Seq<char>)
    requires
        env::var(vars, "FORCE_HYPERLINK"@) == Some(value),
        value != "0"@,
    ensures
        ansi::stdout_shows_hyperlinks(vars, tty),
        ansi::hyperlinks_shown(vars, ansi::stdout_shows_hyperlinks(vars, tty)),
{
}

/// What is no terminal shows no hyperlinks of its own, unless they are forced
/// or the text is built by Netlify.
pub proof fn what_is_no_terminal_shows_no_hyperlinks(vars: EnvMap)
    requires
        env::var(vars, "FORCE_HYPERLINK"@) is None || env::var(vars, "FORCE_HYPERLINK"@) == Some(
            "0"@,
        ),
        env::var(vars, "NETLIFY"@) is None || env::var(vars, "NETLIFY"@)->0.len() == 0,
    ensures
        !ansi::stdout_shows_hyperlinks(vars, false),
{
}

/// Terminals that are known to show hyperlinks show them.
pub proof fn known_terminals_show_hyperlinks(vars: EnvMap)
    requires
        env::var(vars, "TERM_PROGRAM"@) == Some("iTerm.app"@) || env::var(vars, "TERM_PROGRAM"@)
            == Some("WezTerm"@) || env::var(vars, "TERM_PROGRAM"@) == Some("vscode"@) || env::var(
            vars,
            "TERM_PROGRAM"@,
        ) == Some("ghostty"@) || env::var(vars, "TERM_PROGRAM"@) == Some("zed"@) || env::var(
            vars,
            "TERM"@,
        ) == Some("alacritty"@) || env::var(vars, "TERM"@) == Some("xterm-kitty"@) || env::is_set(
            vars,
            "WT_SESSION"@,
        ),
    ensures
        ansi::stdout_shows_hyperlinks(vars, true),
        ansi::hyperlinks_shown(vars, ansi::stdout_shows_hyperlinks(vars, true)),
{
}

/// A terminal that is built on VTE shows hyperlinks from version 0.50 on, and
/// such a version alone makes it do so.
pub proof fn vte_shows_hyperlinks_from_version_50(vars: EnvMap, version: u32)
    requires
        env::var(vars, "VTE_VERSION"@) == Some(chars::decimal(version as nat)),
        env::var(vars, "FORCE_HYPERLINK"@) is None,
        env::var(vars, "NETLIFY"@) is None,
        !env::is_set(vars, "WT_SESSION"@),
        env::var(vars, "TERM_PROGRAM"@) is None,
        env::var(vars, "TERM"@) is None,
    ensures
        ansi::stdout_shows_hyperlinks(vars, true) <==> version >= 5000,
{
    let s = chars::decimal(version as nat);
    level::laws::decimal_is_digits(version as nat);
    assert(chars::digit(s[0]));
    assert(s[0] != '+');
    assert(chars::all_in(s, |c: char| chars::digit(c)));
    assert(ansi::parsed_u32(s) == Some(version));
}

/// Terminals that show hyperlinks without being known for it are told by their
/// name, even where standard output is no terminal.
pub proof fn additional_terminals_show_hyperlinks(vars: EnvMap, name: Seq<char>)
    requires
        name == "ghostty"@ || name == "Hyper"@ || name == "kitty"@ || name == "alacritty"@ || name
            == "iTerm.app"@ || name == "iTerm2"@,
        env::var(vars, "TERM_PROGRAM"@) == Some(name) || env::var(vars, "LC_TERMINAL"@) == Some(
            name,
        ),
    ensures
        ansi::hyperlinks_shown(vars, false),
{
}

/// A terminal with kitty in its name shows hyperlinks.
pub proof fn kitty_shows_hyperlinks(vars: EnvMap, before: Seq<char>, after: Seq<char>)
    requires
        env::var(vars, "TERM"@) == Some(before + "kitty"@ + after),
    ensures
        ansi::hyperlinks_shown(vars, false),
        ansi::is_kitty(vars),
{
    let term = before + "kitty"@ + after;
    assert(term.subrange(before.len() as int, before.len() as int + "kitty"@.len()) =~= "kitty"@);
    assert(chars::occurs_at(term, "kitty"@, before.len() as int));
}

/// An environment that says nothing of hyperlinks shows none.
pub proof fn silent_environments_show_no_hyperlinks(vars: EnvMap, tty: bool)
    requires
        env::var(vars, "FORCE_HYPERLINK"@) is None,
        env::var(vars, "NETLIFY"@) is None,
        !env::is_set(vars, "WT_SESSION"@),
        env::var(vars, "TERM_PROGRAM"@) is None,
        env::var(vars, "LC_TERMINAL"@) is None,
        env::var(vars, "TERM"@) is None,
        env::var(vars, "VTE_VERSION"@) is None,
    ensures
        !ansi::hyperlinks_shown(vars, ansi::stdout_shows_hyperlinks(vars, tty)),
{
}

/// Tmux is the multiplexer where it runs, inside screen or not. Screen is where
/// it runs alone.
pub proof fn tmux_comes_before_screen(vars: EnvMap)
    ensures
        env::is_set_nonempty(vars, "TMUX"@) <==> ansi::multiplexer_of(vars)
            == MultiplexerPassthrough::Tmux,
        ansi::multiplexer_of(vars) == MultiplexerPassthrough::Screen <==> !env::is_set_nonempty(
            vars,
            "TMUX"@,
        ) && env::is_set_nonempty(vars, "STY"@),
{
}

/// Without a multiplexer a sequence stays as it is. Screen gets it inside a
/// device control string, unchanged.
pub proof fn other_multiplexers_do_not_change_the_sequence(sequence: Seq<char>)
    ensures
        ansi::wrapped_for(sequence, MultiplexerPassthrough::Direct) == sequence,
        ({
            let wrapped = ansi::wrapped_for(sequence, MultiplexerPassthrough::Screen);
            let n = sequence.len() as int;
            &&& wrapped.len() == n + 4
            &&& wrapped[0] == '\u{1b}'
            &&& wrapped[1] == 'P'
            &&& wrapped.subrange(2, n + 2) == sequence
            &&& wrapped[n + 2] == '\u{1b}'
            &&& wrapped[n + 3] == '\\'
        }),
{
    reveal_strlit("\u{1b}P");
    reveal_strlit("\u{1b}\\");
    let wrapped = ansi::wrapped_for(sequence, MultiplexerPassthrough::Screen);
    assert(wrapped.subrange(2, sequence.len() as int + 2) =~= sequence);
}

/// A command ends with a bell, but for kitty, which would ring it.
pub proof fn commands_end_with_a_bell(text: Seq<char>)
    ensures
        ({
            let payload = base64::encoded(vstd::utf8::encode_utf8(text));
            &&& ansi::clipboard_sequence(text, false) == seq![
                '\u{1b}', ']', '5', '2', ';', 'c', ';',
            ] + payload + seq!['\u{7}']
            &&& ansi::clipboard_sequence(text, true) == seq![
                '\u{1b}', ']', '5', '2', ';', 'c', ';',
            ] + payload + seq!['\u{1b}', '\\']
        }),
{
    reveal_strlit("\u{1b}]52;c;");
    reveal_strlit("\u{7}");
    reveal_strlit("\u{1b}\\");
    assert("\u{1b}]52;c;"@ =~= seq!['\u{1b}', ']', '5', '2', ';', 'c', ';']);
    assert("\u{7}"@ =~= seq!['\u{7}']);
    assert("\u{1b}\\"@ =~= seq!['\u{1b}', '\\']);
}

/// A hyperlink is opened with its target behind the last semicolon of its
/// identifier, which is the hash of the target.
pub proof fn links_are_opened_with_their_target(href: Seq<char>)
    requires
        chars::all_in(href, |c: char| !chars::control(c)),
    ensures
        ansi::link_open(href) == seq!['\u{1b}', ']', '8', ';', 'i', 'd', '='] + ansi::base36(
            ansi::link_hash(href) as nat,
        ) + seq![';'] + href + seq!['\u{1b}', '\\'],
{
    sanitizing_removes_controls(href);
    reveal_strlit("\u{1b}]8;id=");
    reveal_strlit(";");
    reveal_strlit("\u{1b}\\");
    assert("\u{1b}]8;id="@ =~= seq!['\u{1b}', ']', '8', ';', 'i', 'd', '=']);
    assert(";"@ =~= seq![';']);
    assert("\u{1b}\\"@ =~= seq!['\u{1b}', '\\']);
}

/// A payload keeps line feeds and tabs, and loses every other control
/// character.
pub proof fn payloads_keep_line_feeds_and_tabs(c: char)
    ensures
        ansi::payload_char('\n'),
        ansi::payload_char('\t'),
        c != '\n' && c != '\t' && (c <= '\u{1f}' || '\u{7f}' <= c <= '\u{9f}')
            <==> !ansi::payload_char(c),
{
}

/// The parameter of each attribute.
pub proof fn attributes_have_their_numbers()
    ensures
        ansi::attribute_parameter(ansi::attribute_index(ansi::Attribute::Reset)) == "0"@,
        ansi::attribute_parameter(ansi::attribute_index(ansi::Attribute::Bold)) == "1"@,
        ansi::attribute_parameter(ansi::attribute_index(ansi::Attribute::Dim)) == "2"@,
        ansi::attribute_parameter(ansi::attribute_index(ansi::Attribute::Italic)) == "3"@,
        ansi::attribute_parameter(ansi::attribute_index(ansi::Attribute::Underlined)) == "4"@,
        ansi::attribute_parameter(ansi::attribute_index(ansi::Attribute::DoubleUnderlined))
            == "4:2"@,
        ansi::attribute_parameter(ansi::attribute_index(ansi::Attribute::Undercurled)) == "4:3"@,
        ansi::attribute_parameter(ansi::attribute_index(ansi::Attribute::Underdotted)) == "4:4"@,
        ansi::attribute_parameter(ansi::attribute_index(ansi::Attribute::Underdashed)) == "4:5"@,
        ansi::attribute_parameter(ansi::attribute_index(ansi::Attribute::SlowBlink)) == "5"@,
        ansi::attribute_parameter(ansi::attribute_index(ansi::Attribute::RapidBlink)) == "6"@,
        ansi::attribute_parameter(ansi::attribute_index(ansi::Attribute::Reverse)) == "7"@,
        ansi::attribute_parameter(ansi::attribute_index(ansi::Attribute::Hidden)) == "8"@,
        ansi::attribute_parameter(ansi::attribute_index(ansi::Attribute::CrossedOut)) == "9"@,
        ansi::attribute_parameter(ansi::attribute_index(ansi::Attribute::NormalIntensity))
            == "22"@,
        ansi::attribute_parameter(ansi::attribute_index(ansi::Attribute::NoItalic)) == "23"@,
        ansi::attribute_parameter(ansi::attribute_index(ansi::Attribute::NoUnderline)) == "24"@,
        ansi::attribute_parameter(ansi::attribute_index(ansi::Attribute::NoBlink)) == "25"@,
        ansi::attribute_parameter(ansi::attribute_index(ansi::Attribute::NoReverse)) == "27"@,
        ansi::attribute_parameter(ansi::attribute_index(ansi::Attribute::NoHidden)) == "28"@,
        ansi::attribute_parameter(ansi::attribute_index(ansi::Attribute::NotCrossedOut)) == "29"@,
        ansi::attribute_parameter(ansi::attribute_index(ansi::Attribute::OverLined)) == "53"@,
        ansi::attribute_parameter(ansi::attribute_index(ansi::Attribute::NotOverLined)) == "55"@,
{
    reveal_with_fuel(chars::decimal, 3);
    reveal_strlit("4:");
    reveal_strlit("0");
    reveal_strlit("1");
    reveal_strlit("2");
    reveal_strlit("3");
    reveal_strlit("4");
    reveal_strlit("4:2");
    reveal_strlit("4:3");
    reveal_strlit("4:4");
    reveal_strlit("4:5");
    reveal_strlit("5");
    reveal_strlit("6");
    reveal_strlit("7");
    reveal_strlit("8");
    reveal_strlit("9");
    reveal_strlit("22");
    reveal_strlit("23");
    reveal_strlit("24");
    reveal_strlit("25");
    reveal_strlit("27");
    reveal_strlit("28");
    reveal_strlit("29");
    reveal_strlit("53");
    reveal_strlit("55");
}

/// A terminal is kitty where a variable of kitty is set, whatever its value,
/// and none where neither that variable nor `TERM` tells of it.
pub proof fn kitty_is_told_by_its_variables(vars: EnvMap)
    ensures
        vars.dom().contains("KITTY_WINDOW_ID"@) ==> ansi::is_kitty(vars),
        !vars.dom().contains("KITTY_WINDOW_ID"@) && env::var(vars, "TERM"@) is None
            ==> !ansi::is_kitty(vars),
{
}

/// A number is read back from its digits, with a plus sign or without, where it
/// fits in 32 bits. Nothing, a sign alone and a negative number are no numbers.
pub proof fn version_numbers_are_read_back(n: nat, digits: Seq<char>)
    ensures
        ansi::parsed_u32(chars::decimal(n)) == if n <= u32::MAX {
            Some(n as u32)
        } else {
            None
        },
        ansi::parsed_u32(seq!['+'] + chars::decimal(n)) == ansi::parsed_u32(chars::decimal(n)),
        ansi::parsed_u32(Seq::empty()) is None,
        ansi::parsed_u32(seq!['+']) is None,
        ansi::parsed_u32(seq!['-'] + digits) is None,
{
    let s = chars::decimal(n);
    let class = |c: char| chars::digit(c);
    let signed = seq!['+'] + s;
    let negative = seq!['-'] + digits;
    level::laws::decimal_is_digits(n);
    assert(chars::digit(s[0]));
    assert(s[0] != '+');
    assert(chars::all_in(s, class));
    assert(signed.skip(1) =~= s);
    assert(seq!['+'].skip(1) =~= Seq::empty());
    assert(!class(negative[0]));
}

} // verus!
