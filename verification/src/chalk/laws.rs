//! What holds of every styler and every text.
use crate::chalk;
use crate::chalk::styles;
use crate::chalk::{ChalkView, ColorLevel, LayerView, NamedColor};
use crate::chars;
use crate::strip_ansi;
use crate::strip_ansi::ESC;
use vstd::prelude::*;

verus! {

/// The characters that parameters of a graphic rendition are made of.
pub open spec fn parameter_char(c: char) -> bool {
    '0' <= c <= '9' || c == ';' || c == ':'
}

/// Whether `s` is one escape sequence that selects a graphic rendition.
pub open spec fn is_sgr(s: Seq<char>) -> bool {
    &&& s.len() >= 3
    &&& s[0] == ESC
    &&& s[1] == '['
    &&& s.last() == 'm'
    &&& forall|i: int| 2 <= i < s.len() - 1 ==> parameter_char(#[trigger] s[i])
}

/// Whether all layers open and close with one escape sequence each.
pub open spec fn layers_are_sgr(layers: Seq<LayerView>) -> bool {
    forall|i: int|
        0 <= i < layers.len() ==> is_sgr((#[trigger] layers[i]).open) && is_sgr(layers[i].close)
}

/// What holds of every styler: its level is one of the four, and its layers
/// are escape sequences.
pub open spec fn well_formed(chalk: ChalkView) -> bool {
    chalk.level <= 3 && layers_are_sgr(chalk.layers)
}

/// The digits of a number are parameter characters.
pub proof fn decimal_digits(n: nat)
    ensures
        chars::decimal(n).len() > 0,
        forall|i: int|
            0 <= i < chars::decimal(n).len() ==> '0' <= #[trigger] chars::decimal(n)[i] <= '9',
    decreases n,
{
    if n >= 10 {
        decimal_digits(n / 10);
    }
}

/// Parameters between the introducer and the final character make one escape
/// sequence.
proof fn parameters_make_sgr(params: Seq<char>)
    requires
        forall|i: int| 0 <= i < params.len() ==> parameter_char(#[trigger] params[i]),
    ensures
        is_sgr(styles::sgr(params)),
{
    reveal_strlit("\u{1b}[");
    reveal_strlit("m");
    let s = styles::sgr(params);
    assert forall|i: int| 2 <= i < s.len() - 1 implies parameter_char(#[trigger] s[i]) by {
        assert(s[i] == params[i - 2]);
    }
}

/// A single code makes one escape sequence.
pub proof fn code_is_sgr(code: int)
    ensures
        is_sgr(styles::sgr_code(code)),
{
    decimal_digits(code as nat);
    parameters_make_sgr(chars::decimal(code as nat));
}

/// A palette color makes one escape sequence.
pub proof fn palette_is_sgr(target: int, index: u8)
    ensures
        is_sgr(styles::sgr_palette(target, index)),
{
    reveal_strlit(";5;");
    decimal_digits(target as nat);
    decimal_digits(index as nat);
    parameters_make_sgr(
        chars::decimal(target as nat) + ";5;"@ + chars::decimal(index as nat),
    );
}

/// A truecolor makes one escape sequence.
pub proof fn rgb_is_sgr(target: int, r: u8, g: u8, b: u8)
    ensures
        is_sgr(styles::sgr_rgb(target, r, g, b)),
{
    reveal_strlit(";2;");
    reveal_strlit(";");
    decimal_digits(target as nat);
    decimal_digits(r as nat);
    decimal_digits(g as nat);
    decimal_digits(b as nat);
    parameters_make_sgr(
        chars::decimal(target as nat) + ";2;"@ + chars::decimal(r as nat) + ";"@ + chars::decimal(
            g as nat,
        ) + ";"@ + chars::decimal(b as nat),
    );
}

/// An underline color makes one escape sequence.
pub proof fn underline_is_sgr(code: u8)
    ensures
        is_sgr(styles::sgr_underline(code)),
{
    palette_is_sgr(
        58,
        if code < 90 {
            (code - 30) as u8
        } else {
            (code - 82) as u8
        },
    );
}

/// At level 0 a text passes through unchanged, or disappears where it is to
/// be visible with colors only.
pub proof fn level_zero_passes_through(chalk: ChalkView, input: Seq<char>)
    requires
        chalk.level == 0,
    ensures
        !chalk.visible_only ==> chalk::styled(chalk, input) == input,
        chalk.visible_only ==> chalk::styled(chalk, input) == Seq::<char>::empty(),
{
}

/// A styler without styles leaves every text as it is where there are colors,
/// and an empty text stays empty under every style.
pub proof fn nothing_to_style(chalk: ChalkView, input: Seq<char>)
    ensures
        chalk.level > 0 && chalk.layers.len() == 0 ==> chalk::styled(chalk, input) == input,
        input.len() == 0 ==> chalk::styled(chalk, input) == input,
{
    assert(input.len() == 0 ==> input =~= Seq::<char>::empty());
}

/// Once the layers are there, the level matters only in being 0 or not.
pub proof fn levels_with_colors_style_alike(chalk: ChalkView, level: ColorLevel, input: Seq<char>)
    requires
        chalk.level > 0,
        level > 0,
    ensures
        chalk::styled(ChalkView { level, ..chalk }, input) == chalk::styled(chalk, input),
{
}

/// A named color is at the same place in the 16-color and the 256-color
/// palette.
pub proof fn palettes_agree(color: NamedColor)
    ensures
        styles::code_of_256(styles::palette_index(color)) == styles::foreground_code(
            styles::palette_index(color),
        ),
        styles::sgr_underline(styles::foreground_code(styles::palette_index(color)))
            == styles::sgr_palette(58, styles::palette_index(color)),
{
}

/// A text whose escape sequences all select graphic renditions, such as a
/// styled text.
pub open spec fn sgr_text(s: Seq<char>) -> bool
    decreases s.len(),
{
    if s.len() == 0 {
        true
    } else if s[0] != ESC {
        sgr_text(s.skip(1))
    } else {
        let end = strip_ansi::escape_end(s, 1);
        1 < end <= s.len() && is_sgr(s.take(end)) && sgr_text(s.skip(end))
    }
}

/// Parameters are read up to the final character of the sequence.
proof fn sgr_ends(q: Seq<char>, t: Seq<char>, at: int)
    requires
        is_sgr(q),
        2 <= at < q.len(),
    ensures
        strip_ansi::control_sequence_end(q + t, at) == q.len(),
    decreases q.len() - at,
{
    assert((q + t)[at] == q[at]);
    if at < q.len() - 1 {
        assert(parameter_char(q[at]));
        sgr_ends(q, t, at + 1);
    }
}

/// An escape sequence at the front of a text is stripped off.
proof fn sgr_in_front(q: Seq<char>, t: Seq<char>)
    requires
        is_sgr(q),
    ensures
        strip_ansi::plain(q + t) == strip_ansi::plain(t),
        strip_ansi::escape_end(q + t, 1) == q.len(),
        sgr_text(q + t) == sgr_text(t),
{
    let s = q + t;
    sgr_ends(q, t, 2);
    assert(s[0] == ESC && s[1] == '[');
    assert(strip_ansi::plain_from(s, 0) == strip_ansi::plain_from(s, q.len() as int));
    strip_ansi::plain_does_not_look_back(q, t, 0);
    assert(s.take(q.len() as int) =~= q);
    assert(s.skip(q.len() as int) =~= t);
}

/// A character at the front of a text that is no escape character stays.
proof fn char_in_front(c: char, t: Seq<char>)
    requires
        c != ESC,
    ensures
        strip_ansi::plain(seq![c] + t) == seq![c] + strip_ansi::plain(t),
        sgr_text(seq![c] + t) == sgr_text(t),
{
    let s = seq![c] + t;
    assert(s[0] == c);
    assert(strip_ansi::plain_from(s, 0) == seq![c] + strip_ansi::plain_from(s, 1));
    strip_ansi::plain_does_not_look_back(seq![c], t, 0);
    assert(s.skip(1) =~= t);
}

/// A styled text is one behind the other with what follows it: the two texts
/// are stripped apart.
pub proof fn styled_texts_join(a: Seq<char>, b: Seq<char>)
    requires
        sgr_text(a),
    ensures
        strip_ansi::plain(a + b) == strip_ansi::plain(a) + strip_ansi::plain(b),
        sgr_text(a + b) == sgr_text(b),
    decreases a.len(),
{
    if a.len() == 0 {
        assert(a + b =~= b);
        assert(strip_ansi::plain(a) + strip_ansi::plain(b) =~= strip_ansi::plain(b));
    } else if a[0] != ESC {
        let t = a.skip(1);
        styled_texts_join(t, b);
        char_in_front(a[0], t);
        char_in_front(a[0], t + b);
        assert(seq![a[0]] + t =~= a);
        assert(seq![a[0]] + (t + b) =~= a + b);
        assert(seq![a[0]] + (strip_ansi::plain(t) + strip_ansi::plain(b)) =~= (seq![a[0]]
            + strip_ansi::plain(t)) + strip_ansi::plain(b));
    } else {
        let end = strip_ansi::escape_end(a, 1);
        let q = a.take(end);
        let t = a.skip(end);
        styled_texts_join(t, b);
        sgr_in_front(q, t);
        sgr_in_front(q, t + b);
        assert(q + t =~= a);
        assert(q + (t + b) =~= a + b);
    }
}

/// A text without escape characters is a styled text without styles.
pub proof fn plain_text_is_sgr_text(s: Seq<char>)
    requires
        forall|i: int| 0 <= i < s.len() ==> s[i] != ESC,
    ensures
        sgr_text(s),
        strip_ansi::plain(s) == s,
    decreases s.len(),
{
    strip_ansi::plain_of_plain(s, 0);
    assert(s.skip(0) =~= s);
    if s.len() > 0 {
        plain_text_is_sgr_text(s.skip(1));
    }
}

/// An escape sequence is a styled text that says nothing.
proof fn sgr_says_nothing(q: Seq<char>)
    requires
        is_sgr(q),
    ensures
        sgr_text(q),
        strip_ansi::plain(q) == Seq::<char>::empty(),
{
    sgr_in_front(q, Seq::empty());
    assert(q + Seq::<char>::empty() =~= q);
}

/// What opens and closes the layers says nothing.
proof fn layers_say_nothing(layers: Seq<LayerView>)
    requires
        layers_are_sgr(layers),
    ensures
        sgr_text(chalk::open_all(layers)),
        sgr_text(chalk::close_all(layers)),
        strip_ansi::plain(chalk::open_all(layers)) == Seq::<char>::empty(),
        strip_ansi::plain(chalk::close_all(layers)) == Seq::<char>::empty(),
    decreases layers.len(),
{
    if layers.len() > 0 {
        let rest = layers.drop_last();
        assert(is_sgr(layers[layers.len() - 1].open));
        layers_say_nothing(rest);
        sgr_says_nothing(layers.last().open);
        sgr_says_nothing(layers.last().close);
        styled_texts_join(chalk::open_all(rest), layers.last().open);
        styled_texts_join(layers.last().close, chalk::close_all(rest));
        assert(Seq::<char>::empty() + Seq::<char>::empty() =~= Seq::<char>::empty());
    }
}

/// A line break between closing and opening sequences is all that is left of
/// it, and the rest of the text follows.
proof fn encased_break(layers: Seq<LayerView>, mark: Seq<char>, body: Seq<char>)
    requires
        layers_are_sgr(layers),
        mark == seq!['\n'] || mark == seq!['\r', '\n'],
        sgr_text(body),
    ensures
        ({
            let all = chalk::close_all(layers) + mark + chalk::open_all(layers) + body;
            sgr_text(all) && strip_ansi::plain(all) == mark + strip_ansi::plain(body)
        }),
{
    let open = chalk::open_all(layers);
    let close = chalk::close_all(layers);
    layers_say_nothing(layers);
    plain_text_is_sgr_text(mark);
    styled_texts_join(close, mark);
    styled_texts_join(close + mark, open);
    styled_texts_join(close + mark + open, body);
    assert(Seq::<char>::empty() + mark + Seq::<char>::empty() =~= mark);
}

/// Characters that are neither line feeds nor carriage returns stay outside
/// the encased line breaks.
proof fn encased_passes(u: Seq<char>, t: Seq<char>, close: Seq<char>, open: Seq<char>)
    requires
        forall|i: int| 0 <= i < u.len() ==> u[i] != '\n' && u[i] != '\r',
    ensures
        chalk::encased(u + t, close, open) == u + chalk::encased(t, close, open),
    decreases u.len(),
{
    if u.len() == 0 {
        assert(u + t =~= t);
        assert(u + chalk::encased(t, close, open) =~= chalk::encased(t, close, open));
    } else {
        assert((u + t)[0] == u[0]);
        assert((u + t).skip(1) =~= u.skip(1) + t);
        encased_passes(u.skip(1), t, close, open);
        assert(seq![u[0]] + (u.skip(1) + chalk::encased(t, close, open)) =~= u + chalk::encased(
            t,
            close,
            open,
        ));
    }
}

/// Encasing the line breaks of a styled text keeps what it says.
proof fn encasing_keeps_the_text(s: Seq<char>, layers: Seq<LayerView>)
    requires
        layers_are_sgr(layers),
        sgr_text(s),
    ensures
        ({
            let r = chalk::encased(s, chalk::close_all(layers), chalk::open_all(layers));
            sgr_text(r) && strip_ansi::plain(r) == strip_ansi::plain(s)
        }),
    decreases s.len(),
{
    let open = chalk::open_all(layers);
    let close = chalk::close_all(layers);
    if s.len() == 0 {
        assert(chalk::encased(s, close, open) =~= s);
    } else if s[0] == '\n' {
        let t = s.skip(1);
        assert(seq!['\n'] + t =~= s);
        char_in_front('\n', t);
        encasing_keeps_the_text(t, layers);
        encased_break(layers, seq!['\n'], chalk::encased(t, close, open));
    } else if s[0] == '\r' && s.len() > 1 && s[1] == '\n' {
        let t = s.skip(2);
        assert(seq!['\r'] + (seq!['\n'] + t) =~= s);
        assert(seq!['\r', '\n'] + strip_ansi::plain(t) =~= seq!['\r'] + (seq!['\n']
            + strip_ansi::plain(t)));
        char_in_front('\r', seq!['\n'] + t);
        char_in_front('\n', t);
        encasing_keeps_the_text(t, layers);
        encased_break(layers, seq!['\r', '\n'], chalk::encased(t, close, open));
    } else if s[0] != ESC {
        let t = s.skip(1);
        assert(seq![s[0]] + t =~= s);
        char_in_front(s[0], t);
        encasing_keeps_the_text(t, layers);
        char_in_front(s[0], chalk::encased(t, close, open));
    } else {
        let end = strip_ansi::escape_end(s, 1);
        let q = s.take(end);
        let t = s.skip(end);
        assert(q + t =~= s);
        assert forall|i: int| 0 <= i < q.len() implies q[i] != '\n' && q[i] != '\r' by {
            if 2 <= i < q.len() - 1 {
                assert(parameter_char(q[i]));
            }
        }
        encased_passes(q, t, close, open);
        encasing_keeps_the_text(t, layers);
        sgr_in_front(q, t);
        sgr_in_front(q, chalk::encased(t, close, open));
    }
}

/// Characters that are no escape characters are passed over when a closing
/// sequence is looked for.
proof fn replace_passes(u: Seq<char>, t: Seq<char>, part: Seq<char>, by: Seq<char>)
    requires
        part.len() > 0,
        part[0] == ESC,
        forall|i: int| 0 <= i < u.len() ==> u[i] != ESC,
    ensures
        chars::replace_all(u + t, part, by) == u + chars::replace_all(t, part, by),
    decreases u.len(),
{
    if u.len() == 0 {
        assert(u + t =~= t);
        assert(u + chars::replace_all(t, part, by) =~= chars::replace_all(t, part, by));
    } else {
        let s = u + t;
        assert(s[0] == u[0]);
        assert(s.skip(1) =~= u.skip(1) + t);
        replace_passes(u.skip(1), t, part, by);
        if s.len() >= part.len() {
            assert(s.take(part.len() as int)[0] == u[0]);
        } else {
            assert(t.len() < part.len());
            assert(chars::replace_all(t, part, by) == t);
        }
        assert(seq![u[0]] + (u.skip(1) + chars::replace_all(t, part, by)) =~= u
            + chars::replace_all(t, part, by));
    }
}

/// Another escape sequence in front of a text is passed over as well.
proof fn replace_passes_sgr(q: Seq<char>, t: Seq<char>, part: Seq<char>, by: Seq<char>)
    requires
        is_sgr(q),
        is_sgr(part),
        q != part,
    ensures
        chars::replace_all(q + t, part, by) == q + chars::replace_all(t, part, by),
{
    let s = q + t;
    let u = q.skip(1);
    assert forall|i: int| 0 <= i < u.len() implies u[i] != ESC by {
        sgr_inner_chars(q, i + 1);
    }
    replace_passes(u, t, part, by);
    assert(s.skip(1) =~= u + t);
    different_sgr_do_not_match(q, part, t);
    if s.len() >= part.len() {
        assert(s.take(part.len() as int) =~= s.subrange(0, part.len() as int));
    } else {
        assert(chars::replace_all(t, part, by) == t);
    }
    assert(seq![s[0]] + (u + chars::replace_all(t, part, by)) =~= q + chars::replace_all(
        t,
        part,
        by,
    ));
}

/// Reopening one layer of a styled text keeps what it says.
proof fn reopening_one_keeps_the_text(s: Seq<char>, layer: LayerView)
    requires
        is_sgr(layer.open),
        is_sgr(layer.close),
        sgr_text(s),
    ensures
        ({
            let r = chars::replace_all(s, layer.close, layer.close + layer.open);
            sgr_text(r) && strip_ansi::plain(r) == strip_ansi::plain(s)
        }),
    decreases s.len(),
{
    let part = layer.close;
    let by = layer.close + layer.open;
    if s.len() == 0 {
        assert(chars::replace_all(s, part, by) == s);
    } else if s[0] != ESC {
        let t = s.skip(1);
        let u = seq![s[0]];
        assert(u + t =~= s);
        replace_passes(u, t, part, by);
        char_in_front(s[0], t);
        reopening_one_keeps_the_text(t, layer);
        char_in_front(s[0], chars::replace_all(t, part, by));
    } else {
        let end = strip_ansi::escape_end(s, 1);
        let q = s.take(end);
        let t = s.skip(end);
        let rest = chars::replace_all(t, part, by);
        assert(q + t =~= s);
        sgr_in_front(q, t);
        reopening_one_keeps_the_text(t, layer);
        if q == part {
            assert(s.take(part.len() as int) =~= part);
            assert(s.skip(part.len() as int) =~= t);
            assert(by + rest =~= layer.close + (layer.open + rest));
            sgr_in_front(layer.open, rest);
            sgr_in_front(layer.close, layer.open + rest);
        } else {
            replace_passes_sgr(q, t, part, by);
            sgr_in_front(q, rest);
        }
    }
}

/// Reopening the layers of a styled text keeps what it says.
proof fn reopening_keeps_the_text(s: Seq<char>, layers: Seq<LayerView>)
    requires
        layers_are_sgr(layers),
        sgr_text(s),
    ensures
        sgr_text(chalk::reopened(s, layers)),
        strip_ansi::plain(chalk::reopened(s, layers)) == strip_ansi::plain(s),
    decreases layers.len(),
{
    if layers.len() > 0 {
        let layer = layers.last();
        assert(is_sgr(layers[layers.len() - 1].open));
        reopening_one_keeps_the_text(s, layer);
        reopening_keeps_the_text(
            chars::replace_all(s, layer.close, layer.close + layer.open),
            layers.drop_last(),
        );
    }
}

/// Styling keeps the text: a styled text says what the text says that was
/// styled, which may itself hold styled parts. So styles can be nested.
pub proof fn styling_keeps_the_text(chalk: ChalkView, input: Seq<char>)
    requires
        well_formed(chalk),
        sgr_text(input),
    ensures
        sgr_text(chalk::styled(chalk, input)),
        chalk.level > 0 || !chalk.visible_only ==> strip_ansi::plain(chalk::styled(chalk, input))
            == strip_ansi::plain(input),
{
    if chalk.level > 0 && input.len() > 0 && chalk.layers.len() > 0 {
        let open = chalk::open_all(chalk.layers);
        let close = chalk::close_all(chalk.layers);
        let again = chalk::reopened(input, chalk.layers);
        let body = chalk::encased(again, close, open);
        reopening_keeps_the_text(input, chalk.layers);
        encasing_keeps_the_text(again, chalk.layers);
        layers_say_nothing(chalk.layers);
        styled_texts_join(open, body);
        styled_texts_join(open + body, close);
        assert(Seq::<char>::empty() + strip_ansi::plain(body) + Seq::<char>::empty()
            =~= strip_ansi::plain(body));
    }
}

/// A text without escape characters holds no closing sequence.
proof fn nothing_to_reopen(s: Seq<char>, layers: Seq<LayerView>)
    requires
        layers_are_sgr(layers),
        forall|i: int| 0 <= i < s.len() ==> s[i] != ESC,
    ensures
        chalk::reopened(s, layers) == s,
    decreases layers.len(),
{
    if layers.len() > 0 {
        let layer = layers.last();
        assert(is_sgr(layers[layers.len() - 1].close));
        replace_passes(s, Seq::empty(), layer.close, layer.close + layer.open);
        assert(s + Seq::<char>::empty() =~= s);
        nothing_to_reopen(s, layers.drop_last());
    }
}

/// A line break between two texts is encased apart from them.
proof fn encased_splits(a: Seq<char>, b: Seq<char>, close: Seq<char>, open: Seq<char>)
    requires
        a.len() == 0 || a.last() != '\r',
    ensures
        chalk::encased(a + seq!['\n'] + b, close, open) == chalk::encased(a, close, open) + close
            + seq!['\n'] + open + chalk::encased(b, close, open),
    decreases a.len(),
{
    let all = a + seq!['\n'] + b;
    let end = close + seq!['\n'] + open + chalk::encased(b, close, open);
    if a.len() == 0 {
        assert(all[0] == '\n');
        assert(all.skip(1) =~= b);
        assert(chalk::encased(all, close, open) =~= chalk::encased(a, close, open) + close
            + seq!['\n'] + open + chalk::encased(b, close, open));
    } else {
        assert(all[0] == a[0]);
        let step: int = if a[0] == '\r' && a.len() > 1 && a[1] == '\n' {
            2
        } else {
            1
        };
        assert(a.len() > 1 ==> all[1] == a[1]);
        assert(all.skip(step) =~= a.skip(step) + seq!['\n'] + b);
        assert(a.skip(step).len() > 0 ==> a.skip(step).last() == a.last());
        encased_splits(a.skip(step), b, close, open);
        assert(chalk::encased(all, close, open) =~= chalk::encased(a, close, open) + close
            + seq!['\n'] + open + chalk::encased(b, close, open));
    }
}

/// Each line of a text is styled by itself: no style is open across a line
/// break.
pub proof fn lines_are_styled_apart(chalk: ChalkView, a: Seq<char>, b: Seq<char>)
    requires
        well_formed(chalk),
        chalk.level > 0,
        a.len() > 0,
        b.len() > 0,
        a.last() != '\r',
        forall|i: int| 0 <= i < a.len() ==> a[i] != ESC,
        forall|i: int| 0 <= i < b.len() ==> b[i] != ESC,
    ensures
        chalk::styled(chalk, a + seq!['\n'] + b) == chalk::styled(chalk, a) + seq!['\n']
            + chalk::styled(chalk, b),
{
    if chalk.layers.len() > 0 {
        let all = a + seq!['\n'] + b;
        let open = chalk::open_all(chalk.layers);
        let close = chalk::close_all(chalk.layers);
        nothing_to_reopen(a, chalk.layers);
        nothing_to_reopen(b, chalk.layers);
        nothing_to_reopen(all, chalk.layers);
        encased_splits(a, b, close, open);
        assert(chalk::styled(chalk, all) =~= chalk::styled(chalk, a) + seq!['\n']
            + chalk::styled(chalk, b));
    }
}

/// Up to the next escape character a text with its closing sequences reopened
/// is the text itself.
proof fn reopened_keeps_other_chars(t: Seq<char>, part: Seq<char>, by: Seq<char>, k: int)
    requires
        part.len() > 0,
        part[0] == ESC,
        by.len() > 0,
        by[0] == ESC,
        0 <= k <= chars::replace_all(t, part, by).len(),
        forall|i: int| 0 <= i < k ==> chars::replace_all(t, part, by)[i] != ESC,
    ensures
        k <= t.len(),
        forall|i: int| 0 <= i < k ==> chars::replace_all(t, part, by)[i] == t[i],
    decreases t.len(),
{
    let r = chars::replace_all(t, part, by);
    if k > 0 && t.len() >= part.len() {
        if t.take(part.len() as int) == part {
            assert(r[0] == by[0]);
        } else {
            let rest = chars::replace_all(t.skip(1), part, by);
            assert(r == seq![t[0]] + rest);
            assert forall|i: int| 0 <= i < k - 1 implies rest[i] != ESC by {
                assert(r[i + 1] == rest[i]);
            }
            reopened_keeps_other_chars(t.skip(1), part, by, k - 1);
            assert forall|i: int| 0 <= i < k implies r[i] == t[i] by {
                if i > 0 {
                    assert(r[i] == rest[i - 1]);
                    assert(t.skip(1)[i - 1] == t[i]);
                }
            }
        }
    }
}

/// The only escape character of an escape sequence is its first character,
/// and its only final character its last.
proof fn sgr_inner_chars(q: Seq<char>, i: int)
    requires
        is_sgr(q),
        0 < i < q.len(),
    ensures
        q[i] != ESC,
        i < q.len() - 1 ==> q[i] != 'm',
{
    if 2 <= i < q.len() - 1 {
        assert(parameter_char(q[i]));
    }
}

/// One escape sequence in front of a text is not another one.
proof fn different_sgr_do_not_match(open: Seq<char>, close: Seq<char>, t: Seq<char>)
    requires
        is_sgr(open),
        is_sgr(close),
        open != close,
    ensures
        !chars::occurs_at(open + t, close, 0),
{
    if chars::occurs_at(open + t, close, 0) {
        let s = open + t;
        let cut = s.subrange(0, close.len() as int);
        assert forall|i: int| 0 <= i < close.len() implies s[i] == close[i] by {
            assert(cut[i] == s[i]);
        }
        if close.len() < open.len() {
            let i = close.len() - 1;
            assert(s[i] == open[i]);
            sgr_inner_chars(open, i);
        } else if open.len() < close.len() {
            let i = open.len() - 1;
            assert(s[i] == open[i]);
            sgr_inner_chars(close, i);
        } else {
            assert(open =~= close);
        }
    }
}

/// A closing sequence inside a styled text does not end the style round it:
/// wherever the sequence that closes a style stands in the text with its
/// closing sequences reopened, the sequence that opens the style follows.
pub proof fn closes_are_reopened(input: Seq<char>, layer: LayerView, i: int)
    requires
        is_sgr(layer.open),
        is_sgr(layer.close),
        layer.open != layer.close,
        chars::occurs_at(chalk::reopened(input, seq![layer]), layer.close, i),
    ensures
        chars::occurs_at(
            chalk::reopened(input, seq![layer]),
            layer.open,
            i + layer.close.len(),
        ),
{
    let by = layer.close + layer.open;
    assert(seq![layer].drop_last() =~= Seq::empty());
    assert(seq![layer].last() == layer);
    assert(chalk::reopened(input, seq![layer]) == chars::replace_all(input, layer.close, by)) by {
        reveal_with_fuel(chalk::reopened, 2);
    }
    reopened_at(input, layer, i);
}

/// The step behind [`closes_are_reopened`], on the text that is left.
proof fn reopened_at(s: Seq<char>, layer: LayerView, i: int)
    requires
        is_sgr(layer.open),
        is_sgr(layer.close),
        layer.open != layer.close,
        chars::occurs_at(
            chars::replace_all(s, layer.close, layer.close + layer.open),
            layer.close,
            i,
        ),
    ensures
        chars::occurs_at(
            chars::replace_all(s, layer.close, layer.close + layer.open),
            layer.open,
            i + layer.close.len(),
        ),
    decreases s.len(),
{
    let open = layer.open;
    let close = layer.close;
    let by = close + open;
    let r = chars::replace_all(s, close, by);
    let n = close.len() as int;
    assert(r.subrange(i, i + n)[0] == r[i]);
    assert(r[i] == ESC);
    if s.len() < n {
        assert(r.subrange(i, i + n) =~= close);
        assert(false);
    } else if s.take(n) == close {
        let rest = chars::replace_all(s.skip(n), close, by);
        assert(r == by + rest);
        if i == 0 {
            assert(r.subrange(n, n + open.len()) =~= open);
        } else if i < n {
            sgr_inner_chars(close, i);
            assert(r[i] == close[i]);
        } else if i == n {
            different_sgr_do_not_match(open, close, rest);
            assert((open + rest).subrange(0, n) =~= r.subrange(i, i + n));
        } else if i < by.len() {
            sgr_inner_chars(open, i - n);
            assert(r[i] == open[i - n]);
        } else {
            let j = i - by.len();
            assert(rest.subrange(j, j + n) =~= r.subrange(i, i + n));
            reopened_at(s.skip(n), layer, j);
            assert(rest.subrange(j + n, j + n + open.len()) =~= r.subrange(
                i + n,
                i + n + open.len(),
            ));
        }
    } else {
        let rest = chars::replace_all(s.skip(1), close, by);
        assert(r == seq![s[0]] + rest);
        if i == 0 {
            let cut = r.subrange(0, n);
            assert forall|k: int| 0 <= k < n - 1 implies rest[k] != ESC by {
                assert(cut[k + 1] == rest[k]);
                sgr_inner_chars(close, k + 1);
            }
            reopened_keeps_other_chars(s.skip(1), close, by, n - 1);
            assert forall|k: int| 0 <= k < n implies s.take(n)[k] == close[k] by {
                assert(cut[k] == r[k]);
                if k > 0 {
                    assert(r[k] == rest[k - 1]);
                    assert(s.skip(1)[k - 1] == s[k]);
                }
            }
            assert(s.take(n) =~= close);
        } else {
            assert(rest.subrange(i - 1, i - 1 + n) =~= r.subrange(i, i + n));
            reopened_at(s.skip(1), layer, i - 1);
            assert(rest.subrange(i - 1 + n, i - 1 + n + open.len()) =~= r.subrange(
                i + n,
                i + n + open.len(),
            ));
        }
    }
}

/// The opening sequences of the layers that a given sequence closes, from the
/// outermost in.
pub open spec fn opens_closed_by(layers: Seq<LayerView>, close: Seq<char>) -> Seq<char>
    decreases layers.len(),
{
    if layers.len() == 0 {
        Seq::empty()
    } else {
        let before = opens_closed_by(layers.drop_last(), close);
        if layers.last().close == close {
            before + layers.last().open
        } else {
            before
        }
    }
}

/// Whether no layer opens with a sequence that closes a layer.
pub open spec fn opens_are_no_closes(layers: Seq<LayerView>) -> bool {
    forall|i: int, j: int|
        0 <= i < layers.len() && 0 <= j < layers.len() ==> (#[trigger] layers[i]).open != (
        #[trigger] layers[j]).close
}

/// Whether each `close` in `s` is directly followed by `next`.
pub open spec fn followed_by(s: Seq<char>, close: Seq<char>, next: Seq<char>) -> bool {
    forall|i: int| #[trigger]
        chars::occurs_at(s, close, i) ==> chars::occurs_at(s, next, i + close.len())
}

/// The back of a text keeps what follows its closing sequences.
proof fn followed_at_the_back(s: Seq<char>, close: Seq<char>, next: Seq<char>, n: int)
    requires
        followed_by(s, close, next),
        0 <= n <= s.len(),
    ensures
        followed_by(s.skip(n), close, next),
{
    let t = s.skip(n);
    assert forall|i: int| #[trigger] chars::occurs_at(t, close, i) implies chars::occurs_at(
        t,
        next,
        i + close.len(),
    ) by {
        assert(s.subrange(n + i, n + i + close.len()) =~= t.subrange(i, i + close.len()));
        assert(chars::occurs_at(s, close, n + i));
        let k = n + i + close.len();
        assert(t.subrange(i + close.len(), i + close.len() + next.len()) =~= s.subrange(
            k,
            k + next.len(),
        ));
    }
}

/// The opening sequences of layers are passed over when a closing sequence is
/// looked for.
proof fn replace_passes_opens(
    layers: Seq<LayerView>,
    close: Seq<char>,
    t: Seq<char>,
    part: Seq<char>,
    by: Seq<char>,
)
    requires
        layers_are_sgr(layers),
        is_sgr(part),
        forall|i: int| 0 <= i < layers.len() ==> (#[trigger] layers[i]).open != part,
    ensures
        chars::replace_all(opens_closed_by(layers, close) + t, part, by) == opens_closed_by(
            layers,
            close,
        ) + chars::replace_all(t, part, by),
    decreases layers.len(),
{
    let opens = opens_closed_by(layers, close);
    if layers.len() == 0 {
        assert(opens + t =~= t);
        assert(opens + chars::replace_all(t, part, by) =~= chars::replace_all(t, part, by));
    } else {
        let last = layers.last();
        let before = opens_closed_by(layers.drop_last(), close);
        assert(layers[layers.len() - 1] == last);
        if last.close == close {
            replace_passes_opens(layers.drop_last(), close, last.open + t, part, by);
            replace_passes_sgr(last.open, t, part, by);
            assert(opens + t =~= before + (last.open + t));
            assert(opens + chars::replace_all(t, part, by) =~= before + (last.open
                + chars::replace_all(t, part, by)));
        } else {
            replace_passes_opens(layers.drop_last(), close, t, part, by);
        }
    }
}

/// Reopening one layer puts its opening sequence before what follows the
/// closing sequence, and leaves what follows other closing sequences alone.
proof fn reopening_puts_the_open_first(
    s: Seq<char>,
    layer: LayerView,
    close: Seq<char>,
    done: Seq<LayerView>,
)
    requires
        is_sgr(layer.open),
        is_sgr(layer.close),
        is_sgr(close),
        layers_are_sgr(done),
        layer.open != close,
        layer.open != layer.close,
        forall|i: int| 0 <= i < done.len() ==> (#[trigger] done[i]).open != layer.close,
        followed_by(s, close, opens_closed_by(done, close)),
    ensures
        followed_by(
            chars::replace_all(s, layer.close, layer.close + layer.open),
            close,
            if layer.close == close {
                layer.open + opens_closed_by(done, close)
            } else {
                opens_closed_by(done, close)
            },
        ),
    decreases s.len(),
{
    let part = layer.close;
    let open = layer.open;
    let by = part + open;
    let opens = opens_closed_by(done, close);
    let next = if part == close {
        open + opens
    } else {
        opens
    };
    let r = chars::replace_all(s, part, by);
    let n = part.len() as int;
    let m = close.len() as int;
    assert forall|i: int| #[trigger] chars::occurs_at(r, close, i) implies chars::occurs_at(
        r,
        next,
        i + m,
    ) by {
        assert(r.subrange(i, i + m)[0] == r[i]);
        assert(r[i] == ESC);
        if s.len() < n {
            if part == close {
                assert(r.subrange(i, i + m) =~= close);
            } else {
                assert(r == s);
                assert(chars::occurs_at(s, close, i));
            }
        } else if s.take(n) == part {
            let rest = chars::replace_all(s.skip(n), part, by);
            assert(r == by + rest);
            if i == 0 {
                if part != close {
                    different_sgr_do_not_match(part, close, open + rest);
                    assert(part + (open + rest) =~= r);
                } else {
                    // The text goes on with what followed the closing sequence.
                    assert(s.subrange(0, m) =~= close);
                    assert(chars::occurs_at(s, close, 0));
                    assert(s.subrange(m, m + opens.len()) =~= opens);
                    let t = s.skip(m + opens.len());
                    assert(s.skip(n) =~= opens + t);
                    replace_passes_opens(done, close, t, part, by);
                    assert(r.subrange(m, m + next.len()) =~= next);
                }
            } else if i < n {
                sgr_inner_chars(part, i);
                assert(r[i] == part[i]);
            } else if i == n {
                different_sgr_do_not_match(open, close, rest);
                assert((open + rest).subrange(0, m) =~= r.subrange(i, i + m));
            } else if i < by.len() {
                sgr_inner_chars(open, i - n);
                assert(r[i] == open[i - n]);
            } else {
                let j = i - by.len();
                followed_at_the_back(s, close, opens, n);
                reopening_puts_the_open_first(s.skip(n), layer, close, done);
                assert(rest.subrange(j, j + m) =~= r.subrange(i, i + m));
                assert(chars::occurs_at(rest, close, j));
                assert(rest.subrange(j + m, j + m + next.len()) =~= r.subrange(
                    i + m,
                    i + m + next.len(),
                ));
            }
        } else {
            let rest = chars::replace_all(s.skip(1), part, by);
            assert(r == seq![s[0]] + rest);
            if i > 0 {
                followed_at_the_back(s, close, opens, 1);
                reopening_puts_the_open_first(s.skip(1), layer, close, done);
                assert(rest.subrange(i - 1, i - 1 + m) =~= r.subrange(i, i + m));
                assert(chars::occurs_at(rest, close, i - 1));
                assert(rest.subrange(i - 1 + m, i - 1 + m + next.len()) =~= r.subrange(
                    i + m,
                    i + m + next.len(),
                ));
            } else {
                let cut = r.subrange(0, m);
                assert forall|k: int| 0 <= k < m - 1 implies rest[k] != ESC by {
                    assert(cut[k + 1] == rest[k]);
                    sgr_inner_chars(close, k + 1);
                }
                reopened_keeps_other_chars(s.skip(1), part, by, m - 1);
                assert forall|k: int| 0 <= k < m implies s.take(m)[k] == close[k] by {
                    assert(cut[k] == r[k]);
                    if k > 0 {
                        assert(r[k] == rest[k - 1]);
                        assert(s.skip(1)[k - 1] == s[k]);
                    }
                }
                assert(s.take(m) =~= close);
                assert(part != close);
                assert(s.subrange(0, m) =~= close);
                assert(chars::occurs_at(s, close, 0));
                assert(s.subrange(m, m + opens.len()) =~= opens);
                let t = s.skip(m + opens.len());
                assert(s =~= close + (opens + t));
                replace_passes_sgr(close, opens + t, part, by);
                replace_passes_opens(done, close, t, part, by);
                assert(r.subrange(m, m + opens.len()) =~= opens);
            }
        }
    }
}

/// The opening sequences of layers in two groups.
proof fn opens_in_two_groups(outer: Seq<LayerView>, inner: Seq<LayerView>, close: Seq<char>)
    ensures
        opens_closed_by(outer + inner, close) == opens_closed_by(outer, close) + opens_closed_by(
            inner,
            close,
        ),
    decreases inner.len(),
{
    if inner.len() == 0 {
        assert(outer + inner =~= outer);
        assert(opens_closed_by(outer, close) + Seq::<char>::empty() =~= opens_closed_by(
            outer,
            close,
        ));
    } else {
        opens_in_two_groups(outer, inner.drop_last(), close);
        assert((outer + inner).drop_last() =~= outer + inner.drop_last());
        assert(opens_closed_by(outer + inner, close) =~= opens_closed_by(outer, close)
            + opens_closed_by(inner, close));
    }
}

/// The step behind [`every_close_is_reopened`]: the layers in `done` are
/// reopened already.
proof fn reopening_goes_on(
    s: Seq<char>,
    layers: Seq<LayerView>,
    done: Seq<LayerView>,
    close: Seq<char>,
)
    requires
        is_sgr(close),
        layers_are_sgr(layers + done),
        opens_are_no_closes(layers + done),
        forall|i: int| 0 <= i < layers.len() ==> (#[trigger] layers[i]).open != close,
        followed_by(s, close, opens_closed_by(done, close)),
    ensures
        followed_by(
            chalk::reopened(s, layers),
            close,
            opens_closed_by(layers + done, close),
        ),
    decreases layers.len(),
{
    let all = layers + done;
    if layers.len() == 0 {
        assert(all =~= done);
    } else {
        let n = layers.len() - 1;
        let layer = layers.last();
        let rest = layers.drop_last();
        let more = seq![layer] + done;
        let next = chars::replace_all(s, layer.close, layer.close + layer.open);
        assert(all[n] == layer && layers[n] == layer);
        assert forall|i: int| 0 <= i < done.len() implies (#[trigger] done[i]).open != layer.close
            && is_sgr(done[i].open) && is_sgr(done[i].close) by {
            assert(all[layers.len() + i] == done[i]);
        }
        reopening_puts_the_open_first(s, layer, close, done);
        opens_in_two_groups(seq![layer], done, close);
        assert(seq![layer].drop_last() =~= Seq::empty());
        assert(opens_closed_by(seq![layer].drop_last(), close) =~= Seq::empty());
        assert(opens_closed_by(more, close) =~= if layer.close == close {
            layer.open + opens_closed_by(done, close)
        } else {
            opens_closed_by(done, close)
        });
        assert(rest + more =~= all);
        assert forall|i: int| 0 <= i < rest.len() implies (#[trigger] rest[i]).open != close by {
            assert(layers[i] == rest[i]);
        }
        reopening_goes_on(next, rest, more, close);
    }
}

/// A closing sequence inside a text does not end any of the styles round it,
/// however many there are: wherever the sequence that closes a style stands in
/// the text with its closing sequences reopened, the opening sequences of all
/// the styles that it closes follow directly, from the outermost in.
pub proof fn every_close_is_reopened(
    input: Seq<char>,
    layers: Seq<LayerView>,
    k: int,
    i: int,
)
    requires
        layers_are_sgr(layers),
        opens_are_no_closes(layers),
        0 <= k < layers.len(),
        chars::occurs_at(chalk::reopened(input, layers), layers[k].close, i),
    ensures
        chars::occurs_at(
            chalk::reopened(input, layers),
            opens_closed_by(layers, layers[k].close),
            i + layers[k].close.len(),
        ),
{
    let close = layers[k].close;
    let none = Seq::<LayerView>::empty();
    assert(layers + none =~= layers);
    assert(opens_closed_by(none, close) =~= Seq::empty());
    assert forall|j: int| #[trigger] chars::occurs_at(input, close, j) implies chars::occurs_at(
        input,
        Seq::empty(),
        j + close.len(),
    ) by {
        assert(input.subrange(j + close.len(), j + close.len()) =~= Seq::empty());
    }
    reopening_goes_on(input, layers, none, close);
}

/// Where no two styles are closed by the same sequence, each closing sequence
/// is directly followed by the opening sequence of its own style.
pub proof fn each_close_is_followed_by_its_open(
    input: Seq<char>,
    layers: Seq<LayerView>,
    k: int,
    i: int,
)
    requires
        layers_are_sgr(layers),
        opens_are_no_closes(layers),
        forall|a: int, b: int|
            0 <= a < b < layers.len() ==> (#[trigger] layers[a]).close != (
            #[trigger] layers[b]).close,
        0 <= k < layers.len(),
        chars::occurs_at(chalk::reopened(input, layers), layers[k].close, i),
    ensures
        chars::occurs_at(
            chalk::reopened(input, layers),
            layers[k].open,
            i + layers[k].close.len(),
        ),
{
    every_close_is_reopened(input, layers, k, i);
    only_one_open_is_closed(layers, k);
}

/// One style has a closing sequence of its own.
proof fn only_one_open_is_closed(layers: Seq<LayerView>, k: int)
    requires
        0 <= k < layers.len(),
        forall|a: int, b: int|
            0 <= a < b < layers.len() ==> (#[trigger] layers[a]).close != (
            #[trigger] layers[b]).close,
    ensures
        opens_closed_by(layers, layers[k].close) == layers[k].open,
    decreases layers.len(),
{
    let n = layers.len() - 1;
    let first = layers.drop_last();
    let close = layers[k].close;
    assert forall|a: int, b: int| 0 <= a < b < first.len() implies (#[trigger] first[a]).close != (
    #[trigger] first[b]).close by {
        assert(layers[a].close != layers[b].close);
    }
    if k < n {
        only_one_open_is_closed(first, k);
        assert(first[k] == layers[k]);
        assert(layers[k].close != layers[n].close);
    } else {
        assert forall|a: int| 0 <= a < first.len() implies (#[trigger] first[a]).close != close by {
            assert(layers[a].close != layers[n].close);
        }
        no_open_is_closed(first, close);
        assert(Seq::<char>::empty() + layers[n].open =~= layers[n].open);
    }
}

/// A sequence that closes none of the styles closes nothing.
proof fn no_open_is_closed(layers: Seq<LayerView>, close: Seq<char>)
    requires
        forall|a: int| 0 <= a < layers.len() ==> (#[trigger] layers[a]).close != close,
    ensures
        opens_closed_by(layers, close) == Seq::<char>::empty(),
    decreases layers.len(),
{
    if layers.len() > 0 {
        assert(layers[layers.len() - 1].close != close);
        assert forall|a: int| 0 <= a < layers.drop_last().len() implies (
        #[trigger] layers.drop_last()[a]).close != close by {
            assert(layers[a].close != close);
        }
        no_open_is_closed(layers.drop_last(), close);
    }
}

/// A text on one line without escape characters.
pub open spec fn plain_line(s: Seq<char>) -> bool {
    s.len() > 0 && forall|i: int|
        0 <= i < s.len() ==> #[trigger] s[i] != ESC && s[i] != '\n' && s[i] != '\r'
}

/// A plain line has no line break to encase.
proof fn nothing_to_encase(s: Seq<char>, close: Seq<char>, open: Seq<char>)
    requires
        forall|i: int| 0 <= i < s.len() ==> s[i] != '\n' && s[i] != '\r',
    ensures
        chalk::encased(s, close, open) == s,
{
    encased_passes(s, Seq::empty(), close, open);
    assert(s + Seq::<char>::empty() =~= s);
}

/// A single style stands round a plain line: its opening sequence before it,
/// its closing sequence behind it, and nothing else.
pub proof fn one_style_stands_round_the_text(
    level: ColorLevel,
    layer: LayerView,
    visible_only: bool,
    input: Seq<char>,
)
    requires
        0 < level <= 3,
        is_sgr(layer.open),
        is_sgr(layer.close),
        plain_line(input),
    ensures
        chalk::styled(ChalkView { level, layers: seq![layer], visible_only }, input) == layer.open
            + input + layer.close,
{
    let layers = seq![layer];
    let chalk = ChalkView { level, layers, visible_only };
    nothing_to_reopen(input, layers);
    nothing_to_encase(input, chalk::close_all(layers), chalk::open_all(layers));
    one_layer_alone(layer);
    assert(layers_are_sgr(layers));
}

/// What opens and closes a single layer.
proof fn one_layer_alone(layer: LayerView)
    ensures
        chalk::open_all(seq![layer]) == layer.open,
        chalk::close_all(seq![layer]) == layer.close,
{
    let layers = seq![layer];
    assert(layers.drop_last() =~= Seq::empty());
    assert(chalk::open_all(layers.drop_last()) =~= Seq::empty());
    assert(chalk::close_all(layers.drop_last()) =~= Seq::empty());
    assert(chalk::open_all(layers) =~= layer.open);
    assert(chalk::close_all(layers) =~= layer.close);
}

/// A chain of styles is styles inside each other: the styler with one more
/// layer makes of a plain line what the styler makes of the line with that
/// layer round it. The first style of a chain is the outermost.
pub proof fn chains_are_styles_inside_each_other(
    chalk: ChalkView,
    layer: LayerView,
    input: Seq<char>,
)
    requires
        chalk.level > 0,
        layers_are_sgr(chalk.layers.push(layer)),
        forall|i: int|
            0 <= i < chalk.layers.len() ==> (#[trigger] chalk.layers[i]).close != layer.close
                && chalk.layers[i].close != layer.open,
        plain_line(input),
    ensures
        chalk::styled(chalk.with(layer.open, layer.close), input) == chalk::styled(
            chalk,
            layer.open + input + layer.close,
        ),
{
    let layers = chalk.layers;
    let more = layers.push(layer);
    let inner = layer.open + input + layer.close;
    assert(chalk.with(layer.open, layer.close).layers =~= more);
    assert(more.drop_last() =~= layers);
    assert(more[layers.len() as int] == layer);
    assert forall|i: int| 0 <= i < layers.len() implies is_sgr((#[trigger] layers[i]).open)
        && is_sgr(layers[i].close) by {
        assert(more[i] == layers[i]);
    }
    nothing_to_reopen(input, more);
    nothing_to_encase(input, chalk::close_all(more), chalk::open_all(more));
    no_line_breaks_in_sgr(layer.open);
    no_line_breaks_in_sgr(layer.close);
    nothing_to_encase(inner, chalk::close_all(layers), chalk::open_all(layers));
    other_styles_are_left_alone(layer, input, layers);
    assert(inner.len() > 0);
    if layers.len() == 0 {
        assert(chalk::open_all(layers) =~= Seq::empty());
        assert(chalk::close_all(layers) =~= Seq::empty());
    }
    assert(chalk::open_all(more) + input + chalk::close_all(more) =~= chalk::open_all(layers)
        + inner + chalk::close_all(layers));
}

/// An escape sequence stands on one line.
proof fn no_line_breaks_in_sgr(q: Seq<char>)
    requires
        is_sgr(q),
    ensures
        forall|i: int| 0 <= i < q.len() ==> q[i] != '\n' && q[i] != '\r',
{
    assert forall|i: int| 0 <= i < q.len() implies q[i] != '\n' && q[i] != '\r' by {
        if 2 <= i < q.len() - 1 {
            assert(parameter_char(q[i]));
        }
    }
}

/// A style inside others that close otherwise has nothing of theirs to
/// reopen.
proof fn other_styles_are_left_alone(layer: LayerView, input: Seq<char>, layers: Seq<LayerView>)
    requires
        is_sgr(layer.open),
        is_sgr(layer.close),
        layers_are_sgr(layers),
        plain_line(input),
        forall|i: int|
            0 <= i < layers.len() ==> (#[trigger] layers[i]).close != layer.close
                && layers[i].close != layer.open,
    ensures
        chalk::reopened(layer.open + input + layer.close, layers) == layer.open + input
            + layer.close,
    decreases layers.len(),
{
    if layers.len() > 0 {
        let last = layers.last();
        let part = last.close;
        let by = last.close + last.open;
        let none = Seq::<char>::empty();
        assert(layers[layers.len() - 1] == last);
        replace_passes_sgr(layer.close, none, part, by);
        replace_passes(input, layer.close + none, part, by);
        replace_passes_sgr(layer.open, input + (layer.close + none), part, by);
        assert(chars::replace_all(none, part, by) == none);
        assert(layer.open + (input + (layer.close + none)) =~= layer.open + input + layer.close);
        assert forall|i: int| 0 <= i < layers.drop_last().len() implies (
        #[trigger] layers.drop_last()[i]).close != layer.close && layers.drop_last()[i].close
            != layer.open by {
            assert(layers[i].close != layer.close);
        }
        other_styles_are_left_alone(layer, input, layers.drop_last());
    }
}

/// Each line of a text that ends its lines with a carriage return and a line
/// feed is styled by itself as well: the two stay together outside the styles.
pub proof fn lines_with_carriage_returns_are_styled_apart(
    chalk: ChalkView,
    a: Seq<char>,
    b: Seq<char>,
)
    requires
        well_formed(chalk),
        chalk.level > 0,
        plain_line(a),
        plain_line(b),
    ensures
        chalk::styled(chalk, a + seq!['\r', '\n'] + b) == chalk::styled(chalk, a) + seq!['\r', '\n']
            + chalk::styled(chalk, b),
{
    if chalk.layers.len() > 0 {
        let open = chalk::open_all(chalk.layers);
        let close = chalk::close_all(chalk.layers);
        let mark = seq!['\r', '\n'];
        let all = a + mark + b;
        nothing_to_reopen(a, chalk.layers);
        nothing_to_reopen(b, chalk.layers);
        nothing_to_reopen(all, chalk.layers);
        nothing_to_encase(a, close, open);
        nothing_to_encase(b, close, open);
        encased_passes(a, mark + b, close, open);
        assert(a + (mark + b) =~= all);
        assert((mark + b).skip(2) =~= b);
        assert(chalk::styled(chalk, all) =~= chalk::styled(chalk, a) + mark + chalk::styled(
            chalk,
            b,
        ));
    }
}

/// A style that is added later stands inside the others: it is opened last and
/// closed first. The level, and whether the text is dropped without colors,
/// stay.
pub proof fn later_styles_stand_inside(
    chalk: ChalkView,
    open: Seq<char>,
    close: Seq<char>,
    input: Seq<char>,
)
    requires
        0 < chalk.level <= 3,
        layers_are_sgr(chalk.layers),
        is_sgr(open),
        is_sgr(close),
        plain_line(input),
    ensures
        chalk::styled(chalk.with(open, close), input) == chalk::open_all(chalk.layers) + open
            + input + close + chalk::close_all(chalk.layers),
        chalk.with(open, close).level == chalk.level,
        chalk.with(open, close).visible_only == chalk.visible_only,
{
    let next = chalk.with(open, close);
    let layers = next.layers;
    assert(layers.drop_last() =~= chalk.layers);
    assert(layers.last() == (LayerView { open, close }));
    assert forall|i: int| 0 <= i < layers.len() implies is_sgr((#[trigger] layers[i]).open)
        && is_sgr(layers[i].close) by {
        if i < chalk.layers.len() {
            assert(layers[i] == chalk.layers[i]);
        }
    }
    assert(layers_are_sgr(layers));
    nothing_to_reopen(input, layers);
    nothing_to_encase(input, chalk::close_all(layers), chalk::open_all(layers));
    assert(chalk::styled(next, input) =~= chalk::open_all(chalk.layers) + open + input + close
        + chalk::close_all(chalk.layers));
}

/// Each kind of color is closed by the sequence that restores its default: 39
/// for the text, 49 for what is behind it and 59 for the line under it. A
/// style of two codes is opened by the first of them and closed by the second.
pub proof fn colors_are_closed_by_their_kind(
    chalk: ChalkView,
    open: Seq<char>,
    first: u8,
    second: u8,
)
    ensures
        chalk.with_fg(open).layers == chalk.layers.push(LayerView { open, close: "\u{1b}[39m"@ }),
        chalk.with_bg(open).layers == chalk.layers.push(LayerView { open, close: "\u{1b}[49m"@ }),
        chalk.with_underline(open).layers == chalk.layers.push(
            LayerView { open, close: "\u{1b}[59m"@ },
        ),
        chalk.with_codes(first, second).layers == chalk.layers.push(
            LayerView {
                open: "\u{1b}["@ + chars::decimal(first as nat) + "m"@,
                close: "\u{1b}["@ + chars::decimal(second as nat) + "m"@,
            },
        ),
{
    reveal_with_fuel(chars::decimal, 3);
    reveal_strlit("\u{1b}[");
    reveal_strlit("m");
    reveal_strlit("\u{1b}[39m");
    reveal_strlit("\u{1b}[49m");
    reveal_strlit("\u{1b}[59m");
    assert("\u{1b}[39m"@ =~= styles::sgr_code(39));
    assert("\u{1b}[49m"@ =~= styles::sgr_code(49));
    assert("\u{1b}[59m"@ =~= styles::sgr_code(59));
}

} // verus!
