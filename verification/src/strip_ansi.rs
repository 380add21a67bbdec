//! Terminal escape sequences inside a text: where they end, and the text
//! without them.
use crate::chars::{chars_of, push_char};
use vstd::prelude::*;

verus! {

/// The escape character.
pub const ESC: char = '\u{1b}';

/// The bell character.
pub const BEL: char = '\u{7}';

/// Where a string control ends that is under way at position `at` of `s`:
/// behind the bell, or behind the backslash after an escape character.
/// `escaped` tells whether the character before `at` is an escape character.
pub open spec fn string_control_end(s: Seq<char>, at: int, escaped: bool) -> int
    decreases s.len() - at,
{
    if at < 0 || at >= s.len() {
        s.len() as int
    } else if s[at] == BEL || (escaped && s[at] == '\\') {
        at + 1
    } else {
        string_control_end(s, at + 1, s[at] == ESC)
    }
}

/// Where a control sequence ends whose parameters begin at position `at` of
/// `s`: behind its final character.
pub open spec fn control_sequence_end(s: Seq<char>, at: int) -> int
    decreases s.len() - at,
{
    if at < 0 || at >= s.len() {
        s.len() as int
    } else if '\u{40}' <= s[at] <= '\u{7e}' {
        at + 1
    } else {
        control_sequence_end(s, at + 1)
    }
}

/// Whether a string control begins with `c` behind its escape character.
pub open spec fn opens_string_control(c: char) -> bool {
    c == ']' || c == 'P' || c == '_' || c == '^' || c == 'X'
}

/// Where the escape sequence ends whose escape character stands right before
/// position `at` of `s`.
pub open spec fn escape_end(s: Seq<char>, at: int) -> int {
    if at < 0 || at >= s.len() {
        s.len() as int
    } else if s[at] == '[' {
        control_sequence_end(s, at + 1)
    } else if opens_string_control(s[at]) {
        string_control_end(s, at + 1, false)
    } else {
        at + 1
    }
}

/// A string control ends behind its position and inside the text.
proof fn string_control_end_bounds(s: Seq<char>, at: int, escaped: bool)
    requires
        0 <= at <= s.len(),
    ensures
        at <= string_control_end(s, at, escaped) <= s.len(),
    decreases s.len() - at,
{
    if at < s.len() && !(s[at] == BEL || (escaped && s[at] == '\\')) {
        string_control_end_bounds(s, at + 1, s[at] == ESC);
    }
}

/// A control sequence ends behind its position and inside the text.
proof fn control_sequence_end_bounds(s: Seq<char>, at: int)
    requires
        0 <= at <= s.len(),
    ensures
        at <= control_sequence_end(s, at) <= s.len(),
    decreases s.len() - at,
{
    if at < s.len() && !('\u{40}' <= s[at] <= '\u{7e}') {
        control_sequence_end_bounds(s, at + 1);
    }
}

/// An escape sequence ends behind its position and inside the text.
pub proof fn escape_end_bounds(s: Seq<char>, at: int)
    requires
        0 <= at <= s.len(),
    ensures
        at <= escape_end(s, at) <= s.len(),
        at < s.len() ==> at < escape_end(s, at),
{
    if at < s.len() {
        control_sequence_end_bounds(s, at + 1);
        string_control_end_bounds(s, at + 1, false);
    }
}

/// The characters of `s` from position `at` on that belong to no escape
/// sequence.
pub open spec fn plain_from(s: Seq<char>, at: int) -> Seq<char>
    decreases s.len() - at,
    when 0 <= at
    via plain_from_shrinks
{
    if at >= s.len() {
        Seq::empty()
    } else if s[at] == ESC {
        plain_from(s, escape_end(s, at + 1))
    } else {
        seq![s[at]] + plain_from(s, at + 1)
    }
}

#[via_fn]
proof fn plain_from_shrinks(s: Seq<char>, at: int) {
    if 0 <= at < s.len() {
        escape_end_bounds(s, at + 1);
    }
}

/// `s` without its escape sequences.
pub open spec fn plain(s: Seq<char>) -> Seq<char> {
    plain_from(s, 0)
}

/// Skips a string control from position `at` on.
pub fn skip_ansi_string_control(s: &Vec<char>, at: usize) -> (r: usize)
    requires
        at <= s@.len(),
    ensures
        r == string_control_end(s@, at as int, false),
        at <= r <= s@.len(),
{
    let mut i: usize = at;
    let mut escaped = false;
    while i < s.len()
        invariant
            at <= i <= s@.len(),
            string_control_end(s@, at as int, false) == string_control_end(
                s@,
                i as int,
                escaped,
            ),
        decreases s@.len() - i,
    {
        let c = s[i];
        if c == BEL || (escaped && c == '\\') {
            return i + 1;
        }
        escaped = c == ESC;
        i = i + 1;
    }
    i
}

/// Skips an escape sequence whose escape character stands right before
/// position `at`.
pub fn skip_ansi_escape(s: &Vec<char>, at: usize) -> (r: usize)
    requires
        at <= s@.len(),
    ensures
        r == escape_end(s@, at as int),
        at <= r <= s@.len(),
        at < s@.len() ==> at < r,
{
    if at == s.len() {
        return at;
    }
    let kind = s[at];
    if kind == '[' {
        let mut i: usize = at + 1;
        while i < s.len()
            invariant
                at < i <= s@.len(),
                s@[at as int] == '[',
                control_sequence_end(s@, at + 1) == control_sequence_end(s@, i as int),
            decreases s@.len() - i,
        {
            if '\u{40}' <= s[i] && s[i] <= '\u{7e}' {
                return i + 1;
            }
            i = i + 1;
        }
        i
    } else if kind == ']' || kind == 'P' || kind == '_' || kind == '^' || kind == 'X' {
        skip_ansi_string_control(s, at + 1)
    } else {
        at + 1
    }
}

/// A text without its escape sequences.
pub fn strip_ansi(text: &str) -> (r: String)
    ensures
        r@ == plain(text@),
{
    let s = chars_of(text);
    let mut out = String::new();
    let mut i: usize = 0;
    while i < s.len()
        invariant
            s@ == text@,
            i <= s@.len(),
            out@ + plain_from(s@, i as int) == plain(text@),
        decreases s@.len() - i,
    {
        if s[i] == ESC {
            i = skip_ansi_escape(&s, i + 1);
        } else {
            let ghost before = out@;
            push_char(&mut out, s[i]);
            i = i + 1;
            assert(before + (seq![s@[i - 1]] + plain_from(s@, i as int)) =~= out@ + plain_from(
                s@,
                i as int,
            ));
        }
    }
    assert(out@ =~= plain(text@));
    out
}

/// A text without escape characters is left as it is.
pub proof fn plain_of_plain(s: Seq<char>, at: int)
    requires
        0 <= at <= s.len(),
        forall|i: int| at <= i < s.len() ==> s[i] != ESC,
    ensures
        plain_from(s, at) == s.skip(at),
    decreases s.len() - at,
{
    if at < s.len() {
        plain_of_plain(s, at + 1);
        assert(seq![s[at]] + s.skip(at + 1) =~= s.skip(at));
    } else {
        assert(s.skip(at) =~= Seq::empty());
    }
}

/// Nothing is left to strip from a stripped text.
pub proof fn plain_has_no_escapes(s: Seq<char>, at: int)
    requires
        0 <= at,
    ensures
        forall|i: int| 0 <= i < plain_from(s, at).len() ==> plain_from(s, at)[i] != ESC,
    decreases s.len() - at,
{
    if at < s.len() && s[at] == ESC {
        escape_end_bounds(s, at + 1);
        plain_has_no_escapes(s, escape_end(s, at + 1));
        assert(plain_from(s, at) == plain_from(s, escape_end(s, at + 1)));
    } else if at < s.len() {
        plain_has_no_escapes(s, at + 1);
        let rest = plain_from(s, at + 1);
        assert(plain_from(s, at) == seq![s[at]] + rest);
        assert forall|i: int| 0 <= i < plain_from(s, at).len() implies plain_from(s, at)[i]
            != ESC by {
            if i > 0 {
                assert(plain_from(s, at)[i] == rest[i - 1]);
            }
        }
    }
}

/// Stripping a text twice is the same as stripping it once.
pub proof fn stripping_is_idempotent(s: Seq<char>)
    ensures
        plain(plain(s)) == plain(s),
{
    plain_has_no_escapes(s, 0);
    plain_of_plain(plain(s), 0);
    assert(plain(s).skip(0) =~= plain(s));
}

/// What stands before a text has no part in where its escape sequences end.
proof fn ends_do_not_look_back(p: Seq<char>, s: Seq<char>, at: int, escaped: bool)
    requires
        0 <= at <= s.len(),
    ensures
        string_control_end(p + s, p.len() + at, escaped) == p.len()
            + string_control_end(s, at, escaped),
        control_sequence_end(p + s, p.len() + at) == p.len()
            + control_sequence_end(s, at),
    decreases s.len() - at,
{
    if at < s.len() {
        assert((p + s)[p.len() + at] == s[at]);
        ends_do_not_look_back(p, s, at + 1, s[at] == ESC);
    }
}

/// What stands before a text has no part in where an escape sequence in it
/// ends.
pub proof fn escape_end_does_not_look_back(p: Seq<char>, s: Seq<char>, at: int)
    requires
        0 <= at <= s.len(),
    ensures
        escape_end(p + s, p.len() + at) == p.len() + escape_end(s, at),
{
    if at < s.len() {
        assert((p + s)[p.len() + at] == s[at]);
        ends_do_not_look_back(p, s, at + 1, false);
    }
}

/// What stands before a text has no part in what is left of it without its
/// escape sequences.
pub proof fn plain_does_not_look_back(p: Seq<char>, s: Seq<char>, at: int)
    requires
        0 <= at <= s.len(),
    ensures
        plain_from(p + s, p.len() + at) == plain_from(s, at),
    decreases s.len() - at,
{
    if at < s.len() {
        assert((p + s)[p.len() + at] == s[at]);
        if s[at] == ESC {
            escape_end_bounds(s, at + 1);
            escape_end_does_not_look_back(p, s, at + 1);
            plain_does_not_look_back(p, s, escape_end(s, at + 1));
        } else {
            plain_does_not_look_back(p, s, at + 1);
        }
    }
}

/// Whether a string control under way at position `at` of `s` ends inside
/// `s`.
pub open spec fn string_control_closes(s: Seq<char>, at: int, escaped: bool) -> bool
    decreases s.len() - at,
{
    if at < 0 || at >= s.len() {
        false
    } else if s[at] == BEL || (escaped && s[at] == '\\') {
        true
    } else {
        string_control_closes(s, at + 1, s[at] == ESC)
    }
}

/// Whether a control sequence whose parameters begin at position `at` of `s`
/// ends inside `s`.
pub open spec fn control_sequence_closes(s: Seq<char>, at: int) -> bool
    decreases s.len() - at,
{
    if at < 0 || at >= s.len() {
        false
    } else if '\u{40}' <= s[at] <= '\u{7e}' {
        true
    } else {
        control_sequence_closes(s, at + 1)
    }
}

/// Whether the escape sequence ends inside `s` whose escape character stands
/// right before position `at`.
pub open spec fn escape_closes(s: Seq<char>, at: int) -> bool {
    if at < 0 || at >= s.len() {
        false
    } else if s[at] == '[' {
        control_sequence_closes(s, at + 1)
    } else if opens_string_control(s[at]) {
        string_control_closes(s, at + 1, false)
    } else {
        true
    }
}

/// Whether no escape sequence from position `at` of `s` on is cut off by the
/// end of `s`.
pub open spec fn complete_from(s: Seq<char>, at: int) -> bool
    decreases s.len() - at,
    when 0 <= at
    via complete_from_shrinks
{
    if at >= s.len() {
        true
    } else if s[at] == ESC {
        escape_closes(s, at + 1) && complete_from(s, escape_end(s, at + 1))
    } else {
        complete_from(s, at + 1)
    }
}

#[via_fn]
proof fn complete_from_shrinks(s: Seq<char>, at: int) {
    if 0 <= at < s.len() {
        escape_end_bounds(s, at + 1);
    }
}

/// What follows a closed sequence has no part in where it ends.
proof fn closed_ends_do_not_look_ahead(s: Seq<char>, t: Seq<char>, at: int, escaped: bool)
    requires
        0 <= at,
    ensures
        string_control_closes(s, at, escaped) ==> string_control_end(s + t, at, escaped)
            == string_control_end(s, at, escaped),
        control_sequence_closes(s, at) ==> control_sequence_end(s + t, at) == control_sequence_end(
            s,
            at,
        ),
    decreases s.len() - at,
{
    if at < s.len() {
        assert((s + t)[at] == s[at]);
        closed_ends_do_not_look_ahead(s, t, at + 1, s[at] == ESC);
    }
}

/// What follows a closed escape sequence has no part in where it ends.
pub proof fn escape_end_does_not_look_ahead(s: Seq<char>, t: Seq<char>, at: int)
    requires
        0 <= at,
        escape_closes(s, at),
    ensures
        escape_end(s + t, at) == escape_end(s, at),
{
    assert((s + t)[at] == s[at]);
    closed_ends_do_not_look_ahead(s, t, at + 1, false);
}

/// What stands round a text has no part in whether an escape sequence in it is
/// closed.
proof fn closing_stays(p: Seq<char>, s: Seq<char>, t: Seq<char>, at: int, escaped: bool)
    requires
        0 <= at <= s.len(),
    ensures
        string_control_closes(s, at, escaped) ==> string_control_closes(
            p + s + t,
            p.len() + at,
            escaped,
        ),
        control_sequence_closes(s, at) ==> control_sequence_closes(p + s + t, p.len() + at),
    decreases s.len() - at,
{
    if at < s.len() {
        assert((p + s + t)[p.len() + at] == s[at]);
        closing_stays(p, s, t, at + 1, false);
        closing_stays(p, s, t, at + 1, true);
    }
}

/// An escape sequence that is closed is closed wherever its text stands.
pub proof fn closed_sequences_stay_closed(p: Seq<char>, s: Seq<char>, t: Seq<char>, at: int)
    requires
        0 <= at,
        escape_closes(s, at),
    ensures
        escape_closes(p + s + t, p.len() + at),
{
    assert((p + s + t)[p.len() + at] == s[at]);
    closing_stays(p, s, t, at + 1, false);
}

/// Two texts, of which the first cuts off no escape sequence, are stripped
/// apart.
pub proof fn complete_texts_join(a: Seq<char>, b: Seq<char>, at: int)
    requires
        0 <= at <= a.len(),
        complete_from(a, at),
    ensures
        plain_from(a + b, at) == plain_from(a, at) + plain(b),
    decreases a.len() - at,
{
    if at < a.len() {
        assert((a + b)[at] == a[at]);
        if a[at] == ESC {
            escape_end_bounds(a, at + 1);
            escape_end_does_not_look_ahead(a, b, at + 1);
            complete_texts_join(a, b, escape_end(a, at + 1));
        } else {
            complete_texts_join(a, b, at + 1);
            assert(seq![a[at]] + (plain_from(a, at + 1) + plain(b)) =~= (seq![a[at]] + plain_from(
                a,
                at + 1,
            )) + plain(b));
        }
    } else {
        plain_does_not_look_back(a, b, 0);
        assert(plain_from(a, at) + plain(b) =~= plain(b));
    }
}

/// A character that is no escape character stays.
pub proof fn other_characters_stay(c: char, s: Seq<char>)
    requires
        c != '\u{1b}',
    ensures
        plain(seq![c] + s) == seq![c] + plain(s),
{
    let t = seq![c] + s;
    assert(t[0] == c);
    plain_does_not_look_back(seq![c], s, 0);
}

/// A control sequence leaves nothing behind: from its escape character and
/// bracket to its final character, which is the first one from `@` to `~`.
pub proof fn control_sequences_leave_nothing(params: Seq<char>, last: char, s: Seq<char>)
    requires
        forall|i: int|
            0 <= i < params.len() ==> !('@' <= #[trigger] params[i] && params[i] <= '~'),
        '@' <= last && last <= '~',
    ensures
        plain(seq!['\u{1b}', '['] + params + seq![last] + s) == plain(s),
{
    let head = seq!['\u{1b}', '['] + params + seq![last];
    let t = head + s;
    assert(t =~= seq!['\u{1b}', '['] + params + seq![last] + s);
    assert forall|k: int| 2 <= k < head.len() - 1 implies !('\u{40}' <= #[trigger] t[k]
        && t[k] <= '\u{7e}') by {
        assert(t[k] == params[k - 2]);
    }
    assert(t[head.len() - 1] == last);
    control_sequence_ends_there(t, 2, head.len() - 1);
    assert(t[0] == ESC);
    assert(t[1] == '[');
    plain_does_not_look_back(head, s, 0);
}

/// A control sequence ends behind the first final character.
proof fn control_sequence_ends_there(t: Seq<char>, at: int, end: int)
    requires
        0 <= at <= end < t.len(),
        forall|k: int| at <= k < end ==> !('\u{40}' <= #[trigger] t[k] && t[k] <= '\u{7e}'),
        '\u{40}' <= t[end] <= '\u{7e}',
    ensures
        control_sequence_end(t, at) == end + 1,
    decreases end - at,
{
    if at < end {
        assert(!('\u{40}' <= t[at] && t[at] <= '\u{7e}'));
        control_sequence_ends_there(t, at + 1, end);
    }
}

/// A string control leaves nothing behind: from its escape character and the
/// character after it, which is one of five, to the bell, or to the escape
/// character and backslash, that end it.
pub proof fn string_controls_leave_nothing(open: char, body: Seq<char>, s: Seq<char>)
    requires
        open == ']' || open == 'P' || open == '_' || open == '^' || open == 'X',
        forall|i: int|
            0 <= i < body.len() ==> #[trigger] body[i] != '\u{7}' && body[i] != '\u{1b}',
    ensures
        plain(seq!['\u{1b}', open] + body + seq!['\u{7}'] + s) == plain(s),
        plain(seq!['\u{1b}', open] + body + seq!['\u{1b}', '\\'] + s) == plain(s),
{
    let rung = seq!['\u{1b}', open] + body + seq!['\u{7}'];
    let ended = seq!['\u{1b}', open] + body + seq!['\u{1b}', '\\'];
    let a = rung + s;
    let b = ended + s;
    let n = 2 + body.len() as int;
    assert(a =~= seq!['\u{1b}', open] + body + seq!['\u{7}'] + s);
    assert(b =~= seq!['\u{1b}', open] + body + seq!['\u{1b}', '\\'] + s);
    assert forall|k: int| 2 <= k < n implies #[trigger] a[k] != BEL && a[k] != ESC by {
        assert(a[k] == body[k - 2]);
    }
    assert forall|k: int| 2 <= k < n implies #[trigger] b[k] != BEL && b[k] != ESC by {
        assert(b[k] == body[k - 2]);
    }
    assert(a[n] == BEL);
    assert(b[n] == ESC && b[n + 1] == '\\');
    string_control_passes(a, 2, n);
    string_control_passes(b, 2, n);
    reveal_with_fuel(string_control_end, 3);
    assert(a[0] == ESC && a[1] == open);
    assert(b[0] == ESC && b[1] == open);
    assert(string_control_end(a, 2, false) == n + 1);
    assert(string_control_end(b, 2, false) == n + 2);
    plain_does_not_look_back(rung, s, 0);
    plain_does_not_look_back(ended, s, 0);
}

/// A string control goes on over its body.
proof fn string_control_passes(t: Seq<char>, at: int, end: int)
    requires
        0 <= at <= end < t.len(),
        forall|k: int| at <= k < end ==> #[trigger] t[k] != BEL && t[k] != ESC,
    ensures
        string_control_end(t, at, false) == string_control_end(t, end, false),
    decreases end - at,
{
    if at < end {
        assert(t[at] != BEL && t[at] != ESC);
        string_control_passes(t, at + 1, end);
    }
}

/// Any other character behind an escape character is gone together with it,
/// and nothing else.
pub proof fn other_sequences_are_two_characters(c: char, s: Seq<char>)
    requires
        c != '[' && c != ']' && c != 'P' && c != '_' && c != '^' && c != 'X',
    ensures
        plain(seq!['\u{1b}', c] + s) == plain(s),
{
    let head = seq!['\u{1b}', c];
    let t = head + s;
    assert(t[0] == ESC && t[1] == c);
    plain_does_not_look_back(head, s, 0);
}

/// A sequence that does not end takes the rest of the text with it.
pub proof fn cut_off_sequences_take_the_rest(s: Seq<char>, c: char)
    requires
        c == '[' || c == ']' || c == 'P' || c == '_' || c == '^' || c == 'X',
        c == '[' ==> forall|i: int|
            0 <= i < s.len() ==> !('@' <= #[trigger] s[i] && s[i] <= '~'),
        c != '[' ==> forall|i: int|
            0 <= i < s.len() ==> #[trigger] s[i] != '\u{7}' && s[i] != '\u{1b}',
    ensures
        plain(seq!['\u{1b}', c] + s).len() == 0,
        plain(seq!['\u{1b}']).len() == 0,
{
    let t = seq!['\u{1b}', c] + s;
    assert(t[0] == ESC && t[1] == c);
    assert forall|k: int| 2 <= k < t.len() implies #[trigger] t[k] == s[k - 2] by {}
    if c == '[' {
        unended_sequence(t, 2);
    } else {
        unended_string(t, 2);
    }
    assert(escape_end(t, 1) == t.len());
    assert(plain_from(t, t.len() as int) == Seq::<char>::empty());
    let alone = seq!['\u{1b}'];
    assert(alone[0] == ESC);
    assert(escape_end(alone, 1) == 1);
    assert(plain_from(alone, 1) == Seq::<char>::empty());
}

/// A control sequence without a final character goes to the end.
proof fn unended_sequence(t: Seq<char>, at: int)
    requires
        0 <= at,
        forall|k: int|
            at <= k < t.len() ==> !('\u{40}' <= #[trigger] t[k] && t[k] <= '\u{7e}'),
    ensures
        control_sequence_end(t, at) == t.len(),
    decreases t.len() - at,
{
    if at < t.len() {
        assert(!('\u{40}' <= t[at] && t[at] <= '\u{7e}'));
        unended_sequence(t, at + 1);
    }
}

/// A string control without an end goes to the end of the text.
proof fn unended_string(t: Seq<char>, at: int)
    requires
        0 <= at,
        forall|k: int| at <= k < t.len() ==> #[trigger] t[k] != BEL && t[k] != ESC,
    ensures
        string_control_end(t, at, false) == t.len(),
    decreases t.len() - at,
{
    if at < t.len() {
        assert(t[at] != BEL && t[at] != ESC);
        unended_string(t, at + 1);
    }
}

} // verus!
