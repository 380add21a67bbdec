//! Characters and character sequences: the classes of characters that the
//! terminal code tells apart, and the searches, splits and replacements that
//! it makes on text.
use vstd::prelude::*;

verus! {

/// A control character: C0, DEL or C1.
pub open spec fn control(c: char) -> bool {
    c <= '\u{1f}' || '\u{7f}' <= c <= '\u{9f}'
}

/// A character with the Unicode `White_Space` property.
pub open spec fn whitespace(c: char) -> bool {
    ||| c == ' '
    ||| '\u{9}' <= c <= '\u{d}'
    ||| c == '\u{85}'
    ||| c == '\u{a0}'
    ||| c == '\u{1680}'
    ||| '\u{2000}' <= c <= '\u{200a}'
    ||| c == '\u{2028}'
    ||| c == '\u{2029}'
    ||| c == '\u{202f}'
    ||| c == '\u{205f}'
    ||| c == '\u{3000}'
}

/// One of the ten ASCII digits.
pub open spec fn digit(c: char) -> bool {
    '0' <= c <= '9'
}

/// The number that a decimal digit stands for.
pub open spec fn digit_value(c: char) -> int {
    c as int - '0' as int
}

/// An ASCII hexadecimal digit, of either case.
pub open spec fn hex_digit(c: char) -> bool {
    digit(c) || 'a' <= c <= 'f' || 'A' <= c <= 'F'
}

/// The number that a hexadecimal digit stands for.
pub open spec fn hex_value(c: char) -> int {
    if digit(c) {
        c as int - '0' as int
    } else if 'a' <= c <= 'f' {
        c as int - 'a' as int + 10
    } else {
        c as int - 'A' as int + 10
    }
}

/// The lower-case form of an ASCII letter; every other character is itself.
pub open spec fn ascii_lower(c: char) -> char {
    if 'A' <= c <= 'Z' {
        (c as u32 + 32) as char
    } else {
        c
    }
}

/// A printable ASCII character: the space through the tilde.
pub open spec fn printable_ascii(c: char) -> bool {
    '\u{20}' <= c < '\u{7f}'
}

/// Whether every character of `s` is in the class `class`.
pub open spec fn all_in(s: Seq<char>, class: spec_fn(char) -> bool) -> bool {
    forall|i: int| 0 <= i < s.len() ==> class(#[trigger] s[i])
}

/// Whether `part` stands in `s` at position `i`.
pub open spec fn occurs_at(s: Seq<char>, part: Seq<char>, i: int) -> bool {
    0 <= i && i + part.len() <= s.len() && s.subrange(i, i + part.len()) == part
}

/// Whether `part` stands somewhere in `s`.
pub open spec fn occurs_in(s: Seq<char>, part: Seq<char>) -> bool {
    exists|i: int| occurs_at(s, part, i)
}

/// The characters of `s` that are in the class `class`, in order.
pub open spec fn keep(s: Seq<char>, class: spec_fn(char) -> bool) -> Seq<char>
    decreases s.len(),
{
    if s.len() == 0 {
        Seq::empty()
    } else if class(s.last()) {
        keep(s.drop_last(), class).push(s.last())
    } else {
        keep(s.drop_last(), class)
    }
}

/// How many characters at the front of `s` are in the class `class`.
pub open spec fn leading(s: Seq<char>, class: spec_fn(char) -> bool) -> int
    decreases s.len(),
{
    if s.len() > 0 && class(s[0]) {
        1 + leading(s.skip(1), class)
    } else {
        0
    }
}

/// How many characters at the back of `s` are in the class `class`.
pub open spec fn trailing(s: Seq<char>, class: spec_fn(char) -> bool) -> int
    decreases s.len(),
{
    if s.len() > 0 && class(s.last()) {
        1 + trailing(s.drop_last(), class)
    } else {
        0
    }
}

/// `s` without the white space at its back.
pub open spec fn trim_back(s: Seq<char>) -> Seq<char> {
    s.take(s.len() - trailing(s, |c: char| whitespace(c)))
}

/// `s` without the white space at its front and back.
pub open spec fn trim_both(s: Seq<char>) -> Seq<char> {
    let t = trim_back(s);
    t.skip(leading(t, |c: char| whitespace(c)))
}

/// The position of the first `mark` in `s` at or after `from`, or the end of
/// `s` where there is none.
pub open spec fn find_from(s: Seq<char>, mark: char, from: int) -> int
    decreases s.len() - from,
{
    if from < 0 || from >= s.len() {
        s.len() as int
    } else if s[from] == mark {
        from
    } else {
        find_from(s, mark, from + 1)
    }
}

/// The pieces of `s` from `from` on between the occurrences of `mark`. There
/// is always one piece more than there are marks.
pub open spec fn split_from(s: Seq<char>, mark: char, from: int) -> Seq<Seq<char>>
    decreases s.len() - from,
    when 0 <= from <= s.len()
    via split_from_shrinks
{
    let at = find_from(s, mark, from);
    if at >= s.len() {
        seq![s.subrange(from, s.len() as int)]
    } else {
        seq![s.subrange(from, at)] + split_from(s, mark, at + 1)
    }
}

#[via_fn]
proof fn split_from_shrinks(s: Seq<char>, mark: char, from: int) {
    find_from_bounds(s, mark, from);
}

/// The pieces of `s` between the occurrences of `mark`.
pub open spec fn split(s: Seq<char>, mark: char) -> Seq<Seq<char>> {
    split_from(s, mark, 0)
}

/// The pieces of `parts` one after the other with `mark` between them.
pub open spec fn join(parts: Seq<Seq<char>>, mark: Seq<char>) -> Seq<char>
    decreases parts.len(),
{
    if parts.len() == 0 {
        Seq::empty()
    } else if parts.len() == 1 {
        parts[0]
    } else {
        join(parts.drop_last(), mark) + mark + parts.last()
    }
}

/// `s` with every occurrence of `part`, taken from the left and without
/// overlap, replaced by `by`.
pub open spec fn replace_all(s: Seq<char>, part: Seq<char>, by: Seq<char>) -> Seq<char>
    decreases s.len(),
{
    if part.len() == 0 || s.len() < part.len() {
        s
    } else if s.take(part.len() as int) == part {
        by + replace_all(s.skip(part.len() as int), part, by)
    } else {
        seq![s[0]] + replace_all(s.skip(1), part, by)
    }
}

/// The decimal digits of `n`, without leading zeros.
pub open spec fn decimal(n: nat) -> Seq<char>
    decreases n,
{
    if n < 10 {
        seq![('0' as u32 + n) as char]
    } else {
        decimal(n / 10).push(('0' as u32 + n % 10) as char)
    }
}

/// The number that a run of decimal digits stands for.
pub open spec fn number(s: Seq<char>) -> int
    decreases s.len(),
{
    if s.len() == 0 {
        0
    } else {
        number(s.drop_last()) * 10 + digit_value(s.last())
    }
}

/// A search ends at or behind where it began, and inside the text.
pub proof fn find_from_bounds(s: Seq<char>, mark: char, from: int)
    requires
        0 <= from <= s.len(),
    ensures
        from <= find_from(s, mark, from) <= s.len(),
        forall|i: int| from <= i < find_from(s, mark, from) ==> s[i] != mark,
        find_from(s, mark, from) < s.len() ==> s[find_from(s, mark, from)] == mark,
    decreases s.len() - from,
{
    if from < s.len() && s[from] != mark {
        find_from_bounds(s, mark, from + 1);
    }
}

/// A position with no mark before it from `from` on is where the search ends.
pub proof fn find_from_is(s: Seq<char>, mark: char, from: int, at: int)
    requires
        0 <= from <= at <= s.len(),
        forall|i: int| from <= i < at ==> s[i] != mark,
        at < s.len() ==> s[at] == mark,
    ensures
        find_from(s, mark, from) == at,
    decreases at - from,
{
    if from < at {
        find_from_is(s, mark, from + 1, at);
    }
}

/// The characters at the front that are counted are of the class, and end
/// where the class ends.
pub proof fn leading_bounds(s: Seq<char>, class: spec_fn(char) -> bool)
    ensures
        0 <= leading(s, class) <= s.len(),
        forall|i: int| 0 <= i < leading(s, class) ==> class(#[trigger] s[i]),
        leading(s, class) < s.len() ==> !class(s[leading(s, class)]),
    decreases s.len(),
{
    if s.len() > 0 && class(s[0]) {
        leading_bounds(s.skip(1), class);
        let n = leading(s.skip(1), class);
        assert forall|i: int| 0 <= i < leading(s, class) implies class(#[trigger] s[i]) by {
            if i > 0 {
                assert(s.skip(1)[i - 1] == s[i]);
            }
        }
        if n + 1 < s.len() {
            assert(s.skip(1)[n] == s[n + 1]);
        }
    }
}

/// The count of leading characters in a class, from its two defining facts.
pub proof fn leading_is(s: Seq<char>, class: spec_fn(char) -> bool, n: int)
    requires
        0 <= n <= s.len(),
        forall|i: int| 0 <= i < n ==> class(#[trigger] s[i]),
        n < s.len() ==> !class(s[n]),
    ensures
        leading(s, class) == n,
    decreases n,
{
    if n > 0 {
        assert(class(s[0]));
        assert forall|i: int| 0 <= i < n - 1 implies class(#[trigger] s.skip(1)[i]) by {
            assert(s.skip(1)[i] == s[i + 1]);
        }
        leading_is(s.skip(1), class, n - 1);
    }
}

/// The characters at the back that are counted end where the class ends.
pub proof fn trailing_bounds(s: Seq<char>, class: spec_fn(char) -> bool)
    ensures
        0 <= trailing(s, class) <= s.len(),
        trailing(s, class) < s.len() ==> !class(s[s.len() - trailing(s, class) - 1]),
    decreases s.len(),
{
    if s.len() > 0 && class(s.last()) {
        trailing_bounds(s.drop_last(), class);
    }
}

/// The count of trailing characters in a class, from its two defining facts.
pub proof fn trailing_is(s: Seq<char>, class: spec_fn(char) -> bool, n: int)
    requires
        0 <= n <= s.len(),
        forall|i: int| s.len() - n <= i < s.len() ==> class(#[trigger] s[i]),
        n < s.len() ==> !class(s[s.len() - n - 1]),
    ensures
        trailing(s, class) == n,
    decreases n,
{
    if n > 0 {
        assert(class(s[s.len() - 1]));
        trailing_is(s.drop_last(), class, n - 1);
    }
}

/// Reads one more character of `s` into `keep`.
pub proof fn keep_step(s: Seq<char>, class: spec_fn(char) -> bool, i: int)
    requires
        0 <= i < s.len(),
    ensures
        keep(s.take(i + 1), class) == if class(s[i]) {
            keep(s.take(i), class).push(s[i])
        } else {
            keep(s.take(i), class)
        },
{
    assert(s.take(i + 1).drop_last() =~= s.take(i));
}

/// The number of a run of digits is not negative.
pub proof fn number_bounds(s: Seq<char>)
    requires
        all_in(s, |c: char| digit(c)),
    ensures
        0 <= number(s),
    decreases s.len(),
{
    if s.len() > 0 {
        assert(digit(s.last()));
        assert(all_in(s.drop_last(), |c: char| digit(c)));
        number_bounds(s.drop_last());
    }
}

/// More digits never make a number smaller.
pub proof fn number_grows(s: Seq<char>, i: int)
    requires
        0 <= i <= s.len(),
        all_in(s, |c: char| digit(c)),
    ensures
        number(s.take(i)) <= number(s),
    decreases s.len() - i,
{
    if i < s.len() {
        let t = s.take(i + 1);
        assert(t.drop_last() =~= s.take(i));
        assert(digit(s[i]));
        assert(all_in(s.take(i), |c: char| digit(c)));
        number_bounds(s.take(i));
        number_grows(s, i + 1);
    } else {
        assert(s.take(i) =~= s);
    }
}

/// Appends `c` to `s`. `String::push` is documented to append the character
/// to the end of the string; the contract says just that.
#[verifier::external_body]
pub(crate) fn push_char(s: &mut String, c: char)
    ensures
        final(s)@ == old(s)@.push(c),
{
    s.push(c)
}

/// The number of a character.
pub(crate) fn code_of(c: char) -> (r: u32)
    ensures
        r == c as int,
{
    c as u32
}

/// Whether `c` is a control character.
pub(crate) fn is_control(c: char) -> (r: bool)
    ensures
        r == control(c),
{
    c <= '\u{1f}' || ('\u{7f}' <= c && c <= '\u{9f}')
}

/// Whether `c` is white space.
pub(crate) fn is_whitespace(c: char) -> (r: bool)
    ensures
        r == whitespace(c),
{
    c == ' ' || ('\u{9}' <= c && c <= '\u{d}') || c == '\u{85}' || c == '\u{a0}' || c == '\u{1680}'
        || ('\u{2000}' <= c && c <= '\u{200a}') || c == '\u{2028}' || c == '\u{2029}' || c
        == '\u{202f}' || c == '\u{205f}' || c == '\u{3000}'
}

/// Whether `c` is a decimal digit.
pub(crate) fn is_digit(c: char) -> (r: bool)
    ensures
        r == digit(c),
{
    '0' <= c && c <= '9'
}

/// Whether `c` is a hexadecimal digit.
pub(crate) fn is_hex_digit(c: char) -> (r: bool)
    ensures
        r == hex_digit(c),
{
    is_digit(c) || ('a' <= c && c <= 'f') || ('A' <= c && c <= 'F')
}

/// The lower-case form of an ASCII letter; every other character is itself.
pub(crate) fn to_ascii_lower(c: char) -> (r: char)
    ensures
        r == ascii_lower(c),
{
    if 'A' <= c && c <= 'Z' {
        (c as u8 + 32) as char
    } else {
        c
    }
}

/// The characters of `s`.
pub(crate) fn chars_of(s: &str) -> (r: Vec<char>)
    ensures
        r@ == s@,
{
    let mut out: Vec<char> = Vec::new();
    for c in it: s.chars()
        invariant
            it.seq() == s@,
            out@ == s@.take(it.index() as int),
    {
        out.push(c);
        assert(s@.take(it.index() + 1) =~= s@.take(it.index() as int).push(c));
    }
    assert(s@.take(s@.len() as int) =~= s@);
    out
}

/// Appends the characters of `v` from `from` up to `to`.
pub(crate) fn push_range(out: &mut String, v: &Vec<char>, from: usize, to: usize)
    requires
        from <= to <= v@.len(),
    ensures
        final(out)@ == old(out)@ + v@.subrange(from as int, to as int),
{
    let mut i: usize = from;
    while i < to
        invariant
            from <= i <= to <= v@.len(),
            out@ == old(out)@ + v@.subrange(from as int, i as int),
        decreases to - i,
    {
        push_char(out, v[i]);
        assert(v@.subrange(from as int, i + 1) =~= v@.subrange(from as int, i as int).push(
            v@[i as int],
        ));
        i = i + 1;
    }
}

/// The string of the characters of `v`.
pub(crate) fn string_of(v: &Vec<char>) -> (r: String)
    ensures
        r@ == v@,
{
    let mut out = String::new();
    push_range(&mut out, v, 0, v.len());
    assert(v@.subrange(0, v@.len() as int) =~= v@);
    out
}

/// Whether `a` and `b` hold the same characters.
pub(crate) fn same(a: &str, b: &str) -> (r: bool)
    ensures
        r == (a@ == b@),
{
    let x = chars_of(a);
    let y = chars_of(b);
    if x.len() != y.len() {
        return false;
    }
    assert(x@.subrange(0, y@.len() as int) =~= x@);
    match_at(&x, &y, 0)
}

/// Whether `part` stands in `v` at position `at`.
pub(crate) fn match_at(v: &Vec<char>, part: &Vec<char>, at: usize) -> (r: bool)
    requires
        at + part@.len() <= v@.len(),
    ensures
        r == (v@.subrange(at as int, at + part@.len()) == part@),
        r == occurs_at(v@, part@, at as int),
{
    let n: usize = v.len();
    let mut i: usize = 0;
    while i < part.len()
        invariant
            0 <= i <= part@.len(),
            at + part@.len() <= v@.len(),
            n == v@.len(),
            forall|j: int| 0 <= j < i ==> v@[at + j] == #[trigger] part@[j],
        decreases part@.len() - i,
    {
        if v[at + i] != part[i] {
            assert(v@.subrange(at as int, at + part@.len())[i as int] != part@[i as int]);
            return false;
        }
        i = i + 1;
    }
    assert(v@.subrange(at as int, at + part@.len()) =~= part@);
    true
}

/// Whether `s` begins with `part`.
pub(crate) fn begins_with(s: &Vec<char>, part: &str) -> (r: bool)
    ensures
        r == part@.is_prefix_of(s@),
{
    let p = chars_of(part);
    if p.len() > s.len() {
        return false;
    }
    match_at(s, &p, 0)
}

/// Whether `s` ends with `part`.
pub(crate) fn ends_with(s: &Vec<char>, part: &str) -> (r: bool)
    ensures
        r == part@.is_suffix_of(s@),
{
    let p = chars_of(part);
    if p.len() > s.len() {
        return false;
    }
    match_at(s, &p, s.len() - p.len())
}

/// Whether `part` stands somewhere in `s`.
pub(crate) fn contains(s: &Vec<char>, part: &str) -> (r: bool)
    ensures
        r == occurs_in(s@, part@),
{
    let p = chars_of(part);
    if p.len() > s.len() {
        assert(forall|j: int| !occurs_at(s@, part@, j));
        return false;
    }
    let last: usize = s.len() - p.len();
    let mut i: usize = 0;
    while i <= last
        invariant
            p@ == part@,
            last == s@.len() - p@.len(),
            0 <= i <= last + 1,
            forall|j: int| 0 <= j < i ==> !occurs_at(s@, part@, j),
        decreases last + 1 - i,
    {
        if match_at(s, &p, i) {
            return true;
        }
        if i == last {
            assert(forall|j: int| occurs_at(s@, part@, j) ==> 0 <= j < i + 1);
            return false;
        }
        i = i + 1;
    }
    false
}

/// The position of the first `mark` at or after `from`, or the length.
pub(crate) fn find_char(s: &Vec<char>, mark: char, from: usize) -> (r: usize)
    requires
        from <= s@.len(),
    ensures
        r == find_from(s@, mark, from as int),
        from <= r <= s@.len(),
{
    let mut i: usize = from;
    while i < s.len() && s[i] != mark
        invariant
            from <= i <= s@.len(),
            forall|j: int| from <= j < i ==> s@[j] != mark,
        decreases s@.len() - i,
    {
        i = i + 1;
    }
    proof {
        find_from_is(s@, mark, from as int, i as int);
    }
    i
}

/// The characters of `v` from `from` up to `to`, as a vector of their own.
pub(crate) fn slice(v: &Vec<char>, from: usize, to: usize) -> (r: Vec<char>)
    requires
        from <= to <= v@.len(),
    ensures
        r@ == v@.subrange(from as int, to as int),
{
    let mut out: Vec<char> = Vec::new();
    let mut i: usize = from;
    while i < to
        invariant
            from <= i <= to <= v@.len(),
            out@ == v@.subrange(from as int, i as int),
        decreases to - i,
    {
        out.push(v[i]);
        assert(v@.subrange(from as int, i + 1) =~= v@.subrange(from as int, i as int).push(
            v@[i as int],
        ));
        i = i + 1;
    }
    out
}

/// The views of the strings in `v`.
pub open spec fn views(v: Seq<String>) -> Seq<Seq<char>> {
    v.map_values(|s: String| s@)
}

/// The pieces of `s` between the occurrences of `mark`.
pub(crate) fn split_on(s: &Vec<char>, mark: char) -> (r: Vec<String>)
    ensures
        views(r@) == split(s@, mark),
        r@.len() >= 1,
{
    let mut out: Vec<String> = Vec::new();
    let mut from: usize = 0;
    loop
        invariant
            0 <= from <= s@.len(),
            views(out@) + split_from(s@, mark, from as int) == split(s@, mark),
        decreases s@.len() - from,
    {
        let at = find_char(s, mark, from);
        let mut piece = String::new();
        push_range(&mut piece, s, from, at);
        assert(piece@ =~= s@.subrange(from as int, at as int));
        let ghost before = views(out@);
        out.push(piece);
        assert(views(out@) =~= before.push(piece@));
        if at == s.len() {
            assert(views(out@) =~= before + split_from(s@, mark, from as int));
            return out;
        }
        proof {
            assert(before + split_from(s@, mark, from as int) =~= views(out@) + split_from(
                s@,
                mark,
                at + 1,
            ));
        }
        from = at + 1;
    }
}

/// The strings of `parts` one after the other with `mark` between them.
pub(crate) fn join_with(parts: &Vec<String>, mark: &str) -> (r: String)
    ensures
        r@ == join(views(parts@), mark@),
{
    let mut out = String::new();
    let mut i: usize = 0;
    while i < parts.len()
        invariant
            0 <= i <= parts@.len(),
            out@ == join(views(parts@).take(i as int), mark@),
        decreases parts@.len() - i,
    {
        proof {
            let t = views(parts@).take(i + 1);
            assert(t.drop_last() =~= views(parts@).take(i as int));
            assert(t.last() == parts@[i as int]@);
        }
        if i > 0 {
            out.append(mark);
        }
        out.append(parts[i].as_str());
        i = i + 1;
        proof {
            assert(out@ =~= join(views(parts@).take(i as int), mark@));
        }
    }
    assert(views(parts@).take(i as int) =~= views(parts@));
    out
}

/// `s` with every occurrence of `part` replaced by `by`.
pub(crate) fn replace_part(s: &Vec<char>, part: &Vec<char>, by: &str) -> (r: String)
    ensures
        r@ == replace_all(s@, part@, by@),
{
    let mut out = String::new();
    if part.len() == 0 {
        push_range(&mut out, s, 0, s.len());
        assert(out@ =~= s@);
        return out;
    }
    let mut i: usize = 0;
    assert(s@.skip(0) =~= s@);
    while s.len() - i >= part.len()
        invariant
            0 < part@.len(),
            0 <= i <= s@.len(),
            out@ + replace_all(s@.skip(i as int), part@, by@) == replace_all(s@, part@, by@),
        decreases s@.len() - i,
    {
        let ghost rest = s@.skip(i as int);
        let ghost before = out@;
        assert(rest.take(part@.len() as int) =~= s@.subrange(i as int, i + part@.len()));
        if match_at(s, part, i) {
            out.append(by);
            assert(rest.skip(part@.len() as int) =~= s@.skip(i + part@.len()));
            i = i + part.len();
            assert(before + (by@ + replace_all(s@.skip(i as int), part@, by@)) =~= out@
                + replace_all(s@.skip(i as int), part@, by@));
        } else {
            push_char(&mut out, s[i]);
            assert(rest.skip(1) =~= s@.skip(i + 1));
            assert(rest[0] == s@[i as int]);
            i = i + 1;
            assert(before + (seq![rest[0]] + replace_all(s@.skip(i as int), part@, by@)) =~= out@
                + replace_all(s@.skip(i as int), part@, by@));
        }
    }
    let ghost before = out@;
    push_range(&mut out, s, i, s.len());
    assert(s@.subrange(i as int, s@.len() as int) =~= s@.skip(i as int));
    out
}

/// Appends the decimal digits of `n`.
pub(crate) fn push_decimal(out: &mut String, n: usize)
    ensures
        final(out)@ == old(out)@ + decimal(n as nat),
    decreases n,
{
    if n < 10 {
        push_char(out, ('0' as u8 + n as u8) as char);
    } else {
        push_decimal(out, n / 10);
        push_char(out, ('0' as u8 + (n % 10) as u8) as char);
    }
    assert(out@ =~= old(out)@ + decimal(n as nat));
}

/// How much white space there is at the front of `s`.
pub(crate) fn count_leading_whitespace(s: &Vec<char>) -> (r: usize)
    ensures
        r == leading(s@, |c: char| whitespace(c)),
        r <= s@.len(),
{
    let mut i: usize = 0;
    while i < s.len() && is_whitespace(s[i])
        invariant
            0 <= i <= s@.len(),
            forall|j: int| 0 <= j < i ==> whitespace(#[trigger] s@[j]),
        decreases s@.len() - i,
    {
        i = i + 1;
    }
    proof {
        leading_is(s@, |c: char| whitespace(c), i as int);
    }
    i
}

/// The length of `s` without the white space at its back.
pub(crate) fn trimmed_len(s: &Vec<char>) -> (r: usize)
    ensures
        r == s@.len() - trailing(s@, |c: char| whitespace(c)),
        r <= s@.len(),
{
    let mut n: usize = s.len();
    while n > 0 && is_whitespace(s[n - 1])
        invariant
            0 <= n <= s@.len(),
            forall|j: int| n <= j < s@.len() ==> whitespace(#[trigger] s@[j]),
        decreases n,
    {
        n = n - 1;
    }
    proof {
        trailing_is(s@, |c: char| whitespace(c), s@.len() - n);
    }
    n
}

/// `s` without the white space at its front and back.
pub(crate) fn trim(s: &Vec<char>) -> (r: Vec<char>)
    ensures
        r@ == trim_both(s@),
{
    let n = trimmed_len(s);
    let t = slice(s, 0, n);
    assert(t@ =~= trim_back(s@));
    let k = count_leading_whitespace(&t);
    let r = slice(&t, k, t.len());
    assert(r@ =~= t@.skip(k as int));
    r
}

/// Reads the digits of `t` from `from` to `to`, up to the largest number that
/// fits.
pub(crate) fn read_digits(t: &Vec<char>, from: usize, to: usize) -> (r: u64)
    requires
        from <= to <= t@.len(),
        all_in(t@.subrange(from as int, to as int), |c: char| digit(c)),
    ensures
        number(t@.subrange(from as int, to as int)) <= i64::MAX ==> r == number(
            t@.subrange(from as int, to as int),
        ),
        number(t@.subrange(from as int, to as int)) > i64::MAX ==> r > i64::MAX,
{
    let ghost run = t@.subrange(from as int, to as int);
    let mut n: u64 = 0;
    let mut i: usize = from;
    while i < to
        invariant
            from <= i <= to <= t@.len(),
            run == t@.subrange(from as int, to as int),
            all_in(run, |c: char| digit(c)),
            n == number(run.take(i - from)),
            n <= i64::MAX,
        decreases to - i,
    {
        let ghost k = i - from;
        assert(run[k] == t@[i as int]);
        assert(digit(run[k]));
        assert(run.take(k + 1).drop_last() =~= run.take(k));
        proof {
            number_grows(run, k + 1);
        }
        if n > 922337203685477580 {
            return u64::MAX;
        }
        n = n * 10 + (t[i] as u64 - '0' as u64);
        i = i + 1;
        if n > 9223372036854775807 {
            return n;
        }
    }
    assert(run.take(to - from) =~= run);
    n
}

/// Whether `v` holds digits only.
pub(crate) fn all_digits(v: &Vec<char>) -> (r: bool)
    ensures
        r == all_in(v@, |c: char| digit(c)),
{
    let mut i: usize = 0;
    while i < v.len()
        invariant
            0 <= i <= v@.len(),
            forall|j: int| 0 <= j < i ==> digit(#[trigger] v@[j]),
        decreases v@.len() - i,
    {
        if !is_digit(v[i]) {
            assert(!all_in(v@, |c: char| digit(c)));
            return false;
        }
        i = i + 1;
    }
    true
}

/// The control characters are those below the space, and those from DEL to
/// the last one of C1.
pub proof fn controls_are_c0_del_and_c1(c: char)
    ensures
        control(c) <==> (c as int) < 0x20 || 0x7f <= c as int && (c as int) < 0xa0,
{
}

/// The characters that are white space: the 25 that Unicode lists.
pub proof fn white_space_is_what_unicode_lists(c: char)
    ensures
        whitespace(c) <==> seq![
            0x9int, 0xa, 0xb, 0xc, 0xd, 0x20, 0x85, 0xa0, 0x1680, 0x2000, 0x2001, 0x2002, 0x2003,
            0x2004, 0x2005, 0x2006, 0x2007, 0x2008, 0x2009, 0x200a, 0x2028, 0x2029, 0x202f, 0x205f,
            0x3000,
        ].contains(c as int),
{
    let all = seq![
        0x9int, 0xa, 0xb, 0xc, 0xd, 0x20, 0x85, 0xa0, 0x1680, 0x2000, 0x2001, 0x2002, 0x2003,
        0x2004, 0x2005, 0x2006, 0x2007, 0x2008, 0x2009, 0x200a, 0x2028, 0x2029, 0x202f, 0x205f,
        0x3000,
    ];
    let n = c as int;
    assert(all[0] == 9 && all[1] == 0xa && all[2] == 0xb && all[3] == 0xc && all[4] == 0xd);
    assert(all[5] == 0x20 && all[6] == 0x85 && all[7] == 0xa0 && all[8] == 0x1680);
    assert(all[9] == 0x2000 && all[10] == 0x2001 && all[11] == 0x2002 && all[12] == 0x2003);
    assert(all[13] == 0x2004 && all[14] == 0x2005 && all[15] == 0x2006 && all[16] == 0x2007);
    assert(all[17] == 0x2008 && all[18] == 0x2009 && all[19] == 0x200a && all[20] == 0x2028);
    assert(all[21] == 0x2029 && all[22] == 0x202f && all[23] == 0x205f && all[24] == 0x3000);
    if all.contains(n) {
        let i = choose|i: int| 0 <= i < all.len() && all[i] == n;
        assert(0 <= i < 25);
    }
}

/// The pieces that a text is split into hold no mark.
pub proof fn pieces_hold_no_mark(s: Seq<char>, mark: char, from: int, i: int)
    requires
        0 <= from <= s.len(),
        0 <= i < split_from(s, mark, from).len(),
    ensures
        !split_from(s, mark, from)[i].contains(mark),
    decreases s.len() - from,
{
    let at = find_from(s, mark, from);
    find_from_bounds(s, mark, from);
    if i == 0 {
        let piece = s.subrange(from, at);
        no_mark_before(s, mark, from);
        assert forall|k: int| 0 <= k < piece.len() implies #[trigger] piece[k] != mark by {
            assert(piece[k] == s[from + k]);
        }
        assert(split_from(s, mark, from)[0] =~= piece);
    } else {
        pieces_hold_no_mark(s, mark, at + 1, i - 1);
        assert(split_from(s, mark, from)[i] == split_from(s, mark, at + 1)[i - 1]);
    }
}

/// There is no mark before the first one.
proof fn no_mark_before(s: Seq<char>, mark: char, from: int)
    requires
        0 <= from <= s.len(),
    ensures
        forall|k: int| from <= k < find_from(s, mark, from) ==> #[trigger] s[k] != mark,
    decreases s.len() - from,
{
    if from < s.len() && s[from] != mark {
        no_mark_before(s, mark, from + 1);
    }
}

/// Trimming takes white space only, and all of it at the ends.
pub proof fn trimming_takes_white_space_only(s: Seq<char>)
    ensures
        exists|a: int, b: int|
            0 <= a <= b <= s.len() && trim_both(s) == #[trigger] s.subrange(a, b) && (forall|k: int|
                0 <= k < a || b <= k < s.len() ==> whitespace(#[trigger] s[k])) && (a < b
                ==> !whitespace(s[a]) && !whitespace(s[b - 1])),
{
    let class = |c: char| whitespace(c);
    let t = trim_back(s);
    let b = s.len() - trailing(s, class);
    trailing_bounds(s, class);
    trailing_are_in_class(s, class);
    leading_bounds(t, class);
    let a = leading(t, class);
    assert(trim_both(s) =~= s.subrange(a, b));
    assert forall|k: int| 0 <= k < a || b <= k < s.len() implies whitespace(#[trigger] s[k]) by {
        if k < a {
            assert(class(t[k]));
            assert(t[k] == s[k]);
        } else {
            assert(class(s[k]));
        }
    }
    if a < b {
        assert(!class(t[a]));
        assert(t[a] == s[a]);
        assert(!class(s[b - 1]));
    }
}

/// The characters at the back that are counted are of the class.
pub proof fn trailing_are_in_class(s: Seq<char>, class: spec_fn(char) -> bool)
    ensures
        forall|k: int| s.len() - trailing(s, class) <= k < s.len() ==> class(#[trigger] s[k]),
    decreases s.len(),
{
    if s.len() > 0 && class(s.last()) {
        let t = s.drop_last();
        trailing_are_in_class(t, class);
        trailing_bounds(t, class);
        assert forall|k: int| s.len() - trailing(s, class) <= k < s.len() implies class(
            #[trigger] s[k],
        ) by {
            if k < t.len() {
                assert(class(t[k]));
            }
        }
    }
}

} // verus!
