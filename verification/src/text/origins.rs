//! Where each character of a laid out text comes from.
//!
//! A character on a line stands for one character of the text. An ellipsis
//! stands for the first character behind what is kept before it.
use crate::chars;
use crate::chars::{chars_of, count_leading_whitespace, find_char, slice, trim, trimmed_len};
use crate::display;
use crate::display::{clusters_of, column_after_clusters, Cluster, ClusterView};
use crate::segmented_string;
use crate::segmented_string::{LineView, SegmentedStringLine};
use crate::text;
use crate::text::laws;
use crate::text::{Text, TextWrap, TruncatePosition, WrappedTextLine, WrappedView};
use vstd::prelude::*;

verus! {

/// So many places one after the other.
pub open spec fn stretch(from: int, n: int) -> Seq<int> {
    Seq::new(n as nat, |k: int| from + k)
}

/// How much white space is cut off the front of a line that is trimmed.
pub open spec fn lead_of(line: Seq<char>) -> int {
    chars::leading(chars::trim_back(line), |c: char| chars::whitespace(c))
}

/// Where the lines of a text begin, from position `at` on.
pub open spec fn line_starts(content: Seq<char>, at: int) -> Seq<int>
    decreases content.len() - at,
    when 0 <= at <= content.len()
    via line_starts_shrink
{
    let end = chars::find_from(content, '\n', at);
    if end >= content.len() {
        seq![at]
    } else {
        seq![at] + line_starts(content, end + 1)
    }
}

#[via_fn]
proof fn line_starts_shrink(content: Seq<char>, at: int) {
    chars::find_from_bounds(content, '\n', at);
}

/// The places of what is left, from position `at` on, of a text whose lines
/// are trimmed.
pub open spec fn kept_from(content: Seq<char>, at: int) -> Seq<int>
    decreases content.len() - at,
    when 0 <= at <= content.len()
    via kept_from_shrinks
{
    let end = chars::find_from(content, '\n', at);
    let line = content.subrange(at, end);
    let kept = stretch(at + lead_of(line), chars::trim_both(line).len() as int);
    if end >= content.len() {
        kept
    } else {
        kept + seq![end] + kept_from(content, end + 1)
    }
}

#[via_fn]
proof fn kept_from_shrinks(content: Seq<char>, at: int) {
    chars::find_from_bounds(content, '\n', at);
}

/// The places of the text that [`text::between`] keeps. Cluster `i` begins at
/// place `at`.
pub open spec fn between_places(
    cs: Seq<ClusterView>,
    i: int,
    at: int,
    col: int,
    start: int,
    end: int,
) -> Seq<int>
    decreases cs.len() - i,
{
    if i < 0 || i >= cs.len() || col >= end {
        Seq::empty()
    } else {
        let next = display::column_after(cs[i], col);
        let rest = between_places(cs, i + 1, at + cs[i].text.len(), next, start, end);
        if start <= col && start < next && next <= end {
            stretch(at, cs[i].text.len() as int) + rest
        } else {
            rest
        }
    }
}

/// The place behind those of a list, or `begin` where there are none.
pub open spec fn behind(places: Seq<int>, begin: int) -> int {
    if places.len() == 0 {
        begin
    } else {
        places.last() + 1
    }
}

/// The places of a line of `len` characters that begins at `begin` and is cut
/// to so many columns.
pub open spec fn cut_places(
    len: int,
    cs: Seq<ClusterView>,
    begin: int,
    columns: usize,
    position: TruncatePosition,
) -> Seq<int> {
    let width = display::end_column(cs, 0);
    if columns == 0 {
        Seq::empty()
    } else if columns == 1 {
        seq![begin]
    } else if width <= columns {
        stretch(begin, len)
    } else {
        match position {
            TruncatePosition::Start => seq![begin] + between_places(
                cs,
                0,
                begin,
                0,
                width - columns + 1,
                width,
            ),
            TruncatePosition::Middle => {
                let front = between_places(cs, 0, begin, 0, 0, columns as int / 2);
                front + seq![behind(front, begin)] + between_places(
                    cs,
                    0,
                    begin,
                    0,
                    width - (columns - columns as int / 2 - 1),
                    width,
                )
            },
            TruncatePosition::End => {
                let front = between_places(cs, 0, begin, 0, 0, columns - 1);
                front + seq![behind(front, begin)]
            },
        }
    }
}

/// The places of a wrapped line of a text whose lines are trimmed, where
/// `kept` are the places of that text.
pub open spec fn trimmed_places(kept: Seq<int>, line: LineView) -> Seq<int> {
    Seq::new(
        chars::trim_both(line.text).len(),
        |k: int| kept[line.offset + lead_of(line.text) + k],
    )
}

/// The place of each character on each line of a text that is laid out in so
/// many columns.
pub open spec fn origins(content: Seq<char>, wrap: TextWrap, width: usize) -> Seq<Seq<int>> {
    let lines = chars::split(content, '\n');
    let begins = line_starts(content, 0);
    match text::cut_of(wrap) {
        Some(position) => Seq::new(
            lines.len(),
            |i: int|
                cut_places(
                    lines[i].len() as int,
                    display::clusters(lines[i]),
                    begins[i],
                    width,
                    position,
                ),
        ),
        None => if text::leaves_alone(wrap) {
            Seq::new(lines.len(), |i: int| stretch(begins[i], lines[i].len() as int))
        } else if wrap == TextWrap::WrapTrim {
            segmented_string::wrapped(text::trimmed_lines(content), width).map_values(
                |line: LineView| trimmed_places(kept_from(content, 0), line),
            )
        } else {
            segmented_string::wrapped(content, width).map_values(
                |line: LineView|
                    stretch(line.offset, chars::trim_back(line.text).len() as int),
            )
        },
    }
}

/// Whether a character is the one at a place in a text. On a line that was cut
/// it may be an ellipsis.
pub open spec fn comes_from(content: Seq<char>, c: char, place: int, cut: bool) -> bool {
    ||| 0 <= place < content.len() && c == content[place]
    ||| cut && c == '…'
}

/// Whether each character of a line is the one at its place in a text.
pub open spec fn stands_for(
    content: Seq<char>,
    line: Seq<char>,
    places: Seq<int>,
    cut: bool,
) -> bool {
    &&& line.len() == places.len()
    &&& forall|k: int|
        0 <= k < line.len() ==> comes_from(content, #[trigger] line[k], places[k], cut)
}

/// Whether each character of each line is the one at its place.
pub open spec fn all_stand_for(
    content: Seq<char>,
    lines: Seq<WrappedView>,
    places: Seq<Seq<int>>,
    cut: bool,
) -> bool {
    &&& lines.len() == places.len()
    &&& forall|i: int|
        0 <= i < lines.len() ==> stands_for(content, (#[trigger] lines[i]).text, places[i], cut)
}

/// Whether each character of a text that is laid out is the one at its place.
pub open spec fn laid_out_from(content: Seq<char>, wrap: TextWrap, width: usize) -> bool {
    all_stand_for(
        content,
        text::lines_of(content, wrap, width),
        origins(content, wrap, width),
        text::cut_of(wrap) is Some,
    )
}

/// Each line of a text begins where [`line_starts`] says.
proof fn lines_begin_at_their_starts(content: Seq<char>, at: int)
    requires
        0 <= at <= content.len(),
    ensures
        line_starts(content, at).len() == chars::split_from(content, '\n', at).len(),
        forall|i: int|
            #![trigger line_starts(content, at)[i]]
            0 <= i < line_starts(content, at).len() ==> segmented_string::stands_at(
                content,
                chars::split_from(content, '\n', at)[i],
                line_starts(content, at)[i],
            ),
    decreases content.len() - at,
{
    let end = chars::find_from(content, '\n', at);
    let begins = line_starts(content, at);
    let lines = chars::split_from(content, '\n', at);
    chars::find_from_bounds(content, '\n', at);
    if end < content.len() {
        lines_begin_at_their_starts(content, end + 1);
    }
    assert forall|i: int| 0 <= i < begins.len() implies segmented_string::stands_at(
        content,
        lines[i],
        #[trigger] begins[i],
    ) by {
        if i > 0 {
            assert(lines[i] == chars::split_from(content, '\n', end + 1)[i - 1]);
            assert(begins[i] == line_starts(content, end + 1)[i - 1]);
        }
    }
}

/// What is left of a line that is trimmed stands behind its lead.
proof fn trimmed_stands(line: Seq<char>)
    ensures
        0 <= lead_of(line),
        lead_of(line) + chars::trim_both(line).len() <= line.len(),
        forall|k: int|
            0 <= k < chars::trim_both(line).len() ==> #[trigger] chars::trim_both(line)[k]
                == line[lead_of(line) + k],
{
    let class = |c: char| chars::whitespace(c);
    chars::trailing_bounds(line, class);
    chars::leading_bounds(chars::trim_back(line), class);
}

/// A line that stands in a text is at the places from where it begins.
proof fn standing_is_a_stretch(content: Seq<char>, line: Seq<char>, begin: int, n: int, cut: bool)
    requires
        segmented_string::stands_at(content, line, begin),
        0 <= n <= line.len(),
    ensures
        stands_for(content, line.take(n), stretch(begin, n), cut),
{
}

/// Two pieces one after the other are at their places one after the other.
proof fn standing_joins(
    content: Seq<char>,
    a: Seq<char>,
    from_a: Seq<int>,
    b: Seq<char>,
    from_b: Seq<int>,
    cut: bool,
)
    requires
        stands_for(content, a, from_a, cut),
        stands_for(content, b, from_b, cut),
    ensures
        stands_for(content, a + b, from_a + from_b, cut),
{
    let ab = a + b;
    let from_ab = from_a + from_b;
    assert forall|k: int| 0 <= k < ab.len() implies comes_from(
        content,
        #[trigger] ab[k],
        from_ab[k],
        cut,
    ) by {
        if k < a.len() {
            assert(comes_from(content, a[k], from_a[k], cut));
        } else {
            assert(comes_from(content, b[k - a.len()], from_b[k - a.len()], cut));
        }
    }
}

/// What is left of a text whose lines are trimmed stands at its places.
proof fn kept_is_the_trimmed_text(content: Seq<char>, at: int)
    requires
        0 <= at <= content.len(),
    ensures
        stands_for(
            content,
            laws::join_front(
                chars::split_from(content, '\n', at).map_values(
                    |line: Seq<char>| chars::trim_both(line),
                ),
            ),
            kept_from(content, at),
            false,
        ),
    decreases content.len() - at,
{
    let end = chars::find_from(content, '\n', at);
    let line = content.subrange(at, end);
    let lines = chars::split_from(content, '\n', at);
    let trimmed = lines.map_values(|line: Seq<char>| chars::trim_both(line));
    let first = chars::trim_both(line);
    let kept = stretch(at + lead_of(line), first.len() as int);
    chars::find_from_bounds(content, '\n', at);
    trimmed_stands(line);
    assert(stands_for(content, first, kept, false));
    if end >= content.len() {
        assert(content.subrange(at, content.len() as int) =~= line);
        assert(trimmed =~= seq![first]);
    } else {
        let rest = chars::split_from(content, '\n', end + 1);
        laws::split_from_is_not_empty(content, end + 1);
        kept_is_the_trimmed_text(content, end + 1);
        assert(trimmed.skip(1) =~= rest.map_values(|line: Seq<char>| chars::trim_both(line)));
        assert(content[end] == '\n');
        assert(stands_for(content, seq!['\n'], seq![end], false));
        standing_joins(content, first, kept, seq!['\n'], seq![end], false);
        standing_joins(
            content,
            first + seq!['\n'],
            kept + seq![end],
            laws::join_front(trimmed.skip(1)),
            kept_from(content, end + 1),
            false,
        );
        assert(trimmed[0] == first);
    }
}

/// What is left of a text whose lines are trimmed, from its front on.
proof fn kept_is_trimmed_lines(content: Seq<char>)
    ensures
        stands_for(content, text::trimmed_lines(content), kept_from(content, 0), false),
{
    reveal_strlit("\n");
    assert("\n"@ =~= seq!['\n']);
    kept_is_the_trimmed_text(content, 0);
    laws::joins_agree(
        chars::split(content, '\n').map_values(|line: Seq<char>| chars::trim_both(line)),
    );
}

/// What is kept between two columns stands at its places.
proof fn between_stands(
    content: Seq<char>,
    cs: Seq<ClusterView>,
    begin: int,
    i: int,
    col: int,
    start: int,
    end: int,
    cut: bool,
)
    requires
        0 <= i <= cs.len(),
        segmented_string::stands_at(content, segmented_string::text_of(cs), begin),
    ensures
        stands_for(
            content,
            text::between(cs, i, col, start, end),
            between_places(
                cs,
                i,
                begin + segmented_string::text_of(cs.take(i)).len(),
                col,
                start,
                end,
            ),
            cut,
        ),
    decreases cs.len() - i,
{
    if i < cs.len() && col < end {
        let at = begin + segmented_string::text_of(cs.take(i)).len();
        let next = display::column_after(cs[i], col);
        let own = cs[i].text;
        segmented_string::text_of_take(cs, i);
        between_stands(content, cs, begin, i + 1, next, start, end, cut);
        segmented_string::text_of_between(cs, i + 1, cs.len() as int);
        assert(cs.take(cs.len() as int) =~= cs);
        let whole = segmented_string::text_of(cs);
        assert forall|k: int| 0 <= k < own.len() implies own[k] == content[at + k] by {
            assert(whole[at - begin + k] == own[k]);
        }
        assert(stands_for(content, own, stretch(at, own.len() as int), cut));
        standing_joins(
            content,
            own,
            stretch(at, own.len() as int),
            text::between(cs, i + 1, next, start, end),
            between_places(cs, i + 1, at + own.len(), next, start, end),
            cut,
        );
    }
}

/// A line that is cut stands at its places.
proof fn cut_stands(
    content: Seq<char>,
    line: Seq<char>,
    cs: Seq<ClusterView>,
    begin: int,
    columns: usize,
    position: TruncatePosition,
)
    requires
        segmented_string::stands_at(content, line, begin),
        segmented_string::text_of(cs) == line,
    ensures
        stands_for(
            content,
            text::truncated(line, cs, columns, position),
            cut_places(line.len() as int, cs, begin, columns, position),
            true,
        ),
{
    let width = display::end_column(cs, 0);
    reveal_strlit("…");
    let dots = "…"@;
    assert(dots =~= seq!['…']);
    assert(cs.take(0) =~= Seq::empty());
    assert(forall|at: int| #[trigger] stands_for(content, dots, seq![at], true));
    if columns > 1 && width <= columns {
        standing_is_a_stretch(content, line, begin, line.len() as int, true);
        assert(line.take(line.len() as int) =~= line);
    } else if columns > 1 {
        let half = columns as int / 2;
        let rest = columns - half - 1;
        match position {
            TruncatePosition::Start => {
                between_stands(content, cs, begin, 0, 0, width - columns + 1, width, true);
                standing_joins(
                    content,
                    dots,
                    seq![begin],
                    text::sliced(cs, width - columns + 1, width),
                    between_places(cs, 0, begin, 0, width - columns + 1, width),
                    true,
                );
            },
            TruncatePosition::Middle => {
                let front = between_places(cs, 0, begin, 0, 0, half);
                let mid = seq![behind(front, begin)];
                between_stands(content, cs, begin, 0, 0, 0, half, true);
                between_stands(content, cs, begin, 0, 0, width - rest, width, true);
                standing_joins(content, text::sliced(cs, 0, half), front, dots, mid, true);
                standing_joins(
                    content,
                    text::sliced(cs, 0, half) + dots,
                    front + mid,
                    text::sliced(cs, width - rest, width),
                    between_places(cs, 0, begin, 0, width - rest, width),
                    true,
                );
            },
            TruncatePosition::End => {
                let front = between_places(cs, 0, begin, 0, 0, columns - 1);
                between_stands(content, cs, begin, 0, 0, 0, columns - 1, true);
                standing_joins(
                    content,
                    text::sliced(cs, 0, columns - 1),
                    front,
                    dots,
                    seq![behind(front, begin)],
                    true,
                );
            },
        }
    }
}

/// A list of places as numbers.
pub open spec fn numbers(places: Seq<usize>) -> Seq<int> {
    places.map_values(|n: usize| n as int)
}

/// A list of lists of places as numbers.
pub open spec fn all_numbers(places: Seq<Vec<usize>>) -> Seq<Seq<int>> {
    places.map_values(|line: Vec<usize>| numbers(line@))
}

/// Whether no place is before the text.
pub open spec fn no_place_is_negative(places: Seq<Seq<int>>) -> bool {
    forall|i: int, k: int|
        0 <= i < places.len() && 0 <= k < places[i].len() ==> 0 <= #[trigger] places[i][k]
}

/// Places that are numbers are not before the text.
pub proof fn numbers_are_not_negative(places: Seq<Vec<usize>>)
    ensures
        no_place_is_negative(all_numbers(places)),
{
    let at = all_numbers(places);
    assert forall|i: int, k: int| 0 <= i < at.len() && 0 <= k < at[i].len() implies 0
        <= #[trigger] at[i][k] by {
        assert(at[i] == numbers(places[i]@));
        assert(at[i][k] == places[i]@[k]);
    }
}

/// Appends so many places one after the other.
fn push_stretch(out: &mut Vec<usize>, from: usize, n: usize)
    requires
        from + n <= usize::MAX,
    ensures
        numbers(final(out)@) == numbers(old(out)@) + stretch(from as int, n as int),
{
    let mut k: usize = 0;
    assert(numbers(out@) =~= numbers(old(out)@) + stretch(from as int, 0));
    while k < n
        invariant
            k <= n,
            from + n <= usize::MAX,
            numbers(out@) == numbers(old(out)@) + stretch(from as int, k as int),
        decreases n - k,
    {
        let ghost before = numbers(out@);
        out.push(from + k);
        k = k + 1;
        assert(numbers(out@) =~= before.push(from + k - 1));
        assert(numbers(out@) =~= numbers(old(out)@) + stretch(from as int, k as int));
    }
}

/// Appends one place.
fn push_place(out: &mut Vec<usize>, place: usize)
    ensures
        numbers(final(out)@) == numbers(old(out)@) + seq![place as int],
{
    out.push(place);
    assert(numbers(out@) =~= numbers(old(out)@) + seq![place as int]);
}

/// No places.
fn no_places() -> (r: Vec<usize>)
    ensures
        numbers(r@) == Seq::<int>::empty(),
{
    let r: Vec<usize> = Vec::new();
    assert(numbers(r@) =~= Seq::empty());
    r
}

/// Where the lines of a text begin.
fn find_line_starts(content: &Vec<char>) -> (r: Vec<usize>)
    ensures
        numbers(r@) == line_starts(content@, 0),
{
    let mut out = no_places();
    let mut at: usize = 0;
    assert(numbers(out@) + line_starts(content@, 0) =~= line_starts(content@, 0));
    loop
        invariant
            at <= content@.len(),
            numbers(out@) + line_starts(content@, at as int) == line_starts(content@, 0),
        decreases content@.len() - at,
    {
        let end: usize = find_char(content, '\n', at);
        let ghost before = numbers(out@);
        push_place(&mut out, at);
        if end == content.len() {
            assert(numbers(out@) =~= before + line_starts(content@, at as int));
            return out;
        }
        assert(before + line_starts(content@, at as int) =~= numbers(out@) + line_starts(
            content@,
            end + 1,
        ));
        at = end + 1;
    }
}

/// The places of what is left of a text whose lines are trimmed.
fn find_kept(content: &Vec<char>) -> (r: Vec<usize>)
    ensures
        numbers(r@) == kept_from(content@, 0),
{
    let mut out = no_places();
    let mut at: usize = 0;
    assert(numbers(out@) + kept_from(content@, 0) =~= kept_from(content@, 0));
    loop
        invariant
            at <= content@.len(),
            numbers(out@) + kept_from(content@, at as int) == kept_from(content@, 0),
        decreases content@.len() - at,
    {
        let end: usize = find_char(content, '\n', at);
        let line = slice(content, at, end);
        let lead: usize = find_lead(&line);
        let trimmed = trim(&line);
        proof {
            trimmed_stands(line@);
            assert(content@.len() == content.len());
        }
        let ghost before = numbers(out@);
        push_stretch(&mut out, at + lead, trimmed.len());
        if end == content.len() {
            assert(numbers(out@) =~= before + kept_from(content@, at as int));
            return out;
        }
        push_place(&mut out, end);
        assert(before + kept_from(content@, at as int) =~= numbers(out@) + kept_from(
            content@,
            end + 1,
        ));
        at = end + 1;
    }
}

/// How much white space is cut off the front of a line that is trimmed.
fn find_lead(line: &Vec<char>) -> (r: usize)
    ensures
        r == lead_of(line@),
{
    let n: usize = trimmed_len(line);
    let t = slice(line, 0, n);
    assert(t@ =~= chars::trim_back(line@));
    count_leading_whitespace(&t)
}

/// The places of the text of the clusters that stand between two columns.
fn slice_places(clusters: &Vec<Cluster>, begin: usize, start: usize, end: usize) -> (r: Vec<usize>)
    requires
        begin + segmented_string::text_of(display::cluster_views(clusters@)).len() <= usize::MAX,
    ensures
        numbers(r@) == between_places(
            display::cluster_views(clusters@),
            0,
            begin as int,
            0,
            start as int,
            end as int,
        ),
{
    let ghost cs = display::cluster_views(clusters@);
    let ghost goal = between_places(cs, 0, begin as int, 0, start as int, end as int);
    let mut out = no_places();
    let mut at: usize = begin;
    let mut col: usize = 0;
    let mut i: usize = 0;
    assert(cs.take(0) =~= Seq::empty());
    assert(numbers(out@) + goal =~= goal);
    while i < clusters.len() && col < end
        invariant
            cs == display::cluster_views(clusters@),
            begin + segmented_string::text_of(cs).len() <= usize::MAX,
            i <= clusters@.len(),
            at == begin + segmented_string::text_of(cs.take(i as int)).len(),
            numbers(out@) + between_places(
                cs,
                i as int,
                at as int,
                col as int,
                start as int,
                end as int,
            ) == goal,
        decreases clusters@.len() - i,
    {
        assert(cs[i as int] == clusters@[i as int]@);
        let own = chars_of(clusters[i].text.as_str());
        let next: usize = clusters[i].advance(col);
        proof {
            segmented_string::text_of_take(cs, i as int);
            segmented_string::text_of_take_bound(cs, i + 1);
        }
        let ghost before = numbers(out@);
        let ghost rest = between_places(
            cs,
            i + 1,
            at + own@.len(),
            next as int,
            start as int,
            end as int,
        );
        if start <= col && start < next && next <= end {
            push_stretch(&mut out, at, own.len());
            assert(before + (stretch(at as int, own@.len() as int) + rest) =~= numbers(out@)
                + rest);
        }
        at = at + own.len();
        col = next;
        i = i + 1;
    }
    assert(numbers(out@) =~= goal);
    out
}

/// The place behind those of a list.
fn find_behind(places: &Vec<usize>, begin: usize) -> (r: usize)
    requires
        forall|k: int| 0 <= k < places@.len() ==> #[trigger] places@[k] < usize::MAX,
    ensures
        r == behind(numbers(places@), begin as int),
{
    if places.len() == 0 {
        begin
    } else {
        assert(numbers(places@).last() == places@[places@.len() - 1]);
        places[places.len() - 1] + 1
    }
}

/// Appends a list of places to another.
fn push_all(out: &mut Vec<usize>, places: &Vec<usize>)
    ensures
        numbers(final(out)@) == numbers(old(out)@) + numbers(places@),
{
    let mut k: usize = 0;
    assert(numbers(out@) =~= numbers(old(out)@) + numbers(places@).take(0));
    while k < places.len()
        invariant
            k <= places@.len(),
            numbers(out@) == numbers(old(out)@) + numbers(places@).take(k as int),
        decreases places@.len() - k,
    {
        let ghost before = numbers(out@);
        out.push(places[k]);
        k = k + 1;
        assert(numbers(out@) =~= before.push(places@[k - 1] as int));
        assert(numbers(out@) =~= numbers(old(out)@) + numbers(places@).take(k as int));
    }
    assert(numbers(places@).take(k as int) =~= numbers(places@));
}

/// The places of what is kept of a line between two columns. They are all in
/// the text.
fn kept_places(
    content: &Vec<char>,
    clusters: &Vec<Cluster>,
    begin: usize,
    start: usize,
    end: usize,
) -> (r: Vec<usize>)
    requires
        segmented_string::stands_at(
            content@,
            segmented_string::text_of(display::cluster_views(clusters@)),
            begin as int,
        ),
    ensures
        numbers(r@) == between_places(
            display::cluster_views(clusters@),
            0,
            begin as int,
            0,
            start as int,
            end as int,
        ),
        forall|k: int| 0 <= k < r@.len() ==> #[trigger] r@[k] < usize::MAX,
{
    let ghost cs = display::cluster_views(clusters@);
    assert(content@.len() == content.len());
    let r = slice_places(clusters, begin, start, end);
    proof {
        between_stands(content@, cs, begin as int, 0, 0, start as int, end as int, false);
        assert(cs.take(0) =~= Seq::empty());
        let kept = text::between(cs, 0, 0, start as int, end as int);
        assert forall|k: int| 0 <= k < r@.len() implies #[trigger] r@[k] < usize::MAX by {
            assert(comes_from(content@, kept[k], numbers(r@)[k], false));
        }
    }
    r
}

/// The places of a line of `len` characters that is cut to so many columns.
fn place_cut_line(
    content: &Vec<char>,
    len: usize,
    clusters: &Vec<Cluster>,
    begin: usize,
    columns: usize,
    position: TruncatePosition,
) -> (r: Vec<usize>)
    requires
        segmented_string::stands_at(
            content@,
            segmented_string::text_of(display::cluster_views(clusters@)),
            begin as int,
        ),
        len == segmented_string::text_of(display::cluster_views(clusters@)).len(),
    ensures
        numbers(r@) == cut_places(
            len as int,
            display::cluster_views(clusters@),
            begin as int,
            columns,
            position,
        ),
{
    let mut out = no_places();
    assert(content@.len() == content.len());
    if columns == 0 {
        return out;
    }
    if columns == 1 {
        push_place(&mut out, begin);
        assert(numbers(out@) =~= seq![begin as int]);
        return out;
    }
    let width: usize = column_after_clusters(clusters, 0);
    if width <= columns {
        push_stretch(&mut out, begin, len);
        assert(numbers(out@) =~= stretch(begin as int, len as int));
        return out;
    }
    match position {
        TruncatePosition::Start => {
            let tail = kept_places(content, clusters, begin, width - columns + 1, width);
            push_place(&mut out, begin);
            assert(numbers(out@) =~= seq![begin as int]);
            push_all(&mut out, &tail);
            out
        },
        TruncatePosition::Middle => {
            let half: usize = columns / 2;
            let tail = kept_places(content, clusters, begin, width - (columns - half - 1), width);
            let mut front = kept_places(content, clusters, begin, 0, half);
            let dots: usize = find_behind(&front, begin);
            push_place(&mut front, dots);
            push_all(&mut front, &tail);
            front
        },
        TruncatePosition::End => {
            let mut front = kept_places(content, clusters, begin, 0, columns - 1);
            let dots: usize = find_behind(&front, begin);
            push_place(&mut front, dots);
            front
        },
    }
}

/// The places of each line of a text whose lines are cut.
fn place_cut_lines(content: &Vec<char>, columns: usize, position: TruncatePosition) -> (r: Vec<
    Vec<usize>,
>)
    ensures
        ({
            let lines = chars::split(content@, '\n');
            let begins = line_starts(content@, 0);
            &&& all_numbers(r@) == Seq::new(
                lines.len(),
                |i: int|
                    cut_places(
                        lines[i].len() as int,
                        display::clusters(lines[i]),
                        begins[i],
                        columns,
                        position,
                    ),
            )
            &&& forall|i: int|
                0 <= i < lines.len() ==> segmented_string::text_of(
                    display::clusters(#[trigger] lines[i]),
                ) == lines[i]
        }),
{
    let lines = chars::split_on(content, '\n');
    let begins = find_line_starts(content);
    let ghost views = chars::split(content@, '\n');
    let ghost goal = Seq::new(
        views.len(),
        |i: int|
            cut_places(
                views[i].len() as int,
                display::clusters(views[i]),
                line_starts(content@, 0)[i],
                columns,
                position,
            ),
    );
    proof {
        lines_begin_at_their_starts(content@, 0);
        assert(numbers(begins@).len() == begins@.len());
    }
    let mut out: Vec<Vec<usize>> = Vec::new();
    let mut i: usize = 0;
    assert(all_numbers(out@) =~= goal.take(0));
    while i < lines.len()
        invariant
            views == chars::split(content@, '\n'),
            chars::views(lines@) == views,
            numbers(begins@) == line_starts(content@, 0),
            begins@.len() == lines@.len(),
            goal == Seq::new(
                views.len(),
                |i: int|
                    cut_places(
                        views[i].len() as int,
                        display::clusters(views[i]),
                        line_starts(content@, 0)[i],
                        columns,
                        position,
                    ),
            ),
            forall|j: int|
                #![trigger line_starts(content@, 0)[j]]
                0 <= j < views.len() ==> segmented_string::stands_at(
                    content@,
                    views[j],
                    line_starts(content@, 0)[j],
                ),
            i <= lines@.len(),
            all_numbers(out@) == goal.take(i as int),
            forall|j: int|
                0 <= j < i ==> segmented_string::text_of(display::clusters(#[trigger] views[j]))
                    == views[j],
        decreases lines@.len() - i,
    {
        assert(views[i as int] == lines@[i as int]@);
        let clusters = clusters_of(lines[i].as_str());
        let line = chars_of(lines[i].as_str());
        let begin: usize = begins[i];
        proof {
            segmented_string::text_of_joins(clusters@);
            assert(line_starts(content@, 0)[i as int] == begin);
        }
        let places = place_cut_line(content, line.len(), &clusters, begin, columns, position);
        let ghost before = all_numbers(out@);
        out.push(places);
        proof {
            assert(all_numbers(out@) =~= before.push(numbers(places@)));
            assert(goal.take(i + 1) =~= goal.take(i as int).push(goal[i as int]));
        }
        i = i + 1;
    }
    assert(goal.take(i as int) =~= goal);
    out
}

/// The places of each line of a text that is left alone.
fn place_whole_lines(content: &Vec<char>) -> (r: Vec<Vec<usize>>)
    ensures
        ({
            let lines = chars::split(content@, '\n');
            let begins = line_starts(content@, 0);
            all_numbers(r@) == Seq::new(
                lines.len(),
                |i: int| stretch(begins[i], lines[i].len() as int),
            )
        }),
{
    let lines = chars::split_on(content, '\n');
    let begins = find_line_starts(content);
    let ghost views = chars::split(content@, '\n');
    let ghost goal = Seq::new(
        views.len(),
        |i: int| stretch(line_starts(content@, 0)[i], views[i].len() as int),
    );
    proof {
        lines_begin_at_their_starts(content@, 0);
        assert(numbers(begins@).len() == begins@.len());
    }
    let mut out: Vec<Vec<usize>> = Vec::new();
    let mut i: usize = 0;
    assert(all_numbers(out@) =~= goal.take(0));
    while i < lines.len()
        invariant
            views == chars::split(content@, '\n'),
            chars::views(lines@) == views,
            numbers(begins@) == line_starts(content@, 0),
            begins@.len() == lines@.len(),
            goal == Seq::new(
                views.len(),
                |i: int| stretch(line_starts(content@, 0)[i], views[i].len() as int),
            ),
            forall|j: int|
                #![trigger line_starts(content@, 0)[j]]
                0 <= j < views.len() ==> segmented_string::stands_at(
                    content@,
                    views[j],
                    line_starts(content@, 0)[j],
                ),
            i <= lines@.len(),
            all_numbers(out@) == goal.take(i as int),
        decreases lines@.len() - i,
    {
        assert(views[i as int] == lines@[i as int]@);
        let line = chars_of(lines[i].as_str());
        let begin: usize = begins[i];
        proof {
            assert(line_starts(content@, 0)[i as int] == begin);
            assert(content@.len() == content.len());
        }
        let mut places = no_places();
        push_stretch(&mut places, begin, line.len());
        let ghost before = all_numbers(out@);
        out.push(places);
        proof {
            assert(numbers(places@) =~= goal[i as int]);
            assert(all_numbers(out@) =~= before.push(numbers(places@)));
            assert(goal.take(i + 1) =~= goal.take(i as int).push(goal[i as int]));
        }
        i = i + 1;
    }
    assert(goal.take(i as int) =~= goal);
    out
}

/// The places of each wrapped line of a text, without the white space at its
/// end.
fn place_wrapped_lines(content: &Vec<char>, lines: &Vec<SegmentedStringLine>) -> (r: Vec<Vec<usize>>)
    requires
        forall|i: int|
            0 <= i < lines@.len() ==> segmented_string::stands_in(
                #[trigger] segmented_string::line_views(lines@)[i],
                content@,
            ),
    ensures
        all_numbers(r@) == segmented_string::line_views(lines@).map_values(
            |line: LineView| stretch(line.offset, chars::trim_back(line.text).len() as int),
        ),
{
    let ghost views = segmented_string::line_views(lines@);
    let ghost goal = views.map_values(
        |line: LineView| stretch(line.offset, chars::trim_back(line.text).len() as int),
    );
    let mut out: Vec<Vec<usize>> = Vec::new();
    let mut i: usize = 0;
    assert(all_numbers(out@) =~= goal.take(0));
    while i < lines.len()
        invariant
            views == segmented_string::line_views(lines@),
            goal == views.map_values(
                |line: LineView| stretch(line.offset, chars::trim_back(line.text).len() as int),
            ),
            forall|j: int|
                0 <= j < lines@.len() ==> segmented_string::stands_in(
                    #[trigger] views[j],
                    content@,
                ),
            i <= lines@.len(),
            all_numbers(out@) == goal.take(i as int),
        decreases lines@.len() - i,
    {
        assert(views[i as int] == lines@[i as int]@);
        assert(content@.len() == content.len());
        let line = chars_of(lines[i].text.as_str());
        let n: usize = trimmed_len(&line);
        assert(n == chars::trim_back(line@).len());
        let mut places = no_places();
        push_stretch(&mut places, lines[i].offset, n);
        let ghost before = all_numbers(out@);
        out.push(places);
        proof {
            assert(numbers(places@) =~= goal[i as int]);
            assert(all_numbers(out@) =~= before.push(numbers(places@)));
            assert(goal.take(i + 1) =~= goal.take(i as int).push(goal[i as int]));
        }
        i = i + 1;
    }
    assert(goal.take(i as int) =~= goal);
    out
}

/// The places of a wrapped line of a text whose lines are trimmed.
fn place_trimmed_line(kept: &Vec<usize>, line: &SegmentedStringLine) -> (r: Vec<usize>)
    requires
        line.offset + line.text@.len() <= kept@.len(),
    ensures
        numbers(r@) == trimmed_places(numbers(kept@), line@),
{
    let s = chars_of(line.text.as_str());
    let lead: usize = find_lead(&s);
    let trimmed = trim(&s);
    let n: usize = trimmed.len();
    let ghost goal = trimmed_places(numbers(kept@), line@);
    proof {
        trimmed_stands(s@);
        assert(kept@.len() == kept.len());
    }
    let mut out = no_places();
    let mut k: usize = 0;
    assert(numbers(out@) =~= goal.take(0));
    while k < n
        invariant
            goal == trimmed_places(numbers(kept@), line@),
            lead == lead_of(line.text@),
            n == chars::trim_both(line.text@).len(),
            line.offset + lead + n <= kept@.len() <= usize::MAX,
            k <= n,
            numbers(out@) == goal.take(k as int),
        decreases n - k,
    {
        push_place(&mut out, kept[line.offset + lead + k]);
        assert(goal.take(k + 1) =~= goal.take(k as int) + seq![goal[k as int]]);
        k = k + 1;
    }
    assert(goal.take(k as int) =~= goal);
    out
}

/// The places of each wrapped line of a text whose lines are trimmed.
fn place_trimmed_lines(kept: &Vec<usize>, lines: &Vec<SegmentedStringLine>) -> (r: Vec<Vec<usize>>)
    requires
        forall|i: int|
            0 <= i < lines@.len() ==> (#[trigger] lines@[i]).offset + lines@[i].text@.len()
                <= kept@.len(),
    ensures
        all_numbers(r@) == segmented_string::line_views(lines@).map_values(
            |line: LineView| trimmed_places(numbers(kept@), line),
        ),
{
    let ghost goal = segmented_string::line_views(lines@).map_values(
        |line: LineView| trimmed_places(numbers(kept@), line),
    );
    let mut out: Vec<Vec<usize>> = Vec::new();
    let mut i: usize = 0;
    assert(all_numbers(out@) =~= goal.take(0));
    while i < lines.len()
        invariant
            goal == segmented_string::line_views(lines@).map_values(
                |line: LineView| trimmed_places(numbers(kept@), line),
            ),
            forall|j: int|
                0 <= j < lines@.len() ==> (#[trigger] lines@[j]).offset + lines@[j].text@.len()
                    <= kept@.len(),
            i <= lines@.len(),
            all_numbers(out@) == goal.take(i as int),
        decreases lines@.len() - i,
    {
        let places = place_trimmed_line(kept, &lines[i]);
        let ghost before = all_numbers(out@);
        out.push(places);
        proof {
            assert(numbers(places@) =~= goal[i as int]);
            assert(all_numbers(out@) =~= before.push(numbers(places@)));
            assert(goal.take(i + 1) =~= goal.take(i as int).push(goal[i as int]));
        }
        i = i + 1;
    }
    assert(goal.take(i as int) =~= goal);
    out
}

/// Wrapped lines stand for the text that they were wrapped from.
proof fn wrapped_lines_stand(content: Seq<char>, width: usize)
    requires
        forall|i: int|
            0 <= i < segmented_string::wrapped(content, width).len()
                ==> segmented_string::stands_in(
                #[trigger] segmented_string::wrapped(content, width)[i],
                content,
            ),
    ensures
        laid_out_from(content, TextWrap::Wrap, width),
{
    let lines = segmented_string::wrapped(content, width);
    let drawn = text::lines_of(content, TextWrap::Wrap, width);
    let places = origins(content, TextWrap::Wrap, width);
    assert forall|i: int| 0 <= i < drawn.len() implies stands_for(
        content,
        (#[trigger] drawn[i]).text,
        places[i],
        false,
    ) by {
        let line = lines[i];
        let cut = chars::trim_back(line.text);
        assert(segmented_string::stands_in(lines[i], content));
        chars::trailing_bounds(line.text, |c: char| chars::whitespace(c));
        standing_is_a_stretch(content, line.text, line.offset, cut.len() as int, false);
    }
}

/// Wrapped lines that are trimmed stand for the text that they were wrapped
/// from.
proof fn trimmed_lines_stand(content: Seq<char>, width: usize)
    requires
        ({
            let source = text::trimmed_lines(content);
            forall|i: int|
                0 <= i < segmented_string::wrapped(source, width).len()
                    ==> segmented_string::stands_in(
                    #[trigger] segmented_string::wrapped(source, width)[i],
                    source,
                )
        }),
    ensures
        laid_out_from(content, TextWrap::WrapTrim, width),
{
    let source = text::trimmed_lines(content);
    let kept = kept_from(content, 0);
    let lines = segmented_string::wrapped(source, width);
    let drawn = text::lines_of(content, TextWrap::WrapTrim, width);
    let places = origins(content, TextWrap::WrapTrim, width);
    kept_is_trimmed_lines(content);
    assert forall|i: int| 0 <= i < drawn.len() implies stands_for(
        content,
        (#[trigger] drawn[i]).text,
        places[i],
        false,
    ) by {
        let line = lines[i];
        let text = chars::trim_both(line.text);
        assert(segmented_string::stands_in(lines[i], source));
        trimmed_stands(line.text);
        assert forall|k: int| 0 <= k < text.len() implies comes_from(
            content,
            #[trigger] text[k],
            places[i][k],
            false,
        ) by {
            let at = line.offset + lead_of(line.text) + k;
            assert(text[k] == line.text[lead_of(line.text) + k]);
            assert(line.text[lead_of(line.text) + k] == source[at]);
            assert(comes_from(content, source[at], kept[at], false));
        }
    }
}

/// Lines that are left alone are those of the text.
proof fn whole_lines_stand(content: Seq<char>, wrap: TextWrap, width: usize)
    requires
        text::leaves_alone(wrap),
    ensures
        laid_out_from(content, wrap, width),
{
    let lines = chars::split(content, '\n');
    let begins = line_starts(content, 0);
    let drawn = text::lines_of(content, wrap, width);
    let places = origins(content, wrap, width);
    lines_begin_at_their_starts(content, 0);
    assert forall|i: int| 0 <= i < drawn.len() implies stands_for(
        content,
        (#[trigger] drawn[i]).text,
        places[i],
        false,
    ) by {
        assert(segmented_string::stands_at(content, lines[i], begins[i]));
        standing_is_a_stretch(content, lines[i], begins[i], lines[i].len() as int, false);
        assert(lines[i].take(lines[i].len() as int) =~= lines[i]);
    }
}

/// Lines that are cut are those of the text, but for the ellipsis.
proof fn cut_lines_stand(content: Seq<char>, wrap: TextWrap, width: usize)
    requires
        text::cut_of(wrap) is Some,
        forall|i: int|
            0 <= i < chars::split(content, '\n').len() ==> segmented_string::text_of(
                display::clusters(#[trigger] chars::split(content, '\n')[i]),
            ) == chars::split(content, '\n')[i],
    ensures
        laid_out_from(content, wrap, width),
{
    let lines = chars::split(content, '\n');
    let begins = line_starts(content, 0);
    let drawn = text::lines_of(content, wrap, width);
    let places = origins(content, wrap, width);
    lines_begin_at_their_starts(content, 0);
    assert forall|i: int| 0 <= i < drawn.len() implies stands_for(
        content,
        (#[trigger] drawn[i]).text,
        places[i],
        true,
    ) by {
        assert(segmented_string::stands_at(content, lines[i], begins[i]));
        cut_stands(
            content,
            lines[i],
            display::clusters(lines[i]),
            begins[i],
            width,
            text::cut_of(wrap)->0,
        );
    }
}

impl Text {
    /// The lines of a text as they are drawn in so many columns, and the place
    /// in the text of each of their characters.
    pub fn place_lines(content: &str, wrap: TextWrap, width: usize) -> (r: (
        Vec<WrappedTextLine>,
        Vec<Vec<usize>>,
    ))
        ensures
            text::wrapped_views(r.0@) == text::lines_of(content@, wrap, width),
            all_numbers(r.1@) == origins(content@, wrap, width),
            laid_out_from(content@, wrap, width),
    {
        let s = chars_of(content);
        if let Some(position) = Text::truncate_position(wrap) {
            let places = place_cut_lines(&s, width, position);
            proof {
                cut_lines_stand(content@, wrap, width);
            }
            return (Text::wrap_lines(content, wrap, width), places);
        }
        match wrap {
            TextWrap::NoWrap | TextWrap::End | TextWrap::Middle => {
                let places = place_whole_lines(&s);
                proof {
                    whole_lines_stand(content@, wrap, width);
                }
                (Text::wrap_lines(content, wrap, width), places)
            },
            TextWrap::WrapTrim => {
                let source = Text::trim_lines(content);
                let lines = segmented_string::wrap(source.as_str(), width);
                let kept = find_kept(&s);
                proof {
                    let views = segmented_string::line_views(lines@);
                    kept_is_trimmed_lines(content@);
                    assert(numbers(kept@).len() == kept@.len());
                    assert forall|i: int| 0 <= i < lines@.len() implies (#[trigger] lines@[i]).offset
                        + lines@[i].text@.len() <= kept@.len() by {
                        assert(segmented_string::stands_in(views[i], source@));
                    }
                    assert(views.len() == lines@.len());
                    trimmed_lines_stand(content@, width);
                }
                let places = place_trimmed_lines(&kept, &lines);
                (Text::draw_wrapped(source.as_str(), &lines, true), places)
            },
            _ => {
                let lines = segmented_string::wrap(content, width);
                let places = place_wrapped_lines(&s, &lines);
                proof {
                    assert(segmented_string::line_views(lines@).len() == lines@.len());
                    wrapped_lines_stand(content@, width);
                }
                (Text::draw_wrapped(content, &lines, false), places)
            },
        }
    }
}

/// The ellipsis of a line that was cut belongs to the part in which the cut
/// begins: at the front of the line it stands for the first character, behind
/// something else for the character right behind it.
pub proof fn the_ellipsis_stands_where_the_cut_begins(
    len: int,
    cs: Seq<ClusterView>,
    begin: int,
    columns: usize,
)
    requires
        columns >= 2,
        display::end_column(cs, 0) > columns,
    ensures
        cut_places(len, cs, begin, columns, TruncatePosition::Start)[0] == begin,
        ({
            let places = cut_places(len, cs, begin, columns, TruncatePosition::End);
            let n = places.len() - 1;
            &&& n >= 0
            &&& n == 0 ==> places[n] == begin
            &&& n > 0 ==> places[n] == places[n - 1] + 1
        }),
        ({
            let places = cut_places(len, cs, begin, columns, TruncatePosition::Middle);
            let n = between_places(cs, 0, begin, 0, 0, columns as int / 2).len() as int;
            &&& n < places.len()
            &&& n == 0 ==> places[n] == begin
            &&& n > 0 ==> places[n] == places[n - 1] + 1
        }),
        cut_places(len, cs, begin, 1, TruncatePosition::Start) == seq![begin],
        cut_places(len, cs, begin, 1, TruncatePosition::Middle) == seq![begin],
        cut_places(len, cs, begin, 1, TruncatePosition::End) == seq![begin],
{
}

} // verus!
