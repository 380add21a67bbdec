//! What holds of every text.
use crate::chars;
use crate::display;
use crate::display::{Cluster, ClusterView};
use crate::env;
use crate::segmented_string;
use crate::segmented_string::LineView;
use crate::style;
use crate::style::{CanvasTextStyle, Color, Weight};
use crate::text;
use crate::text::drawer;
use crate::text::drawer::{DrawOpView, DrawerView, InkView, OrderView};
use crate::text::mixed;
use crate::text::{StyledSegment, TextAlign, TextDecoration, TruncatePosition};
use vstd::prelude::*;

verus! {

/// How many columns the clusters take that [`text::between`] keeps, each
/// where it stood.
pub open spec fn kept_columns(
    cs: Seq<ClusterView>,
    i: int,
    col: int,
    start: int,
    end: int,
) -> int
    decreases cs.len() - i,
{
    if i < 0 || i >= cs.len() || col >= end {
        0
    } else {
        let next = display::column_after(cs[i], col);
        let rest = kept_columns(cs, i + 1, next, start, end);
        if start <= col && start < next && next <= end {
            next - col + rest
        } else {
            rest
        }
    }
}

/// What is kept between two columns takes no more room than there is between
/// them.
pub proof fn slices_fit(cs: Seq<ClusterView>, i: int, col: int, start: int, end: int)
    requires
        0 <= i <= cs.len(),
        0 <= col <= usize::MAX,
        0 <= start <= end,
    ensures
        0 <= kept_columns(cs, i, col, start, end),
        kept_columns(cs, i, col, start, end) <= end - start,
        start <= col <= end ==> kept_columns(cs, i, col, start, end) <= end - col,
    decreases cs.len() - i,
{
    if i < cs.len() && col < end {
        slices_fit(cs, i + 1, display::column_after(cs[i], col), start, end);
    }
}

/// A line that is cut leaves room for the ellipsis: what is kept of it takes
/// one column less than there is.
pub proof fn truncation_leaves_room_for_the_ellipsis(cs: Seq<ClusterView>, columns: usize)
    requires
        columns >= 2,
        display::end_column(cs, 0) > columns,
    ensures
        ({
            let width = display::end_column(cs, 0);
            let half = columns as int / 2;
            &&& kept_columns(cs, 0, 0, 0, columns - 1) <= columns - 1
            &&& kept_columns(cs, 0, 0, width - columns + 1, width) <= columns - 1
            &&& kept_columns(cs, 0, 0, 0, half) + kept_columns(
                cs,
                0,
                0,
                width - (columns - half - 1),
                width,
            ) <= columns - 1
        }),
{
    let width = display::end_column(cs, 0);
    let half = columns as int / 2;
    slices_fit(cs, 0, 0, 0, columns - 1);
    slices_fit(cs, 0, 0, width - columns + 1, width);
    slices_fit(cs, 0, 0, 0, half);
    slices_fit(cs, 0, 0, width - (columns - half - 1), width);
}

/// Whether `cs` are the clusters of a printable ASCII text: one for each
/// character, of one column.
pub open spec fn one_per_char(cs: Seq<ClusterView>, text: Seq<char>) -> bool {
    &&& cs.len() == text.len()
    &&& text.len() <= usize::MAX
    &&& chars::all_in(text, |c: char| chars::printable_ascii(c))
    &&& forall|i: int|
        0 <= i < cs.len() ==> (#[trigger] cs[i]) == (ClusterView { text: seq![text[i]], width: 1 })
}

/// The clusters that a printable ASCII text is cut into are those.
pub proof fn clusters_are_one_per_char(clusters: Vec<Cluster>, text: Seq<char>)
    requires
        chars::all_in(text, |c: char| chars::printable_ascii(c)) ==> clusters@.len() == text.len()
            && forall|i: int|
            0 <= i < clusters@.len() ==> (#[trigger] clusters@[i])@ == (ClusterView {
                text: seq![text[i]],
                width: 1,
            }),
    ensures
        chars::all_in(text, |c: char| chars::printable_ascii(c)) ==> one_per_char(
            display::cluster_views(clusters@),
            text,
        ),
{
    let cs = display::cluster_views(clusters@);
    assert(clusters@.len() == clusters.len());
    assert forall|i: int| 0 <= i < cs.len() implies (#[trigger] cs[i]) == clusters@[i]@ by {}
}

/// A printable ASCII character takes one column.
proof fn ascii_column(cs: Seq<ClusterView>, text: Seq<char>, i: int, col: int)
    requires
        one_per_char(cs, text),
        0 <= i < cs.len(),
        0 <= col < usize::MAX,
    ensures
        display::column_after(cs[i], col) == col + 1,
{
    assert(chars::printable_ascii(text[i]));
    assert(cs[i].text[0] == text[i]);
    assert(seq!['\t'][0] == '\t');
    assert(!chars::control(cs[i].text[0]));
}

/// A printable ASCII text takes a column for each character.
pub proof fn ascii_takes_a_column_each(cs: Seq<ClusterView>, text: Seq<char>)
    requires
        one_per_char(cs, text),
    ensures
        display::end_column(cs, 0) == text.len(),
{
    display::ascii_end_column(cs, text, 0);
}

/// Between two columns of a printable ASCII text stand the characters that are
/// counted by the columns.
pub proof fn ascii_slices(
    cs: Seq<ClusterView>,
    text: Seq<char>,
    i: int,
    start: int,
    end: int,
)
    requires
        one_per_char(cs, text),
        0 <= start <= end <= text.len(),
        0 <= i <= end,
    ensures
        text::between(cs, i, i, start, end) == text.subrange(
            if i < start {
                start
            } else {
                i
            },
            end,
        ),
    decreases end - i,
{
    if i < end {
        ascii_column(cs, text, i, i);
        ascii_slices(cs, text, i + 1, start, end);
        let rest = text::between(cs, i + 1, i + 1, start, end);
        if start <= i {
            assert(seq![text[i]] + rest =~= text.subrange(i, end));
        }
    } else {
        assert(text::between(cs, i, i, start, end) =~= text.subrange(end, end));
    }
}

/// A printable ASCII line that is too long is cut character by character.
pub proof fn ascii_truncation(
    text: Seq<char>,
    cs: Seq<ClusterView>,
    columns: usize,
    position: TruncatePosition,
)
    requires
        one_per_char(cs, text),
        2 <= columns < text.len(),
    ensures
        ({
            let half = columns as int / 2;
            text::truncated(text, cs, columns, position) == match position {
                TruncatePosition::Start => "…"@ + text.skip(text.len() - columns + 1),
                TruncatePosition::Middle => text.take(half) + "…"@ + text.skip(
                    text.len() - (columns - half - 1),
                ),
                TruncatePosition::End => text.take(columns - 1) + "…"@,
            }
        }),
{
    let n = text.len() as int;
    let half = columns as int / 2;
    ascii_takes_a_column_each(cs, text);
    ascii_slices(cs, text, 0, n - columns + 1, n);
    ascii_slices(cs, text, 0, 0, half);
    ascii_slices(cs, text, 0, n - (columns - half - 1), n);
    ascii_slices(cs, text, 0, 0, columns - 1);
    assert(text.subrange(n - columns + 1, n) =~= text.skip(n - columns + 1));
    assert(text.subrange(0, half) =~= text.take(half));
    assert(text.subrange(n - (columns - half - 1), n) =~= text.skip(n - (columns - half - 1)));
    assert(text.subrange(0, columns - 1) =~= text.take(columns - 1));
}

/// A line that fits stands inside its place: at its left end, at its right
/// end, or with as much room before it as after it, to a column.
pub proof fn lines_stand_in_their_place(line_width: usize, width: usize)
    requires
        line_width <= width <= isize::MAX,
    ensures
        text::padding(line_width, TextAlign::Left, width) == 0,
        text::padding(line_width, TextAlign::Right, width) + line_width == width,
        ({
            let before = text::padding(line_width, TextAlign::Center, width);
            let after = width - line_width - before;
            0 <= before && 0 <= after && -1 <= after - before <= 1
        }),
{
}

/// Where a line and its place both have a middle, a centered line stands with
/// as much room before it as after it. Where one of them has an odd column, it
/// stands as though that column were not there.
pub proof fn centered_lines_stand_in_the_middle(half_line: usize, half_width: usize)
    requires
        2 * half_line + 1 <= isize::MAX,
        2 * half_width + 1 <= isize::MAX,
    ensures
        ({
            let line = (2 * half_line) as usize;
            let width = (2 * half_width) as usize;
            let before = half_width - half_line;
            &&& text::padding(line, TextAlign::Center, width) == before
            &&& before == width - line - before
            &&& text::padding((line + 1) as usize, TextAlign::Center, width) == before
            &&& text::padding(line, TextAlign::Center, (width + 1) as usize) == before
            &&& text::padding((line + 1) as usize, TextAlign::Center, (width + 1) as usize)
                == before
        }),
{
}

/// There is always one piece.
pub proof fn split_from_is_not_empty(s: Seq<char>, from: int)
    requires
        0 <= from <= s.len(),
    ensures
        chars::split_from(s, '\n', from).len() > 0,
{
    chars::find_from_bounds(s, '\n', from);
}

/// A text put together from its lines again.
proof fn pieces_join(s: Seq<char>, from: int)
    requires
        0 <= from <= s.len(),
    ensures
        join_front(chars::split_from(s, '\n', from)) == s.skip(from),
        chars::split_from(s, '\n', from).len() > 0,
    decreases s.len() - from,
{
    let at = chars::find_from(s, '\n', from);
    let parts = chars::split_from(s, '\n', from);
    chars::find_from_bounds(s, '\n', from);
    if at >= s.len() {
        assert(parts =~= seq![s.skip(from)]);
        assert(s.subrange(from, s.len() as int) =~= s.skip(from));
        assert(join_front(parts) =~= s.skip(from));
    } else {
        pieces_join(s, at + 1);
        let rest = chars::split_from(s, '\n', at + 1);
        assert(parts == seq![s.subrange(from, at)] + rest);
        assert(parts.skip(1) =~= rest);
        assert(s[at] == '\n');
        assert(join_front(parts) =~= s.skip(from));
    }
}

/// Pieces with a line feed between them, from the first on.
pub open spec fn join_front(parts: Seq<Seq<char>>) -> Seq<char>
    decreases parts.len(),
{
    if parts.len() == 0 {
        Seq::empty()
    } else if parts.len() == 1 {
        parts[0]
    } else {
        parts[0] + seq!['\n'] + join_front(parts.skip(1))
    }
}

/// It makes no difference at which end one begins to put pieces together.
pub proof fn joins_agree(parts: Seq<Seq<char>>)
    ensures
        join_front(parts) == chars::join(parts, seq!['\n']),
    decreases parts.len(),
{
    if parts.len() == 2 {
        assert(parts.skip(1).len() == 1);
        assert(parts.drop_last().len() == 1);
        reveal_with_fuel(join_front, 2);
        reveal_with_fuel(chars::join, 2);
        assert(join_front(parts) =~= chars::join(parts, seq!['\n']));
    } else if parts.len() > 2 {
        let front = parts.drop_last();
        let back = parts.skip(1);
        joins_agree(front);
        joins_agree(back);
        joins_agree(back.drop_last());
        assert(front.skip(1) =~= back.drop_last());
        assert(back.last() == parts.last());
        assert(front[0] == parts[0]);
        assert(join_front(parts) =~= chars::join(parts, seq!['\n']));
    }
}

/// The modes that leave a text alone cut it into its lines and nothing more:
/// put together again, the lines are the text.
pub proof fn lines_left_alone_are_the_text(content: Seq<char>, wrap: text::TextWrap, width: usize)
    requires
        text::leaves_alone(wrap),
    ensures
        text::laid_out(content, wrap, width) == content,
{
    reveal_strlit("\n");
    assert("\n"@ =~= seq!['\n']);
    let lines = chars::split(content, '\n');
    pieces_join(content, 0);
    joins_agree(lines);
    assert(content.skip(0) =~= content);
    assert(text::texts_of(text::lines_of(content, wrap, width)) =~= lines);
}

/// A part that sets nothing is styled as the text round it.
pub proof fn parts_inherit_what_they_do_not_set(
    style: CanvasTextStyle,
    background_color: Option<Color>,
    hyperlink: Option<Seq<char>>,
    segment: StyledSegment,
)
    requires
        segment.styles == style::inherited(),
        segment.hyperlink is None,
    ensures
        ({
            let part = text::merged(style, background_color, hyperlink, segment);
            &&& part.text == segment.text@
            &&& part.color == style.color
            &&& part.background_color == background_color
            &&& part.weight == style.weight || style.dim
            &&& part.dim == (style.dim || style.weight == Weight::Light)
            &&& part.decoration == (if style.underline {
                TextDecoration::Underline
            } else {
                TextDecoration::Plain
            })
            &&& part.italic == style.italic
            &&& part.strikethrough == style.strikethrough
            &&& part.overline == style.overline
            &&& part.invert == style.invert
            &&& part.href == hyperlink
        }),
{
}

/// What a part sets for itself counts, whatever the text round it says: what
/// is switched off stays off, and bold and dim go together.
pub proof fn parts_override_what_they_set(
    style: CanvasTextStyle,
    background_color: Option<Color>,
    hyperlink: Option<Seq<char>>,
    segment: StyledSegment,
)
    ensures
        ({
            let part = text::merged(style, background_color, hyperlink, segment);
            &&& segment.styles.color is Some ==> part.color == segment.styles.color
            &&& segment.styles.background_color is Some ==> part.background_color
                == segment.styles.background_color
            &&& segment.styles.bold matches Some(bold) ==> (part.weight == Weight::Bold) == bold
            &&& segment.styles.dim matches Some(dim) ==> part.dim == dim
            &&& segment.styles.bold == Some(false) && segment.styles.dim == Some(false)
                ==> part.weight == Weight::Normal
            &&& segment.styles.italic matches Some(italic) ==> part.italic == italic
            &&& segment.styles.inverse matches Some(invert) ==> part.invert == invert
            &&& segment.styles.underline matches Some(underline) ==> (part.decoration
                == TextDecoration::Underline) == underline
            &&& segment.styles.strikethrough matches Some(strikethrough) ==> part.strikethrough
                == strikethrough
            &&& env::opt_view(segment.hyperlink) matches Some(href) ==> part.href == if href.len()
                > 0 {
                Some(href)
            } else {
                hyperlink
            }
        }),
{
}

/// Parts that say nothing are not there: a text made of them is empty.
pub proof fn silent_parts_are_left_out(
    style: CanvasTextStyle,
    background_color: Option<Color>,
    hyperlink: Option<Seq<char>>,
    segments: Seq<StyledSegment>,
)
    requires
        forall|i: int| 0 <= i < segments.len() ==> (#[trigger] segments[i]).text@.len() == 0,
    ensures
        text::merged_all(style, background_color, hyperlink, segments).len() == 0,
    decreases segments.len(),
{
    if segments.len() > 0 {
        assert(segments[segments.len() - 1].text@.len() == 0);
        silent_parts_are_left_out(style, background_color, hyperlink, segments.drop_last());
    }
}

/// A trimmed text has no white space at its ends.
proof fn trimmed_ends(s: Seq<char>)
    ensures
        ({
            let t = chars::trim_both(s);
            t.len() > 0 ==> !chars::whitespace(t[0]) && !chars::whitespace(t.last())
        }),
{
    let class = |c: char| chars::whitespace(c);
    let b = chars::trim_back(s);
    chars::trailing_bounds(s, class);
    chars::leading_bounds(b, class);
    let t = chars::trim_both(s);
    if t.len() > 0 {
        assert(t[0] == b[chars::leading(b, class)]);
        assert(t.last() == s[s.len() - chars::trailing(s, class) - 1]);
        assert(!class(t[0]));
        assert(!class(t.last()));
    }
}

/// Where a text is wrapped and trimmed, no line has white space at its ends.
pub proof fn trimmed_lines_have_no_blank_ends(content: Seq<char>, width: usize, i: int)
    requires
        0 <= i < text::lines_of(content, text::TextWrap::WrapTrim, width).len(),
    ensures
        ({
            let line = text::lines_of(content, text::TextWrap::WrapTrim, width)[i].text;
            line.len() > 0 ==> !chars::whitespace(line[0]) && !chars::whitespace(line.last())
        }),
{
    let source = text::trimmed_lines(content);
    trimmed_ends(segmented_string::wrapped(source, width)[i].text);
}

/// A text that is cut or left alone has as many lines as it had.
pub proof fn uncut_lines_are_not_added(content: Seq<char>, wrap: text::TextWrap, width: usize)
    requires
        text::leaves_alone(wrap) || text::cut_of(wrap) is Some,
    ensures
        text::lines_of(content, wrap, width).len() == chars::split(content, '\n').len(),
{
}

/// Each line is drawn on a row of its own, from the first row on.
pub proof fn rows_follow_the_lines(
    drawer: DrawerView,
    lines: Seq<text::WrappedView>,
    pads: Seq<int>,
    ink: InkView,
    order: OrderView,
)
    requires
        drawer.y == 0,
        lines.len() <= isize::MAX,
    ensures
        ({
            let end = drawer.after_all(lines, pads, ink, order);
            &&& lines.len() > 0 ==> end.y == lines.len() - 1
            &&& end.x_offset == drawer.x_offset
        }),
    decreases lines.len(),
{
    if lines.len() > 1 {
        rows_follow_the_lines(drawer, lines.drop_last(), pads, ink, order);
    }
}

/// A text put on a row by a drawer.
pub open spec fn put(x: int, y: int, text: Seq<char>, ink: InkView) -> DrawOpView {
    DrawOpView::SetText { x, y, text, style: ink.style, hyperlink: ink.hyperlink }
}

/// Texts without a mark that their row goes on with the row above it.
pub open spec fn unmarked(texts: Seq<Seq<char>>) -> Seq<(Seq<char>, bool)> {
    texts.map_values(|text: Seq<char>| (text, false))
}

/// Where a drawer begins the text with number `i` of several texts.
pub open spec fn begin_of(drawer: DrawerView, i: int) -> int {
    if i == 0 {
        drawer.x
    } else {
        drawer.x_offset
    }
}

/// Texts that are appended without a background stand below each other: the
/// first where the drawer is, each other one at the beginning of the next row.
/// Nothing else is drawn, and the drawer stays behind the last text, on its
/// row.
pub proof fn appended_texts_go_down(
    drawer: DrawerView,
    texts: Seq<Seq<char>>,
    ink: InkView,
    order: OrderView,
)
    requires
        texts.len() > 0,
        !drawer.skip_leading_whitespace,
        ink.background_color is None,
        0 <= drawer.y,
        drawer.y + texts.len() <= isize::MAX,
    ensures
        ({
            let n = texts.len();
            let end = drawer.after_lines(unmarked(texts), ink, order);
            let begin = begin_of(drawer, n - 1);
            &&& end.ops == drawer.ops + Seq::new(
                n,
                |i: int| put(begin_of(drawer, i), drawer.y + i, (order.show)(texts[i]), ink),
            )
            &&& end.x == drawer::clamp_isize(
                begin + display::columns_from(
                    (order.show)(texts.last()),
                    drawer::from_margin(begin),
                ),
            )
            &&& end.y == drawer.y + n - 1
            &&& end.x_offset == drawer.x_offset
            &&& !end.skip_leading_whitespace
        }),
    decreases texts.len(),
{
    let n = texts.len() - 1;
    let lines = unmarked(texts);
    let end = drawer.after_lines(lines, ink, order);
    let goal = drawer.ops + Seq::new(
        texts.len(),
        |i: int| put(begin_of(drawer, i), drawer.y + i, (order.show)(texts[i]), ink),
    );
    assert(texts[n].skip(0) =~= texts[n]);
    if n > 0 {
        appended_texts_go_down(drawer, texts.drop_last(), ink, order);
        assert(lines.drop_last() =~= unmarked(texts.drop_last()));
    }
    assert(end.ops =~= goal);
}

/// Texts that are appended to a new drawer stand below each other from the
/// first row on. A text that is appended after them goes on behind the last of
/// them, on its row.
pub proof fn an_append_goes_on_behind_the_one_before(
    x_offset: int,
    texts: Seq<Seq<char>>,
    ink: InkView,
    more: Seq<char>,
    more_ink: InkView,
    order: OrderView,
)
    requires
        0 <= x_offset,
        0 < texts.len() <= isize::MAX,
        ink.background_color is None,
        more_ink.background_color is None,
    ensures
        ({
            let n = texts.len();
            let drawn = drawer::new_drawer(x_offset, false).after_lines(
                unmarked(texts),
                ink,
                order,
            );
            &&& drawn.ops == Seq::new(
                n,
                |i: int| put(x_offset, i, (order.show)(texts[i]), ink),
            )
            &&& drawn.after_lines(unmarked(seq![more]), more_ink, order).ops == drawn.ops.push(
                put(
                    drawer::clamp_isize(
                        x_offset + display::columns_from((order.show)(texts.last()), x_offset),
                    ),
                    n - 1,
                    (order.show)(more),
                    more_ink,
                ),
            )
        }),
{
    let start = drawer::new_drawer(x_offset, false);
    let drawn = start.after_lines(unmarked(texts), ink, order);
    appended_texts_go_down(start, texts, ink, order);
    assert(drawn.ops =~= Seq::new(
        texts.len(),
        |i: int| put(x_offset, i, (order.show)(texts[i]), ink),
    ));
    let next = drawn.after_lines(unmarked(seq![more]), more_ink, order);
    assert(more.skip(0) =~= more);
    assert(next.ops =~= drawn.ops.push(
        put(drawn.x, texts.len() - 1, (order.show)(more), more_ink),
    ));
}

/// A text looks as its component is told: each field of its style is that of
/// the component. The text is bold where bold is asked for, and as heavy as is
/// asked for where it is neither bold nor dim. It is underlined or inverted
/// where either of the two ways to ask for it is taken.
pub proof fn texts_look_as_they_are_told(props: text::TextProps)
    ensures
        ({
            let style = text::style_of(props);
            &&& style.color == props.color
            &&& style.italic == props.italic
            &&& style.strikethrough == props.strikethrough
            &&& style.overline == props.overline
            &&& style.dim == props.dim
            &&& style.underline <==> props.underline || props.decoration
                == TextDecoration::Underline
            &&& style.invert <==> props.invert || props.inverse
            &&& props.bold ==> style.weight == Weight::Bold
            &&& !props.bold && props.dim ==> style.weight == Weight::Light
            &&& !props.bold && !props.dim ==> style.weight == props.weight
            &&& style.underline_style == style::UnderlineStyle::Single
            &&& style.underline_color is None
            &&& !style.blink
            &&& !style.hidden
        }),
{
}

/// Two components that differ in one field look different in that field only:
/// the color and the flags of a text do not disturb each other.
pub proof fn fields_do_not_disturb_each_other(a: text::TextProps, b: text::TextProps)
    ensures
        ({
            let x = text::style_of(a);
            let y = text::style_of(b);
            &&& a.color == b.color <==> x.color == y.color
            &&& a.italic == b.italic <==> x.italic == y.italic
            &&& a.strikethrough == b.strikethrough <==> x.strikethrough == y.strikethrough
            &&& a.overline == b.overline <==> x.overline == y.overline
            &&& a.dim == b.dim <==> x.dim == y.dim
            &&& a.bold == b.bold && a.dim == b.dim && a.weight == b.weight ==> x.weight == y.weight
            &&& a.underline == b.underline && a.decoration == b.decoration ==> x.underline
                == y.underline
            &&& a.invert == b.invert && a.inverse == b.inverse ==> x.invert == y.invert
        }),
{
}

/// Each field of a part is its own where the part sets it, and that of the
/// text round it where it does not, one by one.
pub proof fn fields_of_parts_are_their_own_or_inherited(
    style: CanvasTextStyle,
    background_color: Option<Color>,
    hyperlink: Option<Seq<char>>,
    segment: StyledSegment,
)
    ensures
        ({
            let part = text::merged(style, background_color, hyperlink, segment);
            let own = segment.styles;
            let bold = match own.bold {
                Some(bold) => bold,
                None => style.weight == Weight::Bold,
            };
            &&& part.text == segment.text@
            &&& own.color is None ==> part.color == style.color
            &&& own.color is Some ==> part.color == own.color
            &&& own.background_color is None ==> part.background_color == background_color
            &&& own.background_color is Some ==> part.background_color == own.background_color
            &&& part.weight == Weight::Bold <==> bold
            &&& part.weight == Weight::Light <==> !bold && part.dim
            &&& own.dim is None ==> (part.dim <==> style.dim || style.weight == Weight::Light)
            &&& own.dim matches Some(dim) ==> part.dim == dim
            &&& own.italic is None ==> part.italic == style.italic
            &&& own.italic matches Some(italic) ==> part.italic == italic
            &&& own.underline is None ==> (part.decoration == TextDecoration::Underline
                <==> style.underline)
            &&& own.underline matches Some(underline) ==> (part.decoration
                == TextDecoration::Underline <==> underline)
            &&& own.strikethrough is None ==> part.strikethrough == style.strikethrough
            &&& own.strikethrough matches Some(strikethrough) ==> part.strikethrough
                == strikethrough
            &&& own.inverse is None ==> part.invert == style.invert
            &&& own.inverse matches Some(inverse) ==> part.invert == inverse
            &&& part.overline == style.overline
            &&& segment.hyperlink is None ==> part.href == hyperlink
            &&& segment.hyperlink matches Some(href) ==> part.href == if href@.len() > 0 {
                Some(href@)
            } else {
                hyperlink
            }
        }),
{
}

/// The texts of segments one after the other.
pub open spec fn text_of_segments(segments: Seq<StyledSegment>) -> Seq<char>
    decreases segments.len(),
{
    if segments.len() == 0 {
        Seq::empty()
    } else {
        text_of_segments(segments.drop_last()) + segments.last().text@
    }
}

/// The parts of a text say what its segments say, in their order, and none of
/// them says nothing.
pub proof fn parts_say_what_the_segments_say(
    style: CanvasTextStyle,
    background_color: Option<Color>,
    hyperlink: Option<Seq<char>>,
    segments: Seq<StyledSegment>,
)
    ensures
        ({
            let parts = text::merged_all(style, background_color, hyperlink, segments);
            &&& mixed::text_of_parts(parts) == text_of_segments(segments)
            &&& forall|i: int| 0 <= i < parts.len() ==> (#[trigger] parts[i]).text.len() > 0
        }),
    decreases segments.len(),
{
    if segments.len() > 0 {
        let first = segments.drop_last();
        let before = text::merged_all(style, background_color, hyperlink, first);
        let last = text::merged(style, background_color, hyperlink, segments.last());
        parts_say_what_the_segments_say(style, background_color, hyperlink, first);
        assert(before.push(last).drop_last() =~= before);
        if segments.last().text@.len() == 0 {
            assert(text_of_segments(first) + segments.last().text@ =~= text_of_segments(first));
        }
    }
}

/// Segments that each say something become one part each, in order.
pub proof fn segments_become_parts_one_by_one(
    style: CanvasTextStyle,
    background_color: Option<Color>,
    hyperlink: Option<Seq<char>>,
    segments: Seq<StyledSegment>,
)
    requires
        forall|i: int| 0 <= i < segments.len() ==> (#[trigger] segments[i]).text@.len() > 0,
    ensures
        ({
            let parts = text::merged_all(style, background_color, hyperlink, segments);
            &&& parts.len() == segments.len()
            &&& forall|i: int|
                0 <= i < parts.len() ==> #[trigger] parts[i] == text::merged(
                    style,
                    background_color,
                    hyperlink,
                    segments[i],
                )
        }),
    decreases segments.len(),
{
    if segments.len() > 0 {
        let first = segments.drop_last();
        assert forall|i: int| 0 <= i < first.len() implies (#[trigger] first[i]).text@.len() > 0 by {
            assert(segments[i] == first[i]);
        }
        segments_become_parts_one_by_one(style, background_color, hyperlink, first);
        assert(segments[segments.len() - 1].text@.len() > 0);
    }
}

/// A part is drawn with its own style: its color, its background, its weight,
/// its decorations and its link.
pub proof fn parts_are_drawn_with_their_own_style(part: text::ContentView)
    ensures
        ({
            let ink = mixed::part_ink(part);
            &&& ink.style.color == part.color
            &&& ink.background_color == part.background_color
            &&& ink.hyperlink == part.href
            &&& ink.style.weight == part.weight
            &&& ink.style.dim == part.dim
            &&& ink.style.underline <==> part.decoration == TextDecoration::Underline
            &&& ink.style.italic == part.italic
            &&& ink.style.strikethrough == part.strikethrough
            &&& ink.style.overline == part.overline
            &&& ink.style.invert == part.invert
            &&& ink.style.underline_style == style::UnderlineStyle::Single
            &&& ink.style.underline_color is None
            &&& !ink.style.blink
            &&& !ink.style.hidden
        }),
{
}

/// Each character of a text of parts belongs to the part that it comes from:
/// a place behind the parts before a part, and inside its text, is its own.
pub proof fn places_belong_to_the_part_that_stands_there(
    parts: Seq<text::ContentView>,
    i: int,
    k: int,
)
    requires
        0 <= i < parts.len(),
        0 <= k < parts[i].text.len(),
    ensures
        ({
            let place = mixed::text_of_parts(parts.take(i)).len() + k;
            &&& mixed::owner_at(parts, place) == i
            &&& place < mixed::text_of_parts(parts).len()
            &&& mixed::text_of_parts(parts)[place] == parts[i].text[k]
        }),
    decreases parts.len(),
{
    let n = parts.len() - 1;
    let first = parts.drop_last();
    owners_count_the_text(parts);
    owners_count_the_text(first);
    let place = mixed::text_of_parts(parts.take(i)).len() + k;
    assert(parts.take(i) =~= first.take(i));
    if i < n {
        places_belong_to_the_part_that_stands_there(first, i, k);
        assert(first[i] == parts[i]);
    } else {
        assert(first.take(n) =~= first);
        assert(mixed::owners(parts)[place] == n);
    }
}

/// There is an owner for each character.
proof fn owners_count_the_text(parts: Seq<text::ContentView>)
    ensures
        mixed::owners(parts).len() == mixed::text_of_parts(parts).len(),
    decreases parts.len(),
{
    if parts.len() > 0 {
        owners_count_the_text(parts.drop_last());
    }
}

/// What a line of a list is drawn with at the left margin of the row with its
/// number: its mark, its background and its text.
pub open spec fn row_strokes(
    lines: Seq<text::WrappedView>,
    ink: InkView,
    order: OrderView,
    i: int,
) -> Seq<DrawOpView> {
    let text = (order.show)(lines[i].text);
    let above = if i == 0 {
        0
    } else {
        lines[i - 1].content_end
    };
    let mark = if lines[i].soft_continuation {
        seq![DrawOpView::MarkSoftWrap { y: i, content_end: above }]
    } else {
        Seq::empty()
    };
    let behind = match ink.background_color {
        Some(color) => seq![
            DrawOpView::SetBackground { x: 0, y: i, width: display::columns(text), color },
        ],
        None => Seq::empty(),
    };
    mark + behind + seq![put(0, i, text, ink)]
}

/// The strokes of the first `n` lines.
pub open spec fn rows_strokes(
    lines: Seq<text::WrappedView>,
    ink: InkView,
    order: OrderView,
    n: int,
) -> Seq<DrawOpView>
    decreases n,
{
    if n <= 0 {
        Seq::empty()
    } else {
        rows_strokes(lines, ink, order, n - 1) + row_strokes(lines, ink, order, n - 1)
    }
}

/// A text that is aligned to the left is drawn line by line at the left margin,
/// each line on its row with the style, the background and the link of the
/// text. A line that goes on with the one above it is marked with where that
/// one ends.
pub proof fn left_lines_are_drawn_at_the_margin(
    lines: Seq<text::WrappedView>,
    width: usize,
    ink: InkView,
    order: OrderView,
)
    requires
        lines.len() <= isize::MAX,
        forall|i: int|
            0 <= i < lines.len() ==> 0 <= (#[trigger] lines[i]).content_end <= isize::MAX,
    ensures
        drawer::drawing(lines, TextAlign::Left, width, ink, order) == rows_strokes(
            lines,
            ink,
            order,
            lines.len() as int,
        ),
{
    let pads = drawer::paddings(lines, TextAlign::Left, width);
    left_lines_are_not_moved(lines, width);
    left_rows(lines, pads, ink, order);
}

/// Left lines have no padding.
proof fn left_lines_are_not_moved(lines: Seq<text::WrappedView>, width: usize)
    ensures
        ({
            let pads = drawer::paddings(lines, TextAlign::Left, width);
            &&& pads.len() == lines.len()
            &&& forall|i: int| 0 <= i < pads.len() ==> #[trigger] pads[i] == 0
            &&& drawer::smallest(pads) == 0
        }),
{
    let pads = drawer::paddings(lines, TextAlign::Left, width);
    no_padding_is_smallest(pads);
}

/// The smallest of zeros is zero.
proof fn no_padding_is_smallest(pads: Seq<int>)
    requires
        forall|i: int| 0 <= i < pads.len() ==> #[trigger] pads[i] == 0,
    ensures
        drawer::smallest(pads) == 0,
    decreases pads.len(),
{
    if pads.len() > 1 {
        let first = pads.drop_last();
        assert forall|i: int| 0 <= i < first.len() implies #[trigger] first[i] == 0 by {
            assert(pads[i] == 0);
        }
        assert(pads[pads.len() - 1] == 0);
        no_padding_is_smallest(first);
    }
}

/// The step behind [`left_lines_are_drawn_at_the_margin`].
proof fn left_rows(
    lines: Seq<text::WrappedView>,
    pads: Seq<int>,
    ink: InkView,
    order: OrderView,
)
    requires
        lines.len() <= isize::MAX,
        lines.len() <= pads.len(),
        forall|i: int| 0 <= i < lines.len() ==> #[trigger] pads[i] == 0,
        forall|i: int|
            0 <= i < lines.len() ==> 0 <= (#[trigger] lines[i]).content_end <= isize::MAX,
    ensures
        ({
            let end = drawer::new_drawer(0, false).after_all(lines, pads, ink, order);
            &&& end.ops == rows_strokes(lines, ink, order, lines.len() as int)
            &&& lines.len() > 0 ==> end.y == lines.len() - 1 && end.prev_line_content_end
                == lines.last().content_end
            &&& end.x_offset == 0
            &&& !end.skip_leading_whitespace
        }),
    decreases lines.len(),
{
    let start = drawer::new_drawer(0, false);
    let end = start.after_all(lines, pads, ink, order);
    if lines.len() > 0 {
        let n = lines.len() - 1;
        let first = lines.drop_last();
        assert forall|i: int| 0 <= i < first.len() implies 0 <= (#[trigger] first[i]).content_end
            <= isize::MAX by {
            assert(lines[i] == first[i]);
        }
        left_rows(first, pads, ink, order);
        strokes_do_not_look_ahead(lines, ink, order, n);
        assert(lines[n].text.skip(0) =~= lines[n].text);
        assert(pads[n] == 0);
        assert(lines[n].content_end <= isize::MAX);
        assert(end.ops =~= rows_strokes(lines, ink, order, lines.len() as int));
    }
}

/// The strokes of the first lines are the same whatever follows.
proof fn strokes_do_not_look_ahead(
    lines: Seq<text::WrappedView>,
    ink: InkView,
    order: OrderView,
    n: int,
)
    requires
        0 <= n < lines.len(),
    ensures
        rows_strokes(lines.drop_last(), ink, order, n) == rows_strokes(lines, ink, order, n),
    decreases n,
{
    if n > 0 {
        strokes_do_not_look_ahead(lines, ink, order, n - 1);
        assert(lines.drop_last()[n - 1] == lines[n - 1]);
        assert(n > 1 ==> lines.drop_last()[n - 2] == lines[n - 2]);
    }
}

/// White space at the front of a row that is not to be drawn is passed over:
/// the cursor moves behind it, and what is drawn begins with something else.
pub proof fn skipped_white_space_is_passed_over(
    d: DrawerView,
    blanks: Seq<char>,
    rest: Seq<char>,
    ink: InkView,
    order: OrderView,
)
    requires
        d.skip_leading_whitespace,
        !d.line_encountered_non_whitespace,
        ink.background_color is None,
        forall|i: int| 0 <= i < blanks.len() ==> chars::whitespace(#[trigger] blanks[i]),
        rest.len() > 0,
        !chars::whitespace(rest[0]),
    ensures
        d.after_line((blanks + rest, false), ink, order).ops == d.ops.push(
            put(
                drawer::clamp_isize(
                    d.x + display::columns_from(blanks, drawer::from_margin(d.x)),
                ),
                d.y,
                (order.show)(rest),
                ink,
            ),
        ),
        d.after_line((blanks + rest, false), ink, order).line_encountered_non_whitespace,
{
    let all = blanks + rest;
    let class = |c: char| chars::whitespace(c);
    assert forall|i: int| 0 <= i < blanks.len() implies class(#[trigger] all[i]) by {
        assert(chars::whitespace(blanks[i]));
    }
    assert(all[blanks.len() as int] == rest[0]);
    chars::leading_is(all, class, blanks.len() as int);
    assert(all.take(blanks.len() as int) =~= blanks);
    assert(all.skip(blanks.len() as int) =~= rest);
    let end = d.after_line((all, false), ink, order);
    assert(end.ops =~= d.ops.push(
        put(
            drawer::clamp_isize(d.x + display::columns_from(blanks, drawer::from_margin(d.x))),
            d.y,
            (order.show)(rest),
            ink,
        ),
    ));
}

/// A text is as wide as its widest line: no line is wider, and one is as wide.
pub proof fn texts_are_as_wide_as_their_widest_line(lines: Seq<Seq<char>>)
    requires
        lines.len() > 0,
        forall|i: int| 0 <= i < lines.len() ==> 0 <= display::columns(#[trigger] lines[i]),
    ensures
        forall|i: int|
            0 <= i < lines.len() ==> display::columns(#[trigger] lines[i]) <= display::widest(
                lines,
            ),
        exists|i: int|
            0 <= i < lines.len() && display::columns(#[trigger] lines[i]) == display::widest(lines),
    decreases lines.len(),
{
    let n = lines.len() - 1;
    let first = lines.drop_last();
    if n == 0 {
        assert(display::widest(first) == 0);
        assert(display::columns(lines[0]) == display::widest(lines));
    } else {
        assert forall|i: int| 0 <= i < first.len() implies 0 <= display::columns(
            #[trigger] first[i],
        ) by {
            assert(lines[i] == first[i]);
        }
        texts_are_as_wide_as_their_widest_line(first);
        let k = choose|i: int|
            0 <= i < first.len() && display::columns(#[trigger] first[i]) == display::widest(first);
        assert(lines[k] == first[k]);
        assert forall|i: int| 0 <= i < lines.len() implies display::columns(#[trigger] lines[i])
            <= display::widest(lines) by {
            if i < n {
                assert(first[i] == lines[i]);
            }
        }
        if display::columns(lines[n]) > display::widest(first) {
            assert(display::columns(lines[n]) == display::widest(lines));
        } else {
            assert(display::columns(lines[k]) == display::widest(lines));
        }
    }
}

/// A text is laid out for the room that there is: for a width that is known,
/// else for the width that is offered, else as narrow as can be. Where there is
/// room without end, or where it is left alone, it stays as it is.
pub proof fn texts_are_laid_out_for_their_room(
    content: Seq<char>,
    wrap: text::TextWrap,
    known: usize,
    offered: usize,
    room: text::AvailableSpace,
)
    ensures
        text::leaves_alone(wrap) ==> text::fitted(content, wrap, Some(known), room) == content
            && text::fitted(content, wrap, None, room) == content,
        !text::leaves_alone(wrap) ==> {
            &&& text::fitted(content, wrap, Some(known), room) == text::laid_out(
                content,
                wrap,
                known,
            )
            &&& text::fitted(content, wrap, None, text::AvailableSpace::Definite(offered))
                == text::laid_out(content, wrap, offered)
            &&& text::fitted(content, wrap, None, text::AvailableSpace::MaxContent) == content
            &&& text::fitted(content, wrap, None, text::AvailableSpace::MinContent)
                == text::laid_out(content, wrap, 1)
        },
        text::leaves_alone(wrap) <==> wrap == text::TextWrap::NoWrap || wrap
            == text::TextWrap::End || wrap == text::TextWrap::Middle,
{
}

/// A line that is cut keeps no more than there is room for: no column leaves
/// nothing, one column leaves the ellipsis alone, and a line that fits stays.
pub proof fn lines_are_cut_only_where_they_must_be(
    line: Seq<char>,
    cs: Seq<ClusterView>,
    columns: usize,
    position: TruncatePosition,
)
    ensures
        columns == 0 ==> text::truncated(line, cs, columns, position).len() == 0,
        columns == 1 ==> text::truncated(line, cs, columns, position) == seq!['…'],
        columns >= 2 && display::end_column(cs, 0) <= columns ==> text::truncated(
            line,
            cs,
            columns,
            position,
        ) == line,
{
    reveal_strlit("…");
    assert("…"@ =~= seq!['…']);
}

/// The three ways to cut a line differ in what they keep of it: its end, its
/// ends, or its front. Cutting without a side is cutting the end.
pub proof fn modes_cut_where_they_say(wrap: text::TextWrap)
    ensures
        wrap == text::TextWrap::Truncate || wrap == text::TextWrap::TruncateEnd ==> text::cut_of(
            wrap,
        ) == Some(TruncatePosition::End),
        wrap == text::TextWrap::TruncateMiddle ==> text::cut_of(wrap) == Some(
            TruncatePosition::Middle,
        ),
        wrap == text::TextWrap::TruncateStart ==> text::cut_of(wrap) == Some(
            TruncatePosition::Start,
        ),
        text::cut_of(wrap) is None <==> wrap == text::TextWrap::Wrap || wrap
            == text::TextWrap::WrapTrim || wrap == text::TextWrap::NoWrap || wrap
            == text::TextWrap::End || wrap == text::TextWrap::Middle,
{
}

/// Each line of a text that is cut is cut by itself, whatever the others are.
pub proof fn lines_are_cut_one_by_one(
    content: Seq<char>,
    wrap: text::TextWrap,
    width: usize,
    i: int,
)
    requires
        text::cut_of(wrap) is Some,
        0 <= i < chars::split(content, '\n').len(),
    ensures
        ({
            let line = chars::split(content, '\n')[i];
            let drawn = text::lines_of(content, wrap, width)[i];
            &&& drawn.text == text::truncated(
                line,
                display::clusters(line),
                width,
                text::cut_of(wrap)->0,
            )
            &&& !drawn.soft_continuation
            &&& drawn.content_end == display::columns(drawn.text)
        }),
{
}

/// A place is laid out in as far as it is on the canvas. A text that is left
/// alone may leave its place.
pub proof fn texts_stay_on_the_canvas(wrap: text::TextWrap, layout: usize, remaining: usize)
    ensures
        ({
            let width = drawer::layout_width(wrap, layout, remaining);
            let alone = wrap == text::TextWrap::NoWrap || wrap == text::TextWrap::End || wrap
                == text::TextWrap::Middle;
            &&& alone ==> width == layout
            &&& !alone ==> width <= layout && width <= remaining && (width == layout || width
                == remaining)
        }),
{
}

/// A line that is wrapped goes on with the line above it unless the text has a
/// line break before it, or it is the first. An empty line goes on with
/// nothing.
pub proof fn lines_go_on_unless_there_is_a_break(source: Seq<char>, line: LineView)
    requires
        0 <= line.offset <= source.len(),
    ensures
        text::soft_continuation(source, line) <==> line.text.len() > 0 && line.offset > 0
            && source[line.offset - 1] != '\n',
{
}

/// A wrapped line is drawn without the white space at its end, and at its front
/// too where it is trimmed. Its content ends where its text ends, but behind
/// the white space where the next line goes on with it.
pub proof fn wrapped_lines_are_drawn_without_blank_ends(
    content: Seq<char>,
    width: usize,
    i: int,
)
    requires
        0 <= i < segmented_string::wrapped(content, width).len(),
    ensures
        ({
            let lines = segmented_string::wrapped(content, width);
            let drawn = text::lines_of(content, text::TextWrap::Wrap, width)[i];
            let goes_on = i + 1 < lines.len() && lines[i + 1].text.len() > 0 && 0 < lines[i
                + 1].offset <= content.len() && content[lines[i + 1].offset - 1] != '\n';
            &&& exists|n: int|
                0 <= n <= lines[i].text.len() && drawn.text == #[trigger] lines[i].text.take(n)
                    && (forall|k: int|
                    n <= k < lines[i].text.len() ==> chars::whitespace(#[trigger] lines[i].text[k]))
            &&& drawn.text.len() > 0 ==> !chars::whitespace(drawn.text.last())
            &&& goes_on ==> drawn.content_end == lines[i].width
            &&& !goes_on ==> drawn.content_end == display::columns(drawn.text)
        }),
{
    let line = segmented_string::wrapped(content, width)[i].text;
    let class = |c: char| chars::whitespace(c);
    chars::trailing_bounds(line, class);
    chars::trailing_are_in_class(line, class);
    let n = line.len() - chars::trailing(line, class);
    assert(text::lines_of(content, text::TextWrap::Wrap, width)[i].text == line.take(n));
    if n > 0 {
        assert(!class(line[n - 1]));
    }
}

/// The place behind a text that stands at `x`.
pub open spec fn behind(x: int, text: Seq<char>) -> int {
    drawer::clamp_isize(x + display::columns_from(text, drawer::from_margin(x)))
}

/// The strokes of a text at a place: its background, as wide as the text is,
/// and the text.
pub open spec fn strokes(x: int, y: int, text: Seq<char>, ink: InkView) -> Seq<DrawOpView> {
    let over = seq![put(x, y, text, ink)];
    match ink.background_color {
        Some(color) => seq![
            DrawOpView::SetBackground {
                x,
                y,
                width: display::columns_from(text, drawer::from_margin(x)),
                color,
            },
        ] + over,
        None => over,
    }
}

/// Text goes where the drawer stands, with its background under it, and leaves
/// the drawer behind it.
pub proof fn texts_go_where_the_drawer_stands(
    d: DrawerView,
    line: Seq<char>,
    ink: InkView,
    order: OrderView,
)
    requires
        !d.skip_leading_whitespace || d.line_encountered_non_whitespace,
    ensures
        ({
            let end = d.after_line((line, false), ink, order);
            &&& end.ops == d.ops + strokes(d.x, d.y, (order.show)(line), ink)
            &&& end.x == behind(d.x, (order.show)(line))
            &&& end.y == d.y
            &&& end.x_offset == d.x_offset
            &&& end.line_encountered_non_whitespace == d.line_encountered_non_whitespace
        }),
{
    let end = d.after_line((line, false), ink, order);
    assert(line.skip(0) =~= line);
    assert(end.ops =~= d.ops + strokes(d.x, d.y, (order.show)(line), ink));
}

/// White space alone at the front of a row that begins without it is passed
/// over, and more of it behind it is too.
pub proof fn blank_texts_are_passed_over(
    d: DrawerView,
    blanks: Seq<char>,
    ink: InkView,
    order: OrderView,
)
    requires
        d.skip_leading_whitespace,
        !d.line_encountered_non_whitespace,
        forall|i: int| 0 <= i < blanks.len() ==> chars::whitespace(#[trigger] blanks[i]),
    ensures
        ({
            let x = behind(d.x, blanks);
            let nothing = (order.show)(Seq::<char>::empty());
            let end = d.after_line((blanks, false), ink, order);
            &&& end.ops == d.ops + strokes(x, d.y, nothing, ink)
            &&& end.x == behind(x, nothing)
            &&& end.y == d.y
            &&& !end.line_encountered_non_whitespace
            &&& end.skip_leading_whitespace
            &&& end.x_offset == d.x_offset
        }),
{
    let class = |c: char| chars::whitespace(c);
    let n = blanks.len() as int;
    let end = d.after_line((blanks, false), ink, order);
    chars::leading_is(blanks, class, n);
    assert(blanks.take(n) =~= blanks);
    assert(blanks.skip(n) =~= Seq::empty());
    assert(end.ops =~= d.ops + strokes(
        behind(d.x, blanks),
        d.y,
        (order.show)(Seq::<char>::empty()),
        ink,
    ));
}

/// The pieces of a row stand side by side: those of two lists one after the
/// other are drawn as the second list is behind the first one.
pub proof fn pieces_stand_side_by_side(
    d: DrawerView,
    a: Seq<mixed::RunView>,
    b: Seq<mixed::RunView>,
    piece: mixed::RunView,
    order: OrderView,
)
    ensures
        d.after_runs(a + b, order) == d.after_runs(a, order).after_runs(b, order),
        d.after_runs(seq![piece], order) == d.after_line((piece.text, false), piece.ink, order),
    decreases b.len(),
{
    reveal_with_fuel(DrawerView::after_runs, 2);
    assert(seq![piece].drop_last() =~= Seq::empty());
    if b.len() == 0 {
        assert(a + b =~= a);
    } else {
        pieces_stand_side_by_side(d, a, b.drop_last(), piece, order);
        assert((a + b).drop_last() =~= a + b.drop_last());
        assert((a + b).last() == b.last());
    }
}

/// Where a line of a list begins that is not aligned to the left: behind the
/// spaces that its padding has more than the smallest one, and behind the white
/// space that it begins with.
pub open spec fn aligned_begin(
    smallest: int,
    pad: int,
    lead: Seq<char>,
    order: OrderView,
) -> int {
    let begin = if pad > smallest {
        behind(
            behind(smallest, drawer::blanks(pad - smallest)),
            (order.show)(Seq::<char>::empty()),
        )
    } else {
        smallest
    };
    behind(begin, lead)
}

/// A line that is not aligned to the left is drawn behind its padding and
/// without the white space that it begins with, on the row of the drawer. The
/// next row may go on where the content of the line ends, padding included.
pub proof fn aligned_lines_stand_behind_their_padding(
    d: DrawerView,
    line: text::WrappedView,
    pad: int,
    lead: Seq<char>,
    rest: Seq<char>,
    ink: InkView,
    order: OrderView,
)
    requires
        d.x == d.x_offset,
        d.skip_leading_whitespace,
        !d.line_encountered_non_whitespace,
        line.text == lead + rest,
        forall|i: int| 0 <= i < lead.len() ==> chars::whitespace(#[trigger] lead[i]),
        rest.len() > 0,
        !chars::whitespace(rest[0]),
    ensures
        ({
            let end = d.after_wrapped(line, pad, ink, order);
            let own = strokes(
                aligned_begin(d.x_offset, pad, lead, order),
                d.y,
                (order.show)(rest),
                ink,
            );
            &&& own.len() <= end.ops.len()
            &&& end.ops.skip(end.ops.len() - own.len()) == own
            &&& d.ops.is_prefix_of(end.ops)
            &&& end.prev_line_content_end == drawer::from_margin(
                drawer::clamp_isize(pad + line.content_end),
            )
            &&& end.y == d.y
            &&& end.x_offset == d.x_offset
            &&& end.skip_leading_whitespace
            &&& line.soft_continuation ==> end.ops[d.ops.len() as int] == (
            DrawOpView::MarkSoftWrap { y: d.y, content_end: d.prev_line_content_end })
        }),
{
    let begun = if line.soft_continuation {
        d.marked()
    } else {
        d
    };
    if pad > d.x_offset {
        let spaces = drawer::blanks(pad - d.x_offset);
        assert forall|i: int| 0 <= i < spaces.len() implies chars::whitespace(
            #[trigger] spaces[i],
        ) by {}
        blank_texts_are_passed_over(begun, spaces, drawer::plain_ink(), order);
    }
    let ready = d.begun(line.soft_continuation, pad, order);
    let class = |c: char| chars::whitespace(c);
    let all = lead + rest;
    let n = lead.len() as int;
    assert forall|i: int| 0 <= i < n implies class(#[trigger] all[i]) by {
        assert(chars::whitespace(lead[i]));
    }
    assert(all[n] == rest[0]);
    chars::leading_is(all, class, n);
    assert(all.take(n) =~= lead);
    assert(all.skip(n) =~= rest);
    let end = d.after_wrapped(line, pad, ink, order);
    let own = strokes(
        aligned_begin(d.x_offset, pad, lead, order),
        d.y,
        (order.show)(rest),
        ink,
    );
    assert(end.ops =~= ready.ops + own);
    assert(end.ops.skip(end.ops.len() - own.len()) =~= own);
    assert(begun.ops.is_prefix_of(ready.ops));
    assert(d.ops.is_prefix_of(end.ops));
}

/// Lines that are aligned to the left keep the white space that they begin
/// with; others do not. The rows of a text begin at the smallest padding, which
/// is that of a line, and no line has less.
pub proof fn rows_begin_at_the_smallest_padding(
    lines: Seq<text::WrappedView>,
    align: TextAlign,
    width: usize,
)
    requires
        lines.len() > 0,
    ensures
        ({
            let start = drawer::drawer_for(lines, align, width);
            let pads = drawer::paddings(lines, align, width);
            &&& start.skip_leading_whitespace <==> align == TextAlign::Right || align
                == TextAlign::Center
            &&& start.x == start.x_offset
            &&& start.y == 0
            &&& start.ops.len() == 0
            &&& !start.line_encountered_non_whitespace
            &&& pads.len() == lines.len()
            &&& forall|i: int|
                0 <= i < lines.len() ==> #[trigger] pads[i] == text::padding(
                    display::columns(lines[i].text) as usize,
                    align,
                    width,
                )
            &&& forall|i: int| 0 <= i < pads.len() ==> start.x_offset <= #[trigger] pads[i]
            &&& exists|i: int| 0 <= i < pads.len() && start.x_offset == #[trigger] pads[i]
        }),
{
    smallest_is_least(drawer::paddings(lines, align, width));
}

/// The smallest number is one of them, and no other is smaller.
proof fn smallest_is_least(numbers: Seq<int>)
    requires
        numbers.len() > 0,
    ensures
        forall|i: int| 0 <= i < numbers.len() ==> drawer::smallest(numbers) <= #[trigger] numbers[i],
        exists|i: int| 0 <= i < numbers.len() && drawer::smallest(numbers) == #[trigger] numbers[i],
    decreases numbers.len(),
{
    if numbers.len() == 1 {
        assert(drawer::smallest(numbers) == numbers[0]);
    } else {
        let first = numbers.drop_last();
        let n = numbers.len() - 1;
        smallest_is_least(first);
        let k = choose|i: int| 0 <= i < first.len() && drawer::smallest(first) == #[trigger] first[i];
        assert(first[k] == numbers[k]);
        assert forall|i: int| 0 <= i < numbers.len() implies drawer::smallest(numbers)
            <= #[trigger] numbers[i] by {
            if i < n {
                assert(first[i] == numbers[i]);
            }
        }
        assert(drawer::smallest(numbers) == numbers[n] || drawer::smallest(numbers) == numbers[k]);
    }
}

/// One line more is drawn on the next row, from the place where rows begin,
/// whatever was drawn before it.
pub proof fn lines_are_drawn_row_by_row(
    d: DrawerView,
    lines: Seq<text::WrappedView>,
    line: text::WrappedView,
    pads: Seq<int>,
    ink: InkView,
    order: OrderView,
)
    requires
        lines.len() > 0,
        d.after_all(lines, pads, ink, order).y < isize::MAX,
        d.after_all(lines, pads, ink, order).y >= 0,
    ensures
        ({
            let before = d.after_all(lines, pads, ink, order);
            let row = DrawerView {
                x: before.x_offset,
                y: before.y + 1,
                line_encountered_non_whitespace: false,
                ..before
            };
            d.after_all(lines.push(line), pads, ink, order) == row.after_wrapped(
                line,
                pads[lines.len() as int],
                ink,
                order,
            )
        }),
{
    assert(lines.push(line).drop_last() =~= lines);
}

/// Behind the text of parts the place belongs to the part of its last
/// character. In a text that says nothing it belongs to none.
pub proof fn places_behind_the_text_belong_to_its_end(parts: Seq<text::ContentView>, place: int)
    requires
        place >= mixed::text_of_parts(parts).len(),
    ensures
        ({
            let n = mixed::text_of_parts(parts).len();
            &&& n > 0 ==> mixed::owner_at(parts, place) == mixed::owner_at(parts, n - 1)
            &&& n == 0 ==> mixed::owner_ink(parts, mixed::owner_at(parts, place))
                == drawer::plain_ink()
        }),
{
    owners_count_the_text(parts);
}

/// What belongs to a part is drawn with its ink, and what belongs to none
/// without styling.
pub proof fn owners_give_their_ink(parts: Seq<text::ContentView>, owner: int)
    ensures
        0 <= owner < parts.len() ==> mixed::owner_ink(parts, owner) == mixed::part_ink(
            parts[owner],
        ),
        owner == parts.len() ==> {
            let ink = mixed::owner_ink(parts, owner);
            &&& ink.background_color is None
            &&& ink.hyperlink is None
            &&& ink.style.color is None
            &&& ink.style.weight == Weight::Normal
            &&& !ink.style.dim
            &&& !ink.style.underline
            &&& !ink.style.italic
            &&& !ink.style.strikethrough
            &&& !ink.style.overline
            &&& !ink.style.invert
        },
{
}

/// The slices of a list of clusters do not depend on what stands before them.
proof fn slices_do_not_look_back(
    c: ClusterView,
    rest: Seq<ClusterView>,
    i: int,
    col: int,
    start: int,
    end: int,
)
    requires
        0 <= i,
    ensures
        text::between(seq![c] + rest, i + 1, col, start, end) == text::between(
            rest,
            i,
            col,
            start,
            end,
        ),
    decreases rest.len() - i,
{
    if i < rest.len() && col < end {
        assert((seq![c] + rest)[i + 1] == rest[i]);
        slices_do_not_look_back(
            c,
            rest,
            i + 1,
            display::column_after(rest[i], col),
            start,
            end,
        );
    }
}

/// A slice holds the clusters that stand in it from their first column to their
/// last. A cluster without columns is held with what stands before it: it is
/// left out where the slice begins at its place. Nothing is held from the end
/// of the slice on.
pub proof fn slices_hold_whole_clusters(
    c: ClusterView,
    rest: Seq<ClusterView>,
    col: int,
    start: int,
    end: int,
)
    requires
        0 <= col <= usize::MAX,
    ensures
        ({
            let next = display::column_after(c, col);
            let all = text::between(seq![c] + rest, 0, col, start, end);
            let behind = text::between(rest, 0, next, start, end);
            &&& col >= end ==> all.len() == 0
            &&& col < end && col < next ==> all == if start <= col && next <= end {
                c.text + behind
            } else {
                behind
            }
            &&& col < end && col == next ==> all == if start < col {
                c.text + behind
            } else {
                behind
            }
        }),
{
    let cs = seq![c] + rest;
    let next = display::column_after(c, col);
    assert(cs[0] == c);
    slices_do_not_look_back(c, rest, 0, next, start, end);
}

} // verus!
