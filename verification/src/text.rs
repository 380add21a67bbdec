//! The text component: wrapping, truncation and alignment of a text, and the
//! styles of its parts.
pub mod drawer;
pub mod laws;
pub mod mixed;
pub mod origins;

pub use crate::text::drawer::{DrawOp, TextDrawer};

use crate::chars;
use crate::chars::{chars_of, join_with, split_on, string_of, trim};
use crate::display;
use crate::display::{
    clusters_of, column_after_clusters, measure_text, string_display_width, Cluster, ClusterView,
    TextSize,
};
use crate::env;
use crate::segmented_string;
use crate::segmented_string::{LineView, SegmentedStringLine};
use crate::strip_ansi;
use crate::strip_ansi::strip_ansi;
use crate::style;
use crate::style::{CanvasTextStyle, Color, TextStyles, UnderlineStyle, Weight};
use vstd::prelude::*;

verus! {

/// What is done with a text that is wider than its place.
#[derive(Copy, Clone, Debug, Eq, PartialEq, Structural)]
pub enum TextWrap {
    /// The text is wrapped between words. This is the default.
    Wrap,
    /// The text is wrapped, and each line is trimmed.
    WrapTrim,
    /// The text is left as it is.
    NoWrap,
    /// The same as [`TextWrap::NoWrap`].
    End,
    /// The same as [`TextWrap::NoWrap`].
    Middle,
    /// The same as [`TextWrap::TruncateEnd`].
    Truncate,
    /// Each line is cut at its end, with an ellipsis.
    TruncateEnd,
    /// Each line is cut in its middle, with an ellipsis.
    TruncateMiddle,
    /// Each line is cut at its start, with an ellipsis.
    TruncateStart,
}

impl Default for TextWrap {
    fn default() -> (r: TextWrap)
        ensures
            r == TextWrap::Wrap,
    {
        TextWrap::Wrap
    }
}

/// Where a line stands in its place.
#[derive(Copy, Clone, Debug, Eq, PartialEq, Structural)]
pub enum TextAlign {
    /// At the left. This is the default.
    Left,
    /// At the right.
    Right,
    /// In the middle.
    Center,
}

impl Default for TextAlign {
    fn default() -> (r: TextAlign)
        ensures
            r == TextAlign::Left,
    {
        TextAlign::Left
    }
}

/// The decoration of a text.
#[derive(Copy, Clone, Debug, Eq, PartialEq, Structural)]
pub enum TextDecoration {
    /// No decoration. This is the default.
    Plain,
    /// The text is underlined.
    Underline,
}

impl Default for TextDecoration {
    fn default() -> (r: TextDecoration)
        ensures
            r == TextDecoration::Plain,
    {
        TextDecoration::Plain
    }
}

/// A part of a text with styles of its own.
#[derive(Debug, PartialEq, Eq)]
pub struct StyledSegment {
    /// What the part says.
    pub text: String,
    /// The style fields that the part sets for itself.
    pub styles: TextStyles,
    /// The target of a hyperlink.
    pub hyperlink: Option<String>,
}

impl Default for StyledSegment {
    fn default() -> (r: StyledSegment)
        ensures
            r.text@.len() == 0,
            r.styles == style::inherited(),
            r.hyperlink is None,
    {
        StyledSegment { text: String::new(), styles: TextStyles::default(), hyperlink: None }
    }
}

impl StyledSegment {
    /// A part without styles.
    pub fn new(text: &str) -> (r: StyledSegment)
        ensures
            r.text@ == text@,
            r.styles == style::inherited(),
            r.hyperlink is None,
    {
        StyledSegment { text: text.to_owned(), styles: TextStyles::default(), hyperlink: None }
    }
}

/// What can be set of a text component.
#[derive(Debug, PartialEq, Eq)]
pub struct TextProps {
    /// The color of the text.
    pub color: Option<Color>,
    /// The color behind the text.
    pub background_color: Option<Color>,
    /// What the text says.
    pub content: String,
    /// The parts of the text, in place of `content`. Where they are there they
    /// count, even if there are none.
    pub segments: Option<Vec<StyledSegment>>,
    /// The weight of the text.
    pub weight: Weight,
    /// Whether the text is bold, whatever its weight. It may be dim as well.
    pub bold: bool,
    /// Whether the text is dim. It may be bold as well.
    pub dim: bool,
    /// What is done with a text that is wider than its place.
    pub wrap: TextWrap,
    /// Where a line stands in its place.
    pub align: TextAlign,
    /// The decoration of the text.
    pub decoration: TextDecoration,
    /// Whether the text is underlined.
    pub underline: bool,
    /// Whether the text is italic.
    pub italic: bool,
    /// Whether the text is struck through.
    pub strikethrough: bool,
    /// Whether there is a line above the text.
    pub overline: bool,
    /// Whether the two colors are exchanged.
    pub invert: bool,
    /// The same as `invert`.
    pub inverse: bool,
    /// The target of a hyperlink.
    pub href: Option<String>,
}

impl Default for TextProps {
    fn default() -> (r: TextProps)
        ensures
            r.color is None,
            r.background_color is None,
            r.content@.len() == 0,
            r.segments is None,
            r.weight == Weight::Normal,
            !r.bold,
            !r.dim,
            r.wrap == TextWrap::Wrap,
            r.align == TextAlign::Left,
            r.decoration == TextDecoration::Plain,
            !r.underline,
            !r.italic,
            !r.strikethrough,
            !r.overline,
            !r.invert,
            !r.inverse,
            r.href is None,
    {
        TextProps {
            color: None,
            background_color: None,
            content: String::new(),
            segments: None,
            weight: Weight::Normal,
            bold: false,
            dim: false,
            wrap: TextWrap::Wrap,
            align: TextAlign::Left,
            decoration: TextDecoration::Plain,
            underline: false,
            italic: false,
            strikethrough: false,
            overline: false,
            invert: false,
            inverse: false,
            href: None,
        }
    }
}

/// Where a line is cut.
#[derive(Clone, Copy, Debug, Eq, PartialEq, Structural)]
pub enum TruncatePosition {
    Start,
    Middle,
    End,
}

/// A line as it is drawn.
#[derive(Debug, PartialEq, Eq)]
pub struct WrappedTextLine {
    /// What is drawn.
    pub text: String,
    /// Whether the line goes on with the one before it, without a line break
    /// between them in the text.
    pub soft_continuation: bool,
    /// The column after the last character that counts as content.
    pub content_end: usize,
}

/// What a line as it is drawn stands for.
#[verifier::ext_equal]
pub struct WrappedView {
    pub text: Seq<char>,
    pub soft_continuation: bool,
    pub content_end: int,
}

impl View for WrappedTextLine {
    type V = WrappedView;

    open spec fn view(&self) -> WrappedView {
        WrappedView {
            text: self.text@,
            soft_continuation: self.soft_continuation,
            content_end: self.content_end as int,
        }
    }
}

/// The views of a list of lines.
pub open spec fn wrapped_views(lines: Seq<WrappedTextLine>) -> Seq<WrappedView> {
    lines.map_values(|line: WrappedTextLine| line@)
}

/// The room that there is for a text.
#[derive(Clone, Copy, Debug, PartialEq, Eq, Structural)]
pub enum AvailableSpace {
    /// So many columns.
    Definite(usize),
    /// As few as the text can do with.
    MinContent,
    /// As many as the text takes.
    MaxContent,
}

/// Where a mode cuts a line, if it does.
pub open spec fn cut_of(wrap: TextWrap) -> Option<TruncatePosition> {
    match wrap {
        TextWrap::Truncate => Some(TruncatePosition::End),
        TextWrap::TruncateEnd => Some(TruncatePosition::End),
        TextWrap::TruncateMiddle => Some(TruncatePosition::Middle),
        TextWrap::TruncateStart => Some(TruncatePosition::Start),
        _ => None,
    }
}

/// Whether a mode leaves a text as it is.
pub open spec fn leaves_alone(wrap: TextWrap) -> bool {
    wrap == TextWrap::NoWrap || wrap == TextWrap::End || wrap == TextWrap::Middle
}

/// The text of the clusters from cluster `i`, at column `col`, on that stand
/// between the columns `start` and `end`. A cluster that reaches over one of
/// them is left out.
pub open spec fn between(
    cs: Seq<ClusterView>,
    i: int,
    col: int,
    start: int,
    end: int,
) -> Seq<char>
    decreases cs.len() - i,
{
    if i < 0 || i >= cs.len() || col >= end {
        Seq::empty()
    } else {
        let next = display::column_after(cs[i], col);
        let rest = between(cs, i + 1, next, start, end);
        if start <= col && start < next && next <= end {
            cs[i].text + rest
        } else {
            rest
        }
    }
}

/// The text of the clusters that stand between two columns.
pub open spec fn sliced(cs: Seq<ClusterView>, start: int, end: int) -> Seq<char> {
    between(cs, 0, 0, start, end)
}

/// A line cut to so many columns. A line of one column is an ellipsis whatever
/// it holds; a line that fits is left as it is.
pub open spec fn truncated(
    text: Seq<char>,
    cs: Seq<ClusterView>,
    columns: usize,
    position: TruncatePosition,
) -> Seq<char> {
    let width = display::end_column(cs, 0);
    if columns == 0 {
        Seq::empty()
    } else if columns == 1 {
        "…"@
    } else if width <= columns {
        text
    } else {
        match position {
            TruncatePosition::Start => "…"@ + sliced(cs, width - columns + 1, width),
            TruncatePosition::Middle => sliced(cs, 0, columns as int / 2) + "…"@ + sliced(
                cs,
                width - (columns - columns as int / 2 - 1),
                width,
            ),
            TruncatePosition::End => sliced(cs, 0, columns - 1) + "…"@,
        }
    }
}

/// A text with each of its lines trimmed.
pub open spec fn trimmed_lines(text: Seq<char>) -> Seq<char> {
    chars::join(
        chars::split(text, '\n').map_values(|line: Seq<char>| chars::trim_both(line)),
        "\n"@,
    )
}

/// Whether a wrapped line goes on with the line before it.
pub open spec fn soft_continuation(source: Seq<char>, line: LineView) -> bool {
    line.text.len() > 0 && 0 < line.offset <= source.len() && source[line.offset - 1] != '\n'
}

/// A wrapped line as it is drawn: without the white space at its end, or at
/// both ends where it is trimmed. The white space still counts as content
/// where the next line goes on with this one.
pub open spec fn drawn_line(
    source: Seq<char>,
    lines: Seq<LineView>,
    i: int,
    trims: bool,
) -> WrappedView {
    let text = if trims {
        chars::trim_both(lines[i].text)
    } else {
        chars::trim_back(lines[i].text)
    };
    WrappedView {
        text,
        soft_continuation: soft_continuation(source, lines[i]),
        content_end: if i + 1 < lines.len() && soft_continuation(source, lines[i + 1]) {
            lines[i].width
        } else {
            display::columns(text)
        },
    }
}

/// All wrapped lines as they are drawn.
pub open spec fn drawn_lines(source: Seq<char>, lines: Seq<LineView>, trims: bool) -> Seq<
    WrappedView,
> {
    Seq::new(lines.len(), |i: int| drawn_line(source, lines, i, trims))
}

/// A line that is drawn as it is.
pub open spec fn whole_line(text: Seq<char>) -> WrappedView {
    WrappedView { text, soft_continuation: false, content_end: display::columns(text) }
}

/// The lines of a text as they are drawn in so many columns.
pub open spec fn lines_of(content: Seq<char>, wrap: TextWrap, width: usize) -> Seq<WrappedView> {
    match cut_of(wrap) {
        Some(position) => chars::split(content, '\n').map_values(
            |line: Seq<char>|
                whole_line(truncated(line, display::clusters(line), width, position)),
        ),
        None => if leaves_alone(wrap) {
            chars::split(content, '\n').map_values(|line: Seq<char>| whole_line(line))
        } else if wrap == TextWrap::WrapTrim {
            let source = trimmed_lines(content);
            drawn_lines(source, segmented_string::wrapped(source, width), true)
        } else {
            drawn_lines(content, segmented_string::wrapped(content, width), false)
        },
    }
}

/// The texts of a list of lines.
pub open spec fn texts_of(lines: Seq<WrappedView>) -> Seq<Seq<char>> {
    lines.map_values(|line: WrappedView| line.text)
}

/// A text as it is drawn in so many columns.
pub open spec fn laid_out(content: Seq<char>, wrap: TextWrap, width: usize) -> Seq<char> {
    chars::join(texts_of(lines_of(content, wrap, width)), "\n"@)
}

/// A text as it is drawn in a place whose width is known or is not.
pub open spec fn fitted(
    content: Seq<char>,
    wrap: TextWrap,
    known_width: Option<usize>,
    available_width: AvailableSpace,
) -> Seq<char> {
    if leaves_alone(wrap) {
        content
    } else {
        match known_width {
            Some(width) => laid_out(content, wrap, width),
            None => match available_width {
                AvailableSpace::Definite(width) => laid_out(content, wrap, width),
                AvailableSpace::MaxContent => content,
                AvailableSpace::MinContent => laid_out(content, wrap, 1),
            },
        }
    }
}

/// How far to the right a line of `line_width` columns stands in a place of
/// `width` columns. A line that is wider than its place stands to the left of
/// it.
pub open spec fn padding(line_width: usize, align: TextAlign, width: usize) -> int {
    match align {
        TextAlign::Left => 0,
        TextAlign::Right => drawer::clamp_isize(width as int) - drawer::clamp_isize(
            line_width as int,
        ),
        TextAlign::Center => drawer::clamp_isize(width as int) / 2 - drawer::clamp_isize(
            line_width as int,
        ) / 2,
    }
}

/// A part of a text with all of its styles.
#[derive(Debug, PartialEq, Eq)]
pub struct MixedTextContent {
    pub text: String,
    pub color: Option<Color>,
    pub background_color: Option<Color>,
    pub weight: Weight,
    pub dim: bool,
    pub decoration: TextDecoration,
    pub italic: bool,
    pub strikethrough: bool,
    pub overline: bool,
    pub invert: bool,
    pub href: Option<String>,
}

/// What a part of a text with all of its styles stands for.
#[verifier::ext_equal]
pub struct ContentView {
    pub text: Seq<char>,
    pub color: Option<Color>,
    pub background_color: Option<Color>,
    pub weight: Weight,
    pub dim: bool,
    pub decoration: TextDecoration,
    pub italic: bool,
    pub strikethrough: bool,
    pub overline: bool,
    pub invert: bool,
    pub href: Option<Seq<char>>,
}

impl View for MixedTextContent {
    type V = ContentView;

    open spec fn view(&self) -> ContentView {
        ContentView {
            text: self.text@,
            color: self.color,
            background_color: self.background_color,
            weight: self.weight,
            dim: self.dim,
            decoration: self.decoration,
            italic: self.italic,
            strikethrough: self.strikethrough,
            overline: self.overline,
            invert: self.invert,
            href: env::opt_view(self.href),
        }
    }
}

/// The views of a list of parts.
pub open spec fn content_views(contents: Seq<MixedTextContent>) -> Seq<ContentView> {
    contents.map_values(|content: MixedTextContent| content@)
}

/// A field that a part sets, or that of the text round it.
pub open spec fn or_inherited<T>(own: Option<T>, outer: T) -> T {
    match own {
        Some(value) => value,
        None => outer,
    }
}

/// The style of a text. `bold` and `dim` go over the weight; both of them may
/// be set.
pub open spec fn style_of(props: TextProps) -> CanvasTextStyle {
    CanvasTextStyle {
        color: props.color,
        weight: if props.bold {
            Weight::Bold
        } else if props.dim {
            Weight::Light
        } else {
            props.weight
        },
        dim: props.dim,
        underline: props.underline || props.decoration == TextDecoration::Underline,
        underline_style: UnderlineStyle::Single,
        underline_color: None,
        italic: props.italic,
        blink: false,
        hidden: false,
        strikethrough: props.strikethrough,
        overline: props.overline,
        invert: props.invert || props.inverse,
    }
}

/// A part of a text with the fields that it does not set taken from the text
/// round it. An empty hyperlink counts as none.
pub open spec fn merged(
    style: CanvasTextStyle,
    background_color: Option<Color>,
    hyperlink: Option<Seq<char>>,
    segment: StyledSegment,
) -> ContentView {
    let bold = or_inherited(segment.styles.bold, style.weight == Weight::Bold);
    let dim = or_inherited(segment.styles.dim, style.dim || style.weight == Weight::Light);
    ContentView {
        text: segment.text@,
        color: if segment.styles.color is Some {
            segment.styles.color
        } else {
            style.color
        },
        background_color: if segment.styles.background_color is Some {
            segment.styles.background_color
        } else {
            background_color
        },
        weight: if bold {
            Weight::Bold
        } else if dim {
            Weight::Light
        } else {
            Weight::Normal
        },
        dim,
        decoration: if or_inherited(segment.styles.underline, style.underline) {
            TextDecoration::Underline
        } else {
            TextDecoration::Plain
        },
        italic: or_inherited(segment.styles.italic, style.italic),
        strikethrough: or_inherited(segment.styles.strikethrough, style.strikethrough),
        overline: style.overline,
        invert: or_inherited(segment.styles.inverse, style.invert),
        href: match env::opt_view(segment.hyperlink) {
            Some(href) => if href.len() > 0 {
                Some(href)
            } else {
                hyperlink
            },
            None => hyperlink,
        },
    }
}

/// The parts of a text that say something, each with all of its styles.
pub open spec fn merged_all(
    style: CanvasTextStyle,
    background_color: Option<Color>,
    hyperlink: Option<Seq<char>>,
    segments: Seq<StyledSegment>,
) -> Seq<ContentView>
    decreases segments.len(),
{
    if segments.len() == 0 {
        Seq::empty()
    } else {
        let before = merged_all(style, background_color, hyperlink, segments.drop_last());
        if segments.last().text@.len() == 0 {
            before
        } else {
            before.push(merged(style, background_color, hyperlink, segments.last()))
        }
    }
}

/// A field that a part sets, or that of the text round it.
fn flag_or(own: Option<bool>, outer: bool) -> (r: bool)
    ensures
        r == or_inherited(own, outer),
{
    match own {
        Some(value) => value,
        None => outer,
    }
}

/// A text that is drawn in a place of its own.
#[derive(Debug, PartialEq, Eq)]
pub struct Text {
    pub style: CanvasTextStyle,
    pub background_color: Option<Color>,
    pub content: String,
    pub wrap: TextWrap,
    pub align: TextAlign,
    pub hyperlink: Option<String>,
    /// Whether the text is made of `contents` in place of `content`.
    pub structured: bool,
    pub contents: Vec<MixedTextContent>,
}

impl Default for Text {
    fn default() -> (r: Text)
        ensures
            r.style == style::unstyled(),
            r.background_color is None,
            r.content@.len() == 0,
            r.wrap == TextWrap::Wrap,
            r.align == TextAlign::Left,
            r.hyperlink is None,
            !r.structured,
            r.contents@.len() == 0,
    {
        Text {
            style: CanvasTextStyle::default(),
            background_color: None,
            content: String::new(),
            wrap: TextWrap::Wrap,
            align: TextAlign::Left,
            hyperlink: None,
            structured: false,
            contents: Vec::new(),
        }
    }
}

impl Text {
    /// Where a mode cuts a line, if it does.
    pub fn truncate_position(wrap: TextWrap) -> (r: Option<TruncatePosition>)
        ensures
            r == cut_of(wrap),
    {
        match wrap {
            TextWrap::Truncate | TextWrap::TruncateEnd => Some(TruncatePosition::End),
            TextWrap::TruncateMiddle => Some(TruncatePosition::Middle),
            TextWrap::TruncateStart => Some(TruncatePosition::Start),
            _ => None,
        }
    }

    /// The text of the clusters that stand between two columns.
    pub fn slice_clusters(clusters: &Vec<Cluster>, start: usize, end: usize) -> (r: String)
        ensures
            r@ == sliced(display::cluster_views(clusters@), start as int, end as int),
    {
        let ghost cs = display::cluster_views(clusters@);
        let mut out = String::new();
        let mut col: usize = 0;
        let mut i: usize = 0;
        assert(out@ + between(cs, 0, 0, start as int, end as int) =~= sliced(
            cs,
            start as int,
            end as int,
        ));
        while i < clusters.len() && col < end
            invariant
                cs == display::cluster_views(clusters@),
                i <= clusters@.len(),
                out@ + between(cs, i as int, col as int, start as int, end as int) == sliced(
                    cs,
                    start as int,
                    end as int,
                ),
            decreases clusters@.len() - i,
        {
            assert(cs[i as int] == clusters@[i as int]@);
            let next: usize = clusters[i].advance(col);
            let ghost before = out@;
            if start <= col && start < next && next <= end {
                out.append(clusters[i].text.as_str());
                assert(before + (cs[i as int].text + between(
                    cs,
                    i + 1,
                    next as int,
                    start as int,
                    end as int,
                )) =~= out@ + between(cs, i + 1, next as int, start as int, end as int));
            }
            col = next;
            i = i + 1;
        }
        assert(out@ =~= sliced(cs, start as int, end as int));
        out
    }

    /// The text between two columns. A cluster that reaches over one of them
    /// is left out.
    pub fn slice_display_columns(text: &str, start: usize, end: usize) -> (r: String)
        ensures
            r@ == sliced(display::clusters(text@), start as int, end as int),
            chars::all_in(text@, |c: char| chars::printable_ascii(c)) ==> laws::one_per_char(
                display::clusters(text@),
                text@,
            ),
    {
        let clusters = clusters_of(text);
        proof {
            laws::clusters_are_one_per_char(clusters, text@);
        }
        Text::slice_clusters(&clusters, start, end)
    }

    /// Cuts a line, given with its clusters, to so many columns.
    pub fn truncate_clusters(
        text: &str,
        clusters: &Vec<Cluster>,
        columns: usize,
        position: TruncatePosition,
    ) -> (r: String)
        ensures
            r@ == truncated(text@, display::cluster_views(clusters@), columns, position),
    {
        if columns < 1 {
            let empty = String::new();
            assert(empty@ =~= Seq::empty());
            return empty;
        }
        if columns == 1 {
            return "…".to_owned();
        }
        let width: usize = column_after_clusters(clusters, 0);
        if width <= columns {
            return text.to_owned();
        }
        match position {
            TruncatePosition::Start => {
                let tail = Text::slice_clusters(clusters, width - columns + 1, width);
                let mut out = "…".to_owned();
                out.append(tail.as_str());
                out
            },
            TruncatePosition::Middle => {
                let prefix_columns: usize = columns / 2;
                let suffix_columns: usize = columns - prefix_columns - 1;
                let tail = Text::slice_clusters(clusters, width - suffix_columns, width);
                let mut out = Text::slice_clusters(clusters, 0, prefix_columns);
                out.append("…");
                out.append(tail.as_str());
                out
            },
            TruncatePosition::End => {
                let mut out = Text::slice_clusters(clusters, 0, columns - 1);
                out.append("…");
                out
            },
        }
    }

    /// Cuts a line to so many columns.
    pub fn truncate_line(text: &str, columns: usize, position: TruncatePosition) -> (r: String)
        ensures
            r@ == truncated(text@, display::clusters(text@), columns, position),
            chars::all_in(text@, |c: char| chars::printable_ascii(c)) ==> laws::one_per_char(
                display::clusters(text@),
                text@,
            ),
    {
        let clusters = clusters_of(text);
        proof {
            laws::clusters_are_one_per_char(clusters, text@);
        }
        Text::truncate_clusters(text, &clusters, columns, position)
    }

    /// Whether a wrapped line goes on with the line before it.
    pub fn line_is_soft_continuation(content: &Vec<char>, line: &SegmentedStringLine) -> (r: bool)
        ensures
            r == soft_continuation(content@, line@),
    {
        !line.text.as_str().is_empty() && 0 < line.offset && line.offset <= content.len()
            && content[line.offset - 1] != '\n'
    }

    /// Draws wrapped lines of a source text.
    pub fn draw_wrapped(source: &str, lines: &Vec<SegmentedStringLine>, trims: bool) -> (r: Vec<
        WrappedTextLine,
    >)
        ensures
            wrapped_views(r@) == drawn_lines(
                source@,
                segmented_string::line_views(lines@),
                trims,
            ),
    {
        let content = chars_of(source);
        let ghost views = segmented_string::line_views(lines@);
        let mut out: Vec<WrappedTextLine> = Vec::new();
        let mut i: usize = 0;
        assert(wrapped_views(out@) =~= drawn_lines(source@, views, trims).take(0));
        while i < lines.len()
            invariant
                content@ == source@,
                views == segmented_string::line_views(lines@),
                i <= lines@.len(),
                wrapped_views(out@) == drawn_lines(source@, views, trims).take(i as int),
            decreases lines@.len() - i,
        {
            assert(views[i as int] == lines@[i as int]@);
            let kept = if i + 1 < lines.len() {
                assert(views[i + 1] == lines@[i + 1]@);
                Text::line_is_soft_continuation(&content, &lines[i + 1])
            } else {
                false
            };
            let (text, width) = if trims {
                let text = string_of(&trim(&chars_of(lines[i].text.as_str())));
                let width: usize = string_display_width(text.as_str());
                (text, width)
            } else {
                let trimmed = lines[i].trim_end();
                (trimmed.text, trimmed.width)
            };
            let content_end: usize = if kept {
                lines[i].width
            } else {
                width
            };
            let soft = Text::line_is_soft_continuation(&content, &lines[i]);
            let ghost before = wrapped_views(out@);
            let line = WrappedTextLine { text, soft_continuation: soft, content_end };
            assert(line@ =~= drawn_line(source@, views, i as int, trims));
            out.push(line);
            assert(wrapped_views(out@) =~= before.push(line@));
            assert(drawn_lines(source@, views, trims).take(i + 1) =~= drawn_lines(
                source@,
                views,
                trims,
            ).take(i as int).push(line@));
            i = i + 1;
        }
        assert(drawn_lines(source@, views, trims).take(i as int) =~= drawn_lines(
            source@,
            views,
            trims,
        ));
        out
    }

    /// The lines of a text, each cut to so many columns.
    fn truncate_lines(content: &str, width: usize, position: TruncatePosition) -> (r: Vec<
        WrappedTextLine,
    >)
        ensures
            wrapped_views(r@) == chars::split(content@, '\n').map_values(
                |line: Seq<char>|
                    whole_line(truncated(line, display::clusters(line), width, position)),
            ),
    {
        let lines = split_on(&chars_of(content), '\n');
        let ghost goal = chars::split(content@, '\n').map_values(
            |line: Seq<char>| whole_line(truncated(line, display::clusters(line), width, position)),
        );
        let mut out: Vec<WrappedTextLine> = Vec::new();
        let mut i: usize = 0;
        assert(wrapped_views(out@) =~= goal.take(0));
        while i < lines.len()
            invariant
                chars::views(lines@) == chars::split(content@, '\n'),
                goal == chars::split(content@, '\n').map_values(
                    |line: Seq<char>|
                        whole_line(truncated(line, display::clusters(line), width, position)),
                ),
                i <= lines@.len(),
                wrapped_views(out@) == goal.take(i as int),
            decreases lines@.len() - i,
        {
            assert(chars::split(content@, '\n')[i as int] == lines@[i as int]@);
            let text = Text::truncate_line(lines[i].as_str(), width, position);
            let content_end: usize = string_display_width(text.as_str());
            let ghost before = wrapped_views(out@);
            let line = WrappedTextLine { text, soft_continuation: false, content_end };
            assert(line@ =~= goal[i as int]);
            out.push(line);
            assert(wrapped_views(out@) =~= before.push(line@));
            assert(goal.take(i + 1) =~= goal.take(i as int).push(line@));
            i = i + 1;
        }
        assert(goal.take(i as int) =~= goal);
        out
    }

    /// The lines of a text as they are.
    fn keep_lines(content: &str) -> (r: Vec<WrappedTextLine>)
        ensures
            wrapped_views(r@) == chars::split(content@, '\n').map_values(
                |line: Seq<char>| whole_line(line),
            ),
    {
        let lines = split_on(&chars_of(content), '\n');
        let ghost goal = chars::split(content@, '\n').map_values(
            |line: Seq<char>| whole_line(line),
        );
        let mut out: Vec<WrappedTextLine> = Vec::new();
        let mut i: usize = 0;
        assert(wrapped_views(out@) =~= goal.take(0));
        while i < lines.len()
            invariant
                chars::views(lines@) == chars::split(content@, '\n'),
                goal == chars::split(content@, '\n').map_values(
                    |line: Seq<char>| whole_line(line),
                ),
                i <= lines@.len(),
                wrapped_views(out@) == goal.take(i as int),
            decreases lines@.len() - i,
        {
            assert(chars::split(content@, '\n')[i as int] == lines@[i as int]@);
            let content_end: usize = string_display_width(lines[i].as_str());
            let ghost before = wrapped_views(out@);
            let line = WrappedTextLine {
                text: lines[i].clone(),
                soft_continuation: false,
                content_end,
            };
            assert(line@ =~= goal[i as int]);
            out.push(line);
            assert(wrapped_views(out@) =~= before.push(line@));
            assert(goal.take(i + 1) =~= goal.take(i as int).push(line@));
            i = i + 1;
        }
        assert(goal.take(i as int) =~= goal);
        out
    }

    /// A text with each of its lines trimmed.
    fn trim_lines(content: &str) -> (r: String)
        ensures
            r@ == trimmed_lines(content@),
    {
        let lines = split_on(&chars_of(content), '\n');
        let ghost goal = chars::split(content@, '\n').map_values(
            |line: Seq<char>| chars::trim_both(line),
        );
        let mut out: Vec<String> = Vec::new();
        let mut i: usize = 0;
        assert(chars::views(out@) =~= goal.take(0));
        while i < lines.len()
            invariant
                chars::views(lines@) == chars::split(content@, '\n'),
                goal == chars::split(content@, '\n').map_values(
                    |line: Seq<char>| chars::trim_both(line),
                ),
                i <= lines@.len(),
                chars::views(out@) == goal.take(i as int),
            decreases lines@.len() - i,
        {
            assert(chars::split(content@, '\n')[i as int] == lines@[i as int]@);
            let line = string_of(&trim(&chars_of(lines[i].as_str())));
            let ghost before = chars::views(out@);
            out.push(line);
            assert(chars::views(out@) =~= before.push(line@));
            assert(goal.take(i + 1) =~= goal.take(i as int).push(line@));
            i = i + 1;
        }
        assert(goal.take(i as int) =~= goal);
        join_with(&out, "\n")
    }

    /// The lines of a text as they are drawn in so many columns.
    pub fn wrap_lines(content: &str, wrap: TextWrap, width: usize) -> (r: Vec<WrappedTextLine>)
        ensures
            wrapped_views(r@) == lines_of(content@, wrap, width),
    {
        if let Some(position) = Text::truncate_position(wrap) {
            return Text::truncate_lines(content, width, position);
        }
        match wrap {
            TextWrap::NoWrap | TextWrap::End | TextWrap::Middle => Text::keep_lines(content),
            TextWrap::WrapTrim => {
                let source = Text::trim_lines(content);
                let lines = segmented_string::wrap(source.as_str(), width);
                Text::draw_wrapped(source.as_str(), &lines, true)
            },
            _ => {
                let lines = segmented_string::wrap(content, width);
                Text::draw_wrapped(content, &lines, false)
            },
        }
    }

    /// A text as it is drawn in so many columns.
    pub fn wrap_to_string(text: &str, wrap: TextWrap, width: usize) -> (r: String)
        ensures
            r@ == laid_out(text@, wrap, width),
    {
        let lines = Text::wrap_lines(text, wrap, width);
        let ghost views = wrapped_views(lines@);
        let mut texts: Vec<String> = Vec::new();
        let mut i: usize = 0;
        assert(chars::views(texts@) =~= texts_of(views).take(0));
        while i < lines.len()
            invariant
                views == wrapped_views(lines@),
                i <= lines@.len(),
                chars::views(texts@) == texts_of(views).take(i as int),
            decreases lines@.len() - i,
        {
            let ghost before = chars::views(texts@);
            texts.push(lines[i].text.clone());
            assert(chars::views(texts@) =~= before.push(lines@[i as int].text@));
            assert(texts_of(views).take(i + 1) =~= texts_of(views).take(i as int).push(
                lines@[i as int].text@,
            ));
            i = i + 1;
        }
        assert(texts_of(views).take(i as int) =~= texts_of(views));
        join_with(&texts, "\n")
    }

    /// A text as it is drawn in a place whose width is known or is not.
    pub fn wrap(
        content: &str,
        wrap: TextWrap,
        known_width: Option<usize>,
        available_width: AvailableSpace,
    ) -> (r: String)
        ensures
            r@ == fitted(content@, wrap, known_width, available_width),
    {
        match wrap {
            TextWrap::NoWrap | TextWrap::End | TextWrap::Middle => content.to_owned(),
            _ => match known_width {
                Some(width) => Text::wrap_to_string(content, wrap, width),
                None => match available_width {
                    AvailableSpace::Definite(width) => Text::wrap_to_string(content, wrap, width),
                    AvailableSpace::MaxContent => content.to_owned(),
                    AvailableSpace::MinContent => Text::wrap_to_string(content, wrap, 1),
                },
            },
        }
    }

    /// The size that a text takes in a place whose width is known or is not.
    pub fn measure(
        content: &str,
        wrap: TextWrap,
        known_width: Option<usize>,
        available_width: AvailableSpace,
    ) -> (r: TextSize)
        ensures
            ({
                let text = fitted(content@, wrap, known_width, available_width);
                &&& text.len() == 0 ==> r == (TextSize { width: 0, height: 0 })
                &&& text.len() > 0 ==> r.width == display::widest(chars::split(text, '\n'))
                    && r.height == chars::split(text, '\n').len()
            }),
    {
        let text = Text::wrap(content, wrap, known_width, available_width);
        measure_text(text.as_str())
    }

    /// How far to the right a line stands in its place.
    pub fn alignment_padding(line_width: usize, align: TextAlign, width: usize) -> (r: isize)
        ensures
            r == padding(line_width, align, width),
    {
        let width: isize = drawer::to_isize(width);
        let line_width: isize = drawer::to_isize(line_width);
        match align {
            TextAlign::Left => 0,
            TextAlign::Right => width - line_width,
            TextAlign::Center => width / 2 - line_width / 2,
        }
    }

    /// A text component that nothing is set of yet.
    pub fn new() -> (r: Text)
        ensures
            r.style == style::unstyled(),
            r.background_color is None,
            r.content@.len() == 0,
            r.wrap == TextWrap::Wrap,
            r.align == TextAlign::Left,
            r.hyperlink is None,
            !r.structured,
            r.contents@.len() == 0,
    {
        Text::default()
    }

    /// Takes over what is set of the component. The parts of a text take from
    /// it what they do not set, and parts that say nothing are left out. A
    /// text without parts loses its escape sequences.
    pub fn update(&mut self, props: &TextProps)
        ensures
            final(self).style == style_of(*props),
            final(self).background_color == props.background_color,
            env::opt_view(final(self).hyperlink) == env::opt_view(props.href),
            final(self).wrap == props.wrap,
            final(self).align == props.align,
            final(self).structured == (props.segments is Some),
            match props.segments {
                Some(segments) => content_views(final(self).contents@) == merged_all(
                    style_of(*props),
                    props.background_color,
                    env::opt_view(props.href),
                    segments@,
                ) && final(self).content@ == old(self).content@,
                None => final(self).content@ == strip_ansi::plain(props.content@)
                    && final(self).contents@ == old(self).contents@,
            },
    {
        self.style = CanvasTextStyle {
            color: props.color,
            weight: if props.bold {
                Weight::Bold
            } else if props.dim {
                Weight::Light
            } else {
                props.weight
            },
            dim: props.dim,
            underline: props.underline || props.decoration == TextDecoration::Underline,
            underline_style: UnderlineStyle::Single,
            underline_color: None,
            italic: props.italic,
            blink: false,
            hidden: false,
            strikethrough: props.strikethrough,
            overline: props.overline,
            invert: props.invert || props.inverse,
        };
        self.background_color = props.background_color;
        self.hyperlink = props.href.clone();
        self.wrap = props.wrap;
        self.align = props.align;
        match &props.segments {
            Some(segments) => {
                self.structured = true;
                self.contents =
                merge_segments(&self.style, self.background_color, &self.hyperlink, segments);
            },
            None => {
                self.structured = false;
                self.content = strip_ansi(props.content.as_str());
            },
        }
    }
}

/// A part of a text with the fields that it does not set taken from the text
/// round it.
fn merge_segment(
    style: &CanvasTextStyle,
    background_color: Option<Color>,
    hyperlink: &Option<String>,
    segment: &StyledSegment,
) -> (r: MixedTextContent)
    ensures
        r@ == merged(*style, background_color, env::opt_view(*hyperlink), *segment),
{
    let bold = flag_or(segment.styles.bold, style.weight == Weight::Bold);
    let dim = flag_or(segment.styles.dim, style.dim || style.weight == Weight::Light);
    let own_href = match &segment.hyperlink {
        Some(href) => !href.as_str().is_empty(),
        None => false,
    };
    MixedTextContent {
        text: segment.text.clone(),
        color: if segment.styles.color.is_some() {
            segment.styles.color
        } else {
            style.color
        },
        background_color: if segment.styles.background_color.is_some() {
            segment.styles.background_color
        } else {
            background_color
        },
        weight: if bold {
            Weight::Bold
        } else if dim {
            Weight::Light
        } else {
            Weight::Normal
        },
        dim,
        decoration: if flag_or(segment.styles.underline, style.underline) {
            TextDecoration::Underline
        } else {
            TextDecoration::Plain
        },
        italic: flag_or(segment.styles.italic, style.italic),
        strikethrough: flag_or(segment.styles.strikethrough, style.strikethrough),
        overline: style.overline,
        invert: flag_or(segment.styles.inverse, style.invert),
        href: if own_href {
            segment.hyperlink.clone()
        } else {
            hyperlink.clone()
        },
    }
}

/// The parts of a text that say something, each with all of its styles.
fn merge_segments(
    style: &CanvasTextStyle,
    background_color: Option<Color>,
    hyperlink: &Option<String>,
    segments: &Vec<StyledSegment>,
) -> (r: Vec<MixedTextContent>)
    ensures
        content_views(r@) == merged_all(
            *style,
            background_color,
            env::opt_view(*hyperlink),
            segments@,
        ),
{
    let ghost link = env::opt_view(*hyperlink);
    let mut out: Vec<MixedTextContent> = Vec::new();
    let mut i: usize = 0;
    assert(content_views(out@) =~= merged_all(*style, background_color, link, segments@.take(0)));
    while i < segments.len()
        invariant
            link == env::opt_view(*hyperlink),
            i <= segments@.len(),
            content_views(out@) == merged_all(
                *style,
                background_color,
                link,
                segments@.take(i as int),
            ),
        decreases segments@.len() - i,
    {
        assert(segments@.take(i + 1).drop_last() =~= segments@.take(i as int));
        if !segments[i].text.as_str().is_empty() {
            let ghost before = content_views(out@);
            let content = merge_segment(style, background_color, hyperlink, &segments[i]);
            out.push(content);
            assert(content_views(out@) =~= before.push(content@));
        }
        i = i + 1;
    }
    assert(segments@.take(i as int) =~= segments@);
    out
}

/// Wraps or cuts a text with the modes of the text component. The modes that
/// leave a text alone hand it back unchanged.
pub fn wrap_text(text: &str, max_width: usize, wrap: TextWrap) -> (r: String)
    ensures
        r@ == if leaves_alone(wrap) {
            text@
        } else {
            laid_out(text@, wrap, max_width)
        },
{
    match wrap {
        TextWrap::NoWrap | TextWrap::End | TextWrap::Middle => text.to_owned(),
        _ => Text::wrap_to_string(text, wrap, max_width),
    }
}

} // verus!
