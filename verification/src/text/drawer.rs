//! Drawing of a text, line by line.
use crate::chars;
use crate::chars::{chars_of, count_leading_whitespace, push_char, push_range};
use crate::display;
use crate::display::string_display_width_from_col;
use crate::env;
use crate::style;
use crate::style::{CanvasTextStyle, Color};
use crate::text;
use crate::text::mixed;
use crate::text::{Text, TextAlign, TextWrap, WrappedTextLine, WrappedView};
use vstd::prelude::*;

verus! {

/// `n`, or the nearest coordinate where there is none so far out.
pub open spec fn clamp_isize(n: int) -> int {
    if n > isize::MAX {
        isize::MAX as int
    } else if n < isize::MIN {
        isize::MIN as int
    } else {
        n
    }
}

/// A number of columns as a coordinate.
pub fn to_isize(n: usize) -> (r: isize)
    ensures
        r == clamp_isize(n as int),
{
    if n > isize::MAX as usize {
        isize::MAX
    } else {
        n as isize
    }
}

/// The coordinate `by` columns to the right of `x`.
pub(crate) fn move_right(x: isize, by: usize) -> (r: isize)
    ensures
        r == clamp_isize(x + by),
{
    let sum: i128 = x as i128 + by as i128;
    if sum > isize::MAX as i128 {
        isize::MAX
    } else {
        sum as isize
    }
}

/// A coordinate as a number of columns: those to the left of the margin are
/// none.
pub open spec fn from_margin(x: int) -> int {
    if x < 0 {
        0
    } else {
        x
    }
}

/// A coordinate as a number of columns.
pub(crate) fn margin_columns(x: isize) -> (r: usize)
    ensures
        r == from_margin(x as int),
{
    if x < 0 {
        0
    } else {
        x as usize
    }
}

/// Whether `f` may show the text `line` as `visual`.
pub open spec fn reorders<F: Fn(&str) -> String>(f: F, line: Seq<char>, visual: Seq<char>) -> bool {
    exists|s: &str, r: String| s@ == line && r@ == visual && #[trigger] call_ensures(f, (s,), r)
}

/// Whether `f` puts texts in the order in which they are shown: it takes
/// every text, and shows a text in one way only.
pub open spec fn is_order<F: Fn(&str) -> String>(f: F) -> bool {
    &&& forall|s: &str| #[trigger] call_requires(f, (s,))
    &&& forall|line: Seq<char>, a: Seq<char>, b: Seq<char>| #[trigger]
        reorders(f, line, a) && #[trigger] reorders(f, line, b) ==> a == b
}

/// The text `line` as `f` shows it.
pub open spec fn shown_by<F: Fn(&str) -> String>(f: F, line: Seq<char>) -> Seq<char> {
    choose|visual: Seq<char>| reorders(f, line, visual)
}

/// An order of texts: how it shows a text, and what it may show a text as.
pub struct OrderView {
    pub show: spec_fn(Seq<char>) -> Seq<char>,
    pub allows: spec_fn(Seq<char>, Seq<char>) -> bool,
}

/// The order that `f` puts texts in.
pub open spec fn order_of<F: Fn(&str) -> String>(f: F) -> OrderView {
    OrderView {
        show: |line: Seq<char>| shown_by(f, line),
        allows: |line: Seq<char>, visual: Seq<char>| reorders(f, line, visual),
    }
}

/// One stroke on a canvas.
#[derive(Debug, PartialEq, Eq)]
pub enum DrawOp {
    /// The row `y` goes on with the row above it, whose content ends at column
    /// `content_end`.
    MarkSoftWrap { y: isize, content_end: usize },
    /// `width` cells of the row `y` get a background color.
    SetBackground { x: isize, y: isize, width: usize, color: Color },
    /// A text is put on the row `y`.
    SetText {
        x: isize,
        y: isize,
        text: String,
        style: CanvasTextStyle,
        hyperlink: Option<String>,
    },
}

/// What a stroke stands for.
#[verifier::ext_equal]
pub enum DrawOpView {
    MarkSoftWrap { y: int, content_end: int },
    SetBackground { x: int, y: int, width: int, color: Color },
    SetText {
        x: int,
        y: int,
        text: Seq<char>,
        style: CanvasTextStyle,
        hyperlink: Option<Seq<char>>,
    },
}

impl View for DrawOp {
    type V = DrawOpView;

    open spec fn view(&self) -> DrawOpView {
        match *self {
            DrawOp::MarkSoftWrap { y, content_end } => DrawOpView::MarkSoftWrap {
                y: y as int,
                content_end: content_end as int,
            },
            DrawOp::SetBackground { x, y, width, color } => DrawOpView::SetBackground {
                x: x as int,
                y: y as int,
                width: width as int,
                color,
            },
            DrawOp::SetText { x, y, text, style, hyperlink } => DrawOpView::SetText {
                x: x as int,
                y: y as int,
                text: text@,
                style,
                hyperlink: env::opt_view(hyperlink),
            },
        }
    }
}

/// The views of a list of strokes.
pub open spec fn op_views(ops: Seq<DrawOp>) -> Seq<DrawOpView> {
    ops.map_values(|op: DrawOp| op@)
}

/// How a text is drawn: its style, the color behind it and its hyperlink.
#[verifier::ext_equal]
pub struct InkView {
    pub style: CanvasTextStyle,
    pub background_color: Option<Color>,
    pub hyperlink: Option<Seq<char>>,
}

/// What a drawer stands for.
#[verifier::ext_equal]
pub struct DrawerView {
    /// Where each row begins.
    pub x_offset: int,
    /// Where the next text goes.
    pub x: int,
    pub y: int,
    /// What was drawn.
    pub ops: Seq<DrawOpView>,
    /// Whether the row has a character on it that is not white space.
    pub line_encountered_non_whitespace: bool,
    /// Whether the white space that a row begins with is not drawn.
    pub skip_leading_whitespace: bool,
    /// Where the content of the row before ends.
    pub prev_line_content_end: int,
}

impl DrawerView {
    /// Whether the white space at the front of the next text is not drawn.
    pub open spec fn skips(self) -> bool {
        self.skip_leading_whitespace && !self.line_encountered_non_whitespace
    }

    /// How many characters at the front of `line` are not drawn.
    pub open spec fn skipped(self, line: Seq<char>) -> int {
        if self.skips() {
            chars::leading(line, |c: char| chars::whitespace(c))
        } else {
            0
        }
    }

    /// What is drawn of `line`.
    pub open spec fn drawn_part(self, line: Seq<char>) -> Seq<char> {
        line.skip(self.skipped(line))
    }

    /// The drawer with the row marked as one that goes on with the row above
    /// it.
    pub open spec fn marked(self) -> DrawerView {
        DrawerView {
            ops: self.ops.push(
                DrawOpView::MarkSoftWrap { y: self.y, content_end: self.prev_line_content_end },
            ),
            ..self
        }
    }

    /// The drawer behind the white space at the front of `line`.
    pub open spec fn entered(self, line: Seq<char>) -> DrawerView {
        if self.skips() {
            DrawerView {
                x: clamp_isize(
                    self.x + display::columns_from(
                        line.take(self.skipped(line)),
                        from_margin(self.x),
                    ),
                ),
                line_encountered_non_whitespace: self.drawn_part(line).len() > 0,
                ..self
            }
        } else {
            self
        }
    }

    /// How many columns a text takes here.
    pub open spec fn width_of(self, visual: Seq<char>) -> int {
        display::columns_from(visual, from_margin(self.x))
    }

    /// The drawer after a text, as it is shown, was drawn.
    pub open spec fn inked(self, visual: Seq<char>, ink: InkView) -> DrawerView {
        let width = self.width_of(visual);
        let behind = match ink.background_color {
            Some(color) => self.ops.push(
                DrawOpView::SetBackground { x: self.x, y: self.y, width, color },
            ),
            None => self.ops,
        };
        DrawerView {
            x: clamp_isize(self.x + width),
            ops: behind.push(
                DrawOpView::SetText {
                    x: self.x,
                    y: self.y,
                    text: visual,
                    style: ink.style,
                    hyperlink: ink.hyperlink,
                },
            ),
            prev_line_content_end: from_margin(clamp_isize(self.x + width)),
            ..self
        }
    }

    /// The drawer on the next row.
    pub open spec fn finished(self) -> DrawerView {
        DrawerView {
            x: self.x_offset,
            y: clamp_isize(self.y + 1),
            line_encountered_non_whitespace: false,
            ..self
        }
    }

    /// The drawer after one line.
    pub open spec fn after_line(
        self,
        line: (Seq<char>, bool),
        ink: InkView,
        order: OrderView,
    ) -> DrawerView {
        let begun = if line.1 {
            self.marked()
        } else {
            self
        };
        begun.entered(line.0).inked((order.show)(self.drawn_part(line.0)), ink)
    }

    /// The drawer after several lines, each but the last on a row of its own.
    pub open spec fn after_lines(
        self,
        lines: Seq<(Seq<char>, bool)>,
        ink: InkView,
        order: OrderView,
    ) -> DrawerView
        decreases lines.len(),
    {
        if lines.len() == 0 {
            self
        } else if lines.len() == 1 {
            self.after_line(lines[0], ink, order)
        } else {
            self.after_lines(lines.drop_last(), ink, order).finished().after_line(
                lines.last(),
                ink,
                order,
            )
        }
    }
}

impl DrawerView {
    /// Whether the order allows what it shows of `line`.
    pub open spec fn shows_line(self, line: Seq<char>, order: OrderView) -> bool {
        let part = self.drawn_part(line);
        (order.allows)(part, (order.show)(part))
    }

    /// Whether the order shows each of the lines as it is drawn by
    /// [`DrawerView::after_lines`].
    pub open spec fn shows_lines(
        self,
        lines: Seq<(Seq<char>, bool)>,
        ink: InkView,
        order: OrderView,
    ) -> bool
        decreases lines.len(),
    {
        if lines.len() == 0 {
            true
        } else if lines.len() == 1 {
            self.shows_line(lines[0].0, order)
        } else {
            self.shows_lines(lines.drop_last(), ink, order) && self.after_lines(
                lines.drop_last(),
                ink,
                order,
            ).finished().shows_line(lines.last().0, order)
        }
    }
}

/// A drawer whose rows begin at column `x_offset`, on the first row.
pub open spec fn new_drawer(x_offset: int, skip_leading_whitespace: bool) -> DrawerView {
    DrawerView {
        x_offset,
        x: x_offset,
        y: 0,
        ops: Seq::empty(),
        line_encountered_non_whitespace: false,
        skip_leading_whitespace,
        prev_line_content_end: 0,
    }
}

/// Draws texts one after the other, row by row.
#[derive(Debug, PartialEq, Eq)]
pub struct TextDrawer {
    x_offset: isize,
    x: isize,
    y: isize,
    ops: Vec<DrawOp>,
    line_encountered_non_whitespace: bool,
    skip_leading_whitespace: bool,
    prev_line_content_end: usize,
}

impl View for TextDrawer {
    type V = DrawerView;

    closed spec fn view(&self) -> DrawerView {
        DrawerView {
            x_offset: self.x_offset as int,
            x: self.x as int,
            y: self.y as int,
            ops: op_views(self.ops@),
            line_encountered_non_whitespace: self.line_encountered_non_whitespace,
            skip_leading_whitespace: self.skip_leading_whitespace,
            prev_line_content_end: self.prev_line_content_end as int,
        }
    }
}

/// Texts without a row that goes on with another.
pub open spec fn unmarked(lines: Seq<String>) -> Seq<(Seq<char>, bool)> {
    lines.map_values(|line: String| (line@, false))
}

/// The views of a list of lines.
pub open spec fn marked_views(lines: Seq<(String, bool)>) -> Seq<(Seq<char>, bool)> {
    lines.map_values(|line: (String, bool)| (line.0@, line.1))
}

impl TextDrawer {
    /// A drawer whose rows begin at column `x_offset`, on the first row.
    pub fn new(x_offset: isize, skip_leading_whitespace: bool) -> (r: TextDrawer)
        ensures
            r@ == new_drawer(x_offset as int, skip_leading_whitespace),
    {
        let r = TextDrawer {
            x_offset,
            x: x_offset,
            y: 0,
            ops: Vec::new(),
            line_encountered_non_whitespace: false,
            skip_leading_whitespace,
            prev_line_content_end: 0,
        };
        assert(r@.ops =~= Seq::empty());
        r
    }

    /// Adds a stroke.
    fn push_op(&mut self, op: DrawOp)
        ensures
            final(self)@ == (DrawerView { ops: old(self)@.ops.push(op@), ..old(self)@ }),
    {
        self.ops.push(op);
        assert(self@.ops =~= old(self)@.ops.push(op@));
    }

    /// Draws texts, each but the last on a row of its own.
    pub fn append_lines<F: Fn(&str) -> String>(
        &mut self,
        lines: &Vec<String>,
        style: CanvasTextStyle,
        reorder: &F,
    )
        requires
            is_order(*reorder),
        ensures
            final(self)@ == old(self)@.after_lines(
                unmarked(lines@),
                (InkView { style, background_color: None, hyperlink: None }),
                order_of(*reorder),
            ),
            old(self)@.shows_lines(
                unmarked(lines@),
                (InkView { style, background_color: None, hyperlink: None }),
                order_of(*reorder),
            ),
    {
        self.append_lines_with_link(lines, style, &None, reorder);
    }

    /// Draws texts with a hyperlink, each but the last on a row of its own.
    pub fn append_lines_with_link<F: Fn(&str) -> String>(
        &mut self,
        lines: &Vec<String>,
        style: CanvasTextStyle,
        hyperlink: &Option<String>,
        reorder: &F,
    )
        requires
            is_order(*reorder),
        ensures
            final(self)@ == old(self)@.after_lines(
                unmarked(lines@),
                (InkView { style, background_color: None, hyperlink: env::opt_view(*hyperlink) }),
                order_of(*reorder),
            ),
            old(self)@.shows_lines(
                unmarked(lines@),
                (InkView { style, background_color: None, hyperlink: env::opt_view(*hyperlink) }),
                order_of(*reorder),
            ),
    {
        self.append_lines_with_background_and_link(lines, style, None, hyperlink, reorder);
    }

    /// Draws texts with a background and a hyperlink, each but the last on a
    /// row of its own.
    pub fn append_lines_with_background_and_link<F: Fn(&str) -> String>(
        &mut self,
        lines: &Vec<String>,
        style: CanvasTextStyle,
        background_color: Option<Color>,
        hyperlink: &Option<String>,
        reorder: &F,
    )
        requires
            is_order(*reorder),
        ensures
            final(self)@ == old(self)@.after_lines(
                unmarked(lines@),
                (InkView { style, background_color, hyperlink: env::opt_view(*hyperlink) }),
                order_of(*reorder),
            ),
            old(self)@.shows_lines(
                unmarked(lines@),
                (InkView { style, background_color, hyperlink: env::opt_view(*hyperlink) }),
                order_of(*reorder),
            ),
    {
        let mut marked: Vec<(String, bool)> = Vec::new();
        let mut i: usize = 0;
        assert(marked_views(marked@) =~= unmarked(lines@).take(0));
        while i < lines.len()
            invariant
                i <= lines@.len(),
                marked_views(marked@) == unmarked(lines@).take(i as int),
            decreases lines@.len() - i,
        {
            let ghost before = marked_views(marked@);
            marked.push((lines[i].clone(), false));
            assert(marked_views(marked@) =~= before.push((lines@[i as int]@, false)));
            assert(unmarked(lines@).take(i + 1) =~= unmarked(lines@).take(i as int).push(
                (lines@[i as int]@, false),
            ));
            i = i + 1;
        }
        assert(unmarked(lines@).take(i as int) =~= unmarked(lines@));
        self.append_lines_with_soft_wrap_with_link(
            &marked,
            style,
            background_color,
            hyperlink,
            reorder,
        );
    }

    /// Marks the row as one that goes on with the row above it.
    pub fn mark_current_line_soft_wrap(&mut self)
        ensures
            final(self)@ == old(self)@.marked(),
    {
        let op = DrawOp::MarkSoftWrap { y: self.y, content_end: self.prev_line_content_end };
        self.push_op(op);
    }

    /// Goes on to the next row.
    pub fn finish_line(&mut self)
        ensures
            final(self)@ == old(self)@.finished(),
    {
        self.y = move_right(self.y, 1);
        self.x = self.x_offset;
        self.line_encountered_non_whitespace = false;
    }

    /// Sets where the content of the row ends.
    pub fn set_prev_line_content_end(&mut self, content_end: usize)
        ensures
            final(self)@ == (DrawerView {
                prev_line_content_end: content_end as int,
                ..old(self)@
            }),
    {
        self.prev_line_content_end = content_end;
    }

    /// Skips the white space at the front of a text where it is not drawn, and
    /// hands back what is left.
    fn enter_line(&mut self, line: &str) -> (r: String)
        ensures
            final(self)@ == old(self)@.entered(line@),
            r@ == old(self)@.drawn_part(line@),
    {
        if !(self.skip_leading_whitespace && !self.line_encountered_non_whitespace) {
            assert(line@.skip(0) =~= line@);
            return line.to_owned();
        }
        let s = chars_of(line);
        let skipped: usize = count_leading_whitespace(&s);
        let mut whitespace = String::new();
        push_range(&mut whitespace, &s, 0, skipped);
        let mut rest = String::new();
        push_range(&mut rest, &s, skipped, s.len());
        assert(whitespace@ =~= line@.take(skipped as int));
        assert(rest@ =~= line@.skip(skipped as int));
        let width: usize = string_display_width_from_col(
            whitespace.as_str(),
            margin_columns(self.x),
        );
        self.x = move_right(self.x, width);
        self.line_encountered_non_whitespace = !rest.as_str().is_empty();
        rest
    }

    /// Draws a text as it is shown.
    pub fn ink(
        &mut self,
        visual: String,
        style: CanvasTextStyle,
        background_color: Option<Color>,
        hyperlink: &Option<String>,
    )
        ensures
            final(self)@ == old(self)@.inked(
                visual@,
                (InkView { style, background_color, hyperlink: env::opt_view(*hyperlink) }),
            ),
    {
        let width: usize = string_display_width_from_col(visual.as_str(), margin_columns(self.x));
        if let Some(color) = background_color {
            let op = DrawOp::SetBackground { x: self.x, y: self.y, width, color };
            self.push_op(op);
        }
        let op = DrawOp::SetText {
            x: self.x,
            y: self.y,
            text: visual,
            style,
            hyperlink: hyperlink.clone(),
        };
        self.push_op(op);
        self.x = move_right(self.x, width);
        self.prev_line_content_end = margin_columns(self.x);
    }

    /// Draws texts, each but the last on a row of its own. A text may come
    /// with a mark that its row goes on with the row above it. `reorder` puts
    /// a text in the order in which it is shown.
    pub fn append_lines_with_soft_wrap_with_link<F: Fn(&str) -> String>(
        &mut self,
        lines: &Vec<(String, bool)>,
        style: CanvasTextStyle,
        background_color: Option<Color>,
        hyperlink: &Option<String>,
        reorder: &F,
    )
        requires
            is_order(*reorder),
        ensures
            final(self)@ == old(self)@.after_lines(
                marked_views(lines@),
                (InkView { style, background_color, hyperlink: env::opt_view(*hyperlink) }),
                order_of(*reorder),
            ),
            old(self)@.shows_lines(
                marked_views(lines@),
                (InkView { style, background_color, hyperlink: env::opt_view(*hyperlink) }),
                order_of(*reorder),
            ),
    {
        let ghost ink = InkView { style, background_color, hyperlink: env::opt_view(*hyperlink) };
        let ghost views = marked_views(lines@);
        let mut i: usize = 0;
        while i < lines.len()
            invariant
                is_order(*reorder),
                ink == (InkView { style, background_color, hyperlink: env::opt_view(*hyperlink) }),
                views == marked_views(lines@),
                i <= lines@.len(),
                i < lines@.len() ==> self@ == if i == 0 {
                    old(self)@
                } else {
                    old(self)@.after_lines(views.take(i as int), ink, order_of(*reorder)).finished()
                },
                i == lines@.len() ==> self@ == old(self)@.after_lines(views, ink, order_of(*reorder)),
                old(self)@.shows_lines(views.take(i as int), ink, order_of(*reorder)),
            decreases lines@.len() - i,
        {
            let ghost begun = self@;
            if lines[i].1 {
                self.mark_current_line_soft_wrap();
            }
            let rest = self.enter_line(lines[i].0.as_str());
            let visual = reorder(rest.as_str());
            proof {
                assert(reorders(*reorder, rest@, visual@));
                assert(visual@ == shown_by(*reorder, rest@));
            }
            self.ink(visual, style, background_color, hyperlink);
            proof {
                assert(views[i as int] == (lines@[i as int].0@, lines@[i as int].1));
                assert(self@ == begun.after_line(views[i as int], ink, order_of(*reorder)));
                let t = views.take(i + 1);
                assert(t.drop_last() =~= views.take(i as int));
                assert(t.last() == views[i as int]);
                assert(self@ == old(self)@.after_lines(t, ink, order_of(*reorder)));
                assert(old(self)@.shows_lines(t, ink, order_of(*reorder)));
            }
            i = i + 1;
            if i < lines.len() {
                self.finish_line();
            } else {
                assert(views.take(i as int) =~= views);
            }
        }
        assert(views.take(i as int) =~= views);
    }

    /// What was drawn.
    pub fn into_ops(self) -> (r: Vec<DrawOp>)
        ensures
            op_views(r@) == self@.ops,
    {
        self.ops
    }
}

/// So many spaces.
pub open spec fn blanks(n: int) -> Seq<char> {
    Seq::new(n as nat, |i: int| ' ')
}

/// So many spaces.
pub(crate) fn spaces(n: usize) -> (r: String)
    ensures
        r@ == blanks(n as int),
{
    let mut out = String::new();
    let mut i: usize = 0;
    assert(out@ =~= blanks(0));
    while i < n
        invariant
            i <= n,
            out@ == blanks(i as int),
        decreases n - i,
    {
        push_char(&mut out, ' ');
        i = i + 1;
        assert(out@ =~= blanks(i as int));
    }
    out
}

/// The width that a text is laid out in: that of its place, as far as it is
/// on the canvas. A text that is left alone may leave its place.
pub open spec fn layout_width(wrap: TextWrap, layout: usize, remaining: usize) -> usize {
    if text::leaves_alone(wrap) || layout <= remaining {
        layout
    } else {
        remaining
    }
}

/// How far to the right each line stands.
pub open spec fn paddings(lines: Seq<WrappedView>, align: TextAlign, width: usize) -> Seq<int> {
    lines.map_values(
        |line: WrappedView| text::padding(display::columns(line.text) as usize, align, width),
    )
}

/// The smallest of a list of numbers, or 0 where there is none.
pub open spec fn smallest(numbers: Seq<int>) -> int
    decreases numbers.len(),
{
    if numbers.len() == 0 {
        0
    } else if numbers.len() == 1 {
        numbers[0]
    } else {
        let before = smallest(numbers.drop_last());
        if numbers.last() < before {
            numbers.last()
        } else {
            before
        }
    }
}

/// The ink of a text without styling.
pub open spec fn plain_ink() -> InkView {
    InkView { style: style::unstyled(), background_color: None, hyperlink: None }
}

impl DrawerView {
    /// The drawer behind the spaces that a line with so much padding begins
    /// with.
    pub open spec fn padded(self, pad: int, order: OrderView) -> DrawerView {
        if pad > self.x_offset {
            self.after_line((blanks(pad - self.x_offset), false), plain_ink(), order)
        } else {
            self
        }
    }

    /// The drawer on a row that may go on with the row above it, behind its
    /// padding.
    pub open spec fn begun(self, soft_continuation: bool, pad: int, order: OrderView) -> DrawerView {
        if soft_continuation {
            self.marked().padded(pad, order)
        } else {
            self.padded(pad, order)
        }
    }

    /// Whether the order shows the padding of a row as it is drawn by
    /// [`DrawerView::begun`].
    pub open spec fn shows_padding(
        self,
        soft_continuation: bool,
        pad: int,
        order: OrderView,
    ) -> bool {
        pad > self.x_offset ==> (if soft_continuation {
            self.marked()
        } else {
            self
        }).shows_line(blanks(pad - self.x_offset), order)
    }

    /// The drawer after a line with so much padding.
    pub open spec fn after_wrapped(
        self,
        line: WrappedView,
        pad: int,
        ink: InkView,
        order: OrderView,
    ) -> DrawerView {
        DrawerView {
            prev_line_content_end: from_margin(clamp_isize(pad + line.content_end)),
            ..self.begun(line.soft_continuation, pad, order).after_line(
                (line.text, false),
                ink,
                order,
            )
        }
    }

    /// The drawer after several lines with their paddings, each on a row of
    /// its own.
    pub open spec fn after_all(
        self,
        lines: Seq<WrappedView>,
        pads: Seq<int>,
        ink: InkView,
        order: OrderView,
    ) -> DrawerView
        decreases lines.len(),
    {
        if lines.len() == 0 {
            self
        } else if lines.len() == 1 {
            self.after_wrapped(lines[0], pads[0], ink, order)
        } else {
            let n = lines.len() - 1;
            self.after_all(lines.drop_last(), pads, ink, order).finished().after_wrapped(
                lines[n],
                pads[n],
                ink,
                order,
            )
        }
    }
}

impl DrawerView {
    /// Whether the order shows a line and its padding as they are drawn by
    /// [`DrawerView::after_wrapped`].
    pub open spec fn shows_wrapped(
        self,
        line: WrappedView,
        pad: int,
        order: OrderView,
    ) -> bool {
        &&& self.shows_padding(line.soft_continuation, pad, order)
        &&& self.begun(line.soft_continuation, pad, order).shows_line(line.text, order)
    }

    /// Whether the order shows each of the lines as it is drawn by
    /// [`DrawerView::after_all`].
    pub open spec fn shows_all(
        self,
        lines: Seq<WrappedView>,
        pads: Seq<int>,
        ink: InkView,
        order: OrderView,
    ) -> bool
        decreases lines.len(),
    {
        if lines.len() == 0 {
            true
        } else if lines.len() == 1 {
            self.shows_wrapped(lines[0], pads[0], order)
        } else {
            let n = lines.len() - 1;
            self.shows_all(lines.drop_last(), pads, ink, order) && self.after_all(
                lines.drop_last(),
                pads,
                ink,
                order,
            ).finished().shows_wrapped(lines[n], pads[n], order)
        }
    }
}

impl DrawerView {
    /// The drawer before line `k` of several lines.
    pub open spec fn before_wrapped(
        self,
        lines: Seq<WrappedView>,
        pads: Seq<int>,
        ink: InkView,
        order: OrderView,
        k: int,
    ) -> DrawerView {
        if k == 0 {
            self
        } else {
            self.after_all(lines.take(k), pads, ink, order).finished()
        }
    }

    /// One line more is drawn behind the lines before it.
    proof fn after_all_step(
        self,
        lines: Seq<WrappedView>,
        pads: Seq<int>,
        ink: InkView,
        order: OrderView,
        k: int,
    )
        requires
            0 <= k < lines.len(),
        ensures
            ({
                let before = self.before_wrapped(lines, pads, ink, order, k);
                &&& self.after_all(lines.take(k + 1), pads, ink, order) == before.after_wrapped(
                    lines[k],
                    pads[k],
                    ink,
                    order,
                )
                &&& self.shows_all(lines.take(k + 1), pads, ink, order) <==> self.shows_all(
                    lines.take(k),
                    pads,
                    ink,
                    order,
                ) && before.shows_wrapped(lines[k], pads[k], order)
            }),
    {
        assert(lines.take(k + 1).drop_last() =~= lines.take(k));
    }
}

/// The drawer that a list of lines is drawn with.
pub open spec fn drawer_for(lines: Seq<WrappedView>, align: TextAlign, width: usize) -> DrawerView {
    new_drawer(smallest(paddings(lines, align, width)), align != TextAlign::Left)
}

/// What is drawn of a list of lines.
pub open spec fn drawing(
    lines: Seq<WrappedView>,
    align: TextAlign,
    width: usize,
    ink: InkView,
    order: OrderView,
) -> Seq<DrawOpView> {
    drawer_for(lines, align, width).after_all(lines, paddings(lines, align, width), ink, order).ops
}

/// Whether the order shows each of the lines as it is drawn by [`drawing`].
pub open spec fn drawing_shown(
    lines: Seq<WrappedView>,
    align: TextAlign,
    width: usize,
    ink: InkView,
    order: OrderView,
) -> bool {
    drawer_for(lines, align, width).shows_all(lines, paddings(lines, align, width), ink, order)
}

/// One text as a list.
pub(crate) fn one(text: String) -> (r: Vec<String>)
    ensures
        unmarked(r@) == seq![(text@, false)],
{
    let mut out: Vec<String> = Vec::new();
    out.push(text);
    assert(unmarked(out@) =~= seq![(text@, false)]);
    out
}

/// How far to the right each line stands, and the smallest of it.
pub(crate) fn lines_paddings(lines: &Vec<WrappedTextLine>, align: TextAlign, width: usize) -> (r: (
    Vec<isize>,
    isize,
))
    ensures
        ({
            let pads = paddings(text::wrapped_views(lines@), align, width);
            &&& r.0@.len() == pads.len()
            &&& forall|i: int| 0 <= i < pads.len() ==> #[trigger] r.0@[i] == pads[i]
            &&& r.1 == smallest(pads)
        }),
{
    let ghost views = text::wrapped_views(lines@);
    let ghost pads = paddings(views, align, width);
    let mut all: Vec<isize> = Vec::new();
    let mut x_offset: isize = 0;
    let mut i: usize = 0;
    while i < lines.len()
        invariant
            views == text::wrapped_views(lines@),
            pads == paddings(views, align, width),
            i <= lines@.len(),
            all@.len() == i,
            forall|j: int| 0 <= j < i ==> #[trigger] all@[j] == pads[j],
            x_offset == smallest(pads.take(i as int)),
        decreases lines@.len() - i,
    {
        let line_width: usize = display::string_display_width(lines[i].text.as_str());
        let pad: isize = Text::alignment_padding(line_width, align, width);
        proof {
            assert(views[i as int] == lines@[i as int]@);
            assert(pads[i as int] == pad);
            assert(pads.take(i + 1).drop_last() =~= pads.take(i as int));
        }
        if i == 0 || pad < x_offset {
            x_offset = pad;
        }
        all.push(pad);
        i = i + 1;
    }
    assert(pads.take(i as int) =~= pads);
    (all, x_offset)
}

impl TextDrawer {
    /// Begins a row that may go on with the row above it, and goes behind its
    /// padding.
    pub(crate) fn begin_row<F: Fn(&str) -> String>(
        &mut self,
        soft_continuation: bool,
        pad: isize,
        reorder: &F,
    )
        requires
            is_order(*reorder),
        ensures
            final(self)@ == old(self)@.begun(soft_continuation, pad as int, order_of(*reorder)),
            old(self)@.shows_padding(soft_continuation, pad as int, order_of(*reorder)),
            final(self)@.x_offset == old(self)@.x_offset,
    {
        if soft_continuation {
            self.mark_current_line_soft_wrap();
        }
        if pad > self.x_offset {
            let additional: usize = (pad as i128 - self.x_offset as i128) as usize;
            let blank = one(spaces(additional));
            self.append_lines(&blank, CanvasTextStyle::default(), reorder);
        }
    }

    /// Sets where the content of the row ends, behind its padding.
    pub(crate) fn end_row(&mut self, pad: isize, content_end: usize)
        ensures
            final(self)@ == (DrawerView {
                prev_line_content_end: from_margin(clamp_isize(pad + content_end)),
                ..old(self)@
            }),
    {
        self.set_prev_line_content_end(margin_columns(move_right(pad, content_end)));
    }

    /// Draws a line with so much padding.
    fn draw_line<F: Fn(&str) -> String>(
        &mut self,
        line: &WrappedTextLine,
        pad: isize,
        style: CanvasTextStyle,
        background_color: Option<Color>,
        hyperlink: &Option<String>,
        reorder: &F,
    )
        requires
            is_order(*reorder),
        ensures
            final(self)@ == old(self)@.after_wrapped(
                line@,
                pad as int,
                (InkView { style, background_color, hyperlink: env::opt_view(*hyperlink) }),
                order_of(*reorder),
            ),
            old(self)@.shows_wrapped(line@, pad as int, order_of(*reorder)),
    {
        self.begin_row(line.soft_continuation, pad, reorder);
        let text = one(line.text.clone());
        self.append_lines_with_background_and_link(
            &text,
            style,
            background_color,
            hyperlink,
            reorder,
        );
        self.end_row(pad, line.content_end);
    }
}

impl Text {
    /// How the text is drawn.
    pub open spec fn ink(self) -> InkView {
        InkView {
            style: self.style,
            background_color: self.background_color,
            hyperlink: env::opt_view(self.hyperlink),
        }
    }

    /// Draws lines as they were laid out. `reorder` puts a text in the order
    /// in which it is shown.
    pub fn draw_lines<F: Fn(&str) -> String>(
        &self,
        lines: &Vec<WrappedTextLine>,
        width: usize,
        reorder: &F,
    ) -> (r: Vec<DrawOp>)
        requires
            is_order(*reorder),
        ensures
            op_views(r@) == drawing(
                text::wrapped_views(lines@),
                self.align,
                width,
                self.ink(),
                order_of(*reorder),
            ),
            drawing_shown(
                text::wrapped_views(lines@),
                self.align,
                width,
                self.ink(),
                order_of(*reorder),
            ),
    {
        let ghost views = text::wrapped_views(lines@);
        let ghost pads = paddings(views, self.align, width);
        let ghost ink = self.ink();
        let (all, x_offset) = lines_paddings(lines, self.align, width);
        let mut drawer = TextDrawer::new(x_offset, self.align != TextAlign::Left);
        let ghost start = drawer@;
        let ghost order = order_of(*reorder);
        assert(start =~= drawer_for(views, self.align, width));
        assert(views.take(0) =~= Seq::empty());
        let mut k: usize = 0;
        while k < lines.len()
            invariant
                is_order(*reorder),
                order == order_of(*reorder),
                views == text::wrapped_views(lines@),
                ink == self.ink(),
                all@.len() == lines@.len() == pads.len(),
                forall|j: int| 0 <= j < all@.len() ==> #[trigger] all@[j] == pads[j],
                k <= lines@.len(),
                k < lines@.len() ==> drawer@ == start.before_wrapped(
                    views,
                    pads,
                    ink,
                    order,
                    k as int,
                ),
                k == lines@.len() > 0 ==> drawer@ == start.after_all(
                    views.take(k as int),
                    pads,
                    ink,
                    order,
                ),
                k == lines@.len() == 0 ==> drawer@ == start,
                start.shows_all(views.take(k as int), pads, ink, order),
            decreases lines@.len() - k,
        {
            proof {
                assert(views[k as int] == lines@[k as int]@);
                start.after_all_step(views, pads, ink, order, k as int);
            }
            drawer.draw_line(
                &lines[k],
                all[k],
                self.style,
                self.background_color,
                &self.hyperlink,
                reorder,
            );
            k = k + 1;
            if k < lines.len() {
                drawer.finish_line();
            }
        }
        assert(views.take(k as int) =~= views);
        drawer.into_ops()
    }

    /// The text that is drawn: that of the parts one after the other where
    /// there are parts.
    pub open spec fn shown(self) -> Seq<char> {
        if self.structured {
            mixed::text_of_parts(text::content_views(self.contents@))
        } else {
            self.content@
        }
    }

    /// The text that is drawn.
    pub fn shown_text(&self) -> (r: String)
        ensures
            r@ == self.shown(),
    {
        if self.structured {
            mixed::join_parts(&self.contents)
        } else {
            self.content.clone()
        }
    }

    /// What is drawn of the text in so many columns.
    pub open spec fn drawing_in(self, width: usize, order: OrderView) -> Seq<DrawOpView> {
        if self.structured {
            mixed::parts_drawing(
                text::content_views(self.contents@),
                self.wrap,
                self.align,
                width,
                order,
            )
        } else {
            drawing(
                text::lines_of(self.content@, self.wrap, width),
                self.align,
                width,
                self.ink(),
                order,
            )
        }
    }

    /// Whether the order shows the text as it is drawn by
    /// [`Text::drawing_in`].
    pub open spec fn shown_in(self, width: usize, order: OrderView) -> bool {
        if self.structured {
            mixed::parts_shown(
                text::content_views(self.contents@),
                self.wrap,
                self.align,
                width,
                order,
            )
        } else {
            drawing_shown(
                text::lines_of(self.content@, self.wrap, width),
                self.align,
                width,
                self.ink(),
                order,
            )
        }
    }

    /// Draws the text in a place of `layout` columns, of which `remaining` are
    /// on the canvas. Of a text without parts nothing is drawn where the row is
    /// that of a sibling without height.
    pub fn draw<F: Fn(&str) -> String>(
        &self,
        shares_row: bool,
        layout: usize,
        remaining: usize,
        reorder: &F,
    ) -> (r: Vec<DrawOp>)
        requires
            is_order(*reorder),
        ensures
            op_views(r@) == if shares_row && !self.structured {
                Seq::empty()
            } else {
                self.drawing_in(layout_width(self.wrap, layout, remaining), order_of(*reorder))
            },
            !shares_row || self.structured ==> self.shown_in(
                layout_width(self.wrap, layout, remaining),
                order_of(*reorder),
            ),
    {
        if shares_row && !self.structured {
            let ops: Vec<DrawOp> = Vec::new();
            assert(op_views(ops@) =~= Seq::empty());
            return ops;
        }
        let width: usize = match self.wrap {
            TextWrap::NoWrap | TextWrap::End | TextWrap::Middle => layout,
            _ => if layout <= remaining {
                layout
            } else {
                remaining
            },
        };
        if self.structured {
            return self.draw_parts(width, reorder);
        }
        let lines = Text::wrap_lines(self.content.as_str(), self.wrap, width);
        self.draw_lines(&lines, width, reorder)
    }
}

} // verus!
