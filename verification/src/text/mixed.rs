//! Drawing of a text that is made of parts, each in its own style.
//!
//! The parts are laid out as one text. Each line is then cut where one part
//! ends and the next begins, and each piece is drawn in the style of its part.
//! An ellipsis looks like the first character that it stands for.
use crate::chars::chars_of;
use crate::chars::push_range;
use crate::style::{CanvasTextStyle, UnderlineStyle};
use crate::text;
use crate::text::drawer;
use crate::text::drawer::{
    lines_paddings, one, DrawOp, DrawOpView, DrawerView, InkView, OrderView, TextDrawer,
};
use crate::text::origins;
use crate::text::{
    ContentView, MixedTextContent, Text, TextAlign, TextDecoration, TextWrap, WrappedTextLine,
    WrappedView,
};
use vstd::prelude::*;

verus! {

/// The text of a list of parts.
pub open spec fn text_of_parts(parts: Seq<ContentView>) -> Seq<char>
    decreases parts.len(),
{
    if parts.len() == 0 {
        Seq::empty()
    } else {
        text_of_parts(parts.drop_last()) + parts.last().text
    }
}

/// The number of the part that each character of the text belongs to.
pub open spec fn owners(parts: Seq<ContentView>) -> Seq<int>
    decreases parts.len(),
{
    if parts.len() == 0 {
        Seq::empty()
    } else {
        owners(parts.drop_last()) + Seq::new(parts.last().text.len(), |k: int| parts.len() - 1)
    }
}

/// The number of the part at a place in the text. Behind the text it is that
/// of the last character. In an empty text it is that of no part.
pub open spec fn owner_at(parts: Seq<ContentView>, place: int) -> int {
    let all = owners(parts);
    if all.len() == 0 {
        parts.len() as int
    } else if place < all.len() {
        all[place]
    } else {
        all.last()
    }
}

/// How a part is drawn.
pub open spec fn part_ink(part: ContentView) -> InkView {
    InkView {
        style: CanvasTextStyle {
            color: part.color,
            weight: part.weight,
            dim: part.dim,
            underline: part.decoration == TextDecoration::Underline,
            underline_style: UnderlineStyle::Single,
            underline_color: None,
            italic: part.italic,
            blink: false,
            hidden: false,
            strikethrough: part.strikethrough,
            overline: part.overline,
            invert: part.invert,
        },
        background_color: part.background_color,
        hyperlink: part.href,
    }
}

/// How the part with a given number is drawn. What belongs to no part has no
/// styling.
pub open spec fn owner_ink(parts: Seq<ContentView>, owner: int) -> InkView {
    if 0 <= owner < parts.len() {
        part_ink(parts[owner])
    } else {
        drawer::plain_ink()
    }
}

/// A piece of a line that belongs to one part.
#[verifier::ext_equal]
pub struct RunView {
    pub text: Seq<char>,
    pub ink: InkView,
}

/// The pieces of a line whose characters are at given places of the text: the
/// longest stretches that belong to one part each.
pub open spec fn runs(parts: Seq<ContentView>, line: Seq<char>, places: Seq<int>) -> Seq<RunView>
    decreases line.len(),
{
    if line.len() == 0 {
        Seq::empty()
    } else {
        let n = line.len() - 1;
        let before = runs(parts, line.drop_last(), places);
        let owner = owner_at(parts, places[n]);
        if n > 0 && owner_at(parts, places[n - 1]) == owner {
            before.drop_last().push(
                RunView { text: before.last().text.push(line[n]), ink: before.last().ink },
            )
        } else {
            before.push(RunView { text: seq![line[n]], ink: owner_ink(parts, owner) })
        }
    }
}

/// The texts of a list of pieces one after the other.
pub open spec fn text_of_runs(pieces: Seq<RunView>) -> Seq<char>
    decreases pieces.len(),
{
    if pieces.len() == 0 {
        Seq::empty()
    } else {
        text_of_runs(pieces.drop_last()) + pieces.last().text
    }
}

/// The pieces of each line.
pub open spec fn rows(
    parts: Seq<ContentView>,
    lines: Seq<WrappedView>,
    places: Seq<Seq<int>>,
) -> Seq<Seq<RunView>> {
    Seq::new(lines.len(), |i: int| runs(parts, lines[i].text, places[i]))
}

impl DrawerView {
    /// The drawer after several pieces of one row.
    pub open spec fn after_runs(self, pieces: Seq<RunView>, order: OrderView) -> DrawerView
        decreases pieces.len(),
    {
        if pieces.len() == 0 {
            self
        } else {
            self.after_runs(pieces.drop_last(), order).after_line(
                (pieces.last().text, false),
                pieces.last().ink,
                order,
            )
        }
    }

    /// Whether the order shows each of the pieces as it is drawn by
    /// [`DrawerView::after_runs`].
    pub open spec fn shows_runs(self, pieces: Seq<RunView>, order: OrderView) -> bool
        decreases pieces.len(),
    {
        pieces.len() == 0 || {
            &&& self.shows_runs(pieces.drop_last(), order)
            &&& self.after_runs(pieces.drop_last(), order).shows_line(pieces.last().text, order)
        }
    }

    /// The drawer after a line of pieces with so much padding.
    pub open spec fn after_row(
        self,
        line: WrappedView,
        pieces: Seq<RunView>,
        pad: int,
        order: OrderView,
    ) -> DrawerView {
        DrawerView {
            prev_line_content_end: drawer::from_margin(
                drawer::clamp_isize(pad + line.content_end),
            ),
            ..self.begun(line.soft_continuation, pad, order).after_runs(pieces, order)
        }
    }

    /// The drawer after several lines of pieces, each on a row of its own.
    pub open spec fn after_rows(
        self,
        lines: Seq<WrappedView>,
        pieces: Seq<Seq<RunView>>,
        pads: Seq<int>,
        order: OrderView,
    ) -> DrawerView
        decreases lines.len(),
    {
        if lines.len() == 0 {
            self
        } else if lines.len() == 1 {
            self.after_row(lines[0], pieces[0], pads[0], order)
        } else {
            let n = lines.len() - 1;
            self.after_rows(lines.drop_last(), pieces, pads, order).finished().after_row(
                lines[n],
                pieces[n],
                pads[n],
                order,
            )
        }
    }

    /// Whether the order shows a line of pieces and its padding as they are
    /// drawn by [`DrawerView::after_row`].
    pub open spec fn shows_row(
        self,
        line: WrappedView,
        pieces: Seq<RunView>,
        pad: int,
        order: OrderView,
    ) -> bool {
        &&& self.shows_padding(line.soft_continuation, pad, order)
        &&& self.begun(line.soft_continuation, pad, order).shows_runs(pieces, order)
    }

    /// Whether the order shows each of the lines as it is drawn by
    /// [`DrawerView::after_rows`].
    pub open spec fn shows_rows(
        self,
        lines: Seq<WrappedView>,
        pieces: Seq<Seq<RunView>>,
        pads: Seq<int>,
        order: OrderView,
    ) -> bool
        decreases lines.len(),
    {
        if lines.len() == 0 {
            true
        } else if lines.len() == 1 {
            self.shows_row(lines[0], pieces[0], pads[0], order)
        } else {
            let n = lines.len() - 1;
            self.shows_rows(lines.drop_last(), pieces, pads, order) && self.after_rows(
                lines.drop_last(),
                pieces,
                pads,
                order,
            ).finished().shows_row(lines[n], pieces[n], pads[n], order)
        }
    }

    /// The drawer before line `k` of several lines of pieces.
    pub open spec fn before_row(
        self,
        lines: Seq<WrappedView>,
        pieces: Seq<Seq<RunView>>,
        pads: Seq<int>,
        order: OrderView,
        k: int,
    ) -> DrawerView {
        if k == 0 {
            self
        } else {
            self.after_rows(lines.take(k), pieces, pads, order).finished()
        }
    }

    /// One line more is drawn behind the lines before it.
    proof fn after_rows_step(
        self,
        lines: Seq<WrappedView>,
        pieces: Seq<Seq<RunView>>,
        pads: Seq<int>,
        order: OrderView,
        k: int,
    )
        requires
            0 <= k < lines.len(),
        ensures
            ({
                let before = self.before_row(lines, pieces, pads, order, k);
                &&& self.after_rows(lines.take(k + 1), pieces, pads, order) == before.after_row(
                    lines[k],
                    pieces[k],
                    pads[k],
                    order,
                )
                &&& self.shows_rows(lines.take(k + 1), pieces, pads, order) <==> self.shows_rows(
                    lines.take(k),
                    pieces,
                    pads,
                    order,
                ) && before.shows_row(lines[k], pieces[k], pads[k], order)
            }),
    {
        assert(lines.take(k + 1).drop_last() =~= lines.take(k));
    }
}

/// What is drawn of a text of parts.
pub open spec fn parts_drawing(
    parts: Seq<ContentView>,
    wrap: TextWrap,
    align: TextAlign,
    width: usize,
    order: OrderView,
) -> Seq<DrawOpView> {
    let content = text_of_parts(parts);
    let lines = text::lines_of(content, wrap, width);
    drawer::drawer_for(lines, align, width).after_rows(
        lines,
        rows(parts, lines, origins::origins(content, wrap, width)),
        drawer::paddings(lines, align, width),
        order,
    ).ops
}

/// Whether the order shows each of the pieces as it is drawn by
/// [`parts_drawing`].
pub open spec fn parts_shown(
    parts: Seq<ContentView>,
    wrap: TextWrap,
    align: TextAlign,
    width: usize,
    order: OrderView,
) -> bool {
    let content = text_of_parts(parts);
    let lines = text::lines_of(content, wrap, width);
    drawer::drawer_for(lines, align, width).shows_rows(
        lines,
        rows(parts, lines, origins::origins(content, wrap, width)),
        drawer::paddings(lines, align, width),
        order,
    )
}

/// A list of pieces with one piece more.
proof fn text_of_runs_step(pieces: Seq<RunView>, piece: RunView)
    ensures
        text_of_runs(pieces.push(piece)) == text_of_runs(pieces) + piece.text,
{
    assert(pieces.push(piece).drop_last() =~= pieces);
}

/// The pieces of a line are the line, and a line with something on it has a
/// piece.
pub proof fn runs_are_the_line(parts: Seq<ContentView>, line: Seq<char>, places: Seq<int>)
    ensures
        text_of_runs(runs(parts, line, places)) == line,
        line.len() > 0 ==> runs(parts, line, places).len() > 0,
    decreases line.len(),
{
    if line.len() > 0 {
        let n = line.len() - 1;
        let before = runs(parts, line.drop_last(), places);
        let owner = owner_at(parts, places[n]);
        runs_are_the_line(parts, line.drop_last(), places);
        assert(line.drop_last().push(line[n]) =~= line);
        if n > 0 && owner_at(parts, places[n - 1]) == owner {
            assert(text_of_runs(before) == text_of_runs(before.drop_last()) + before.last().text);
            text_of_runs_step(
                before.drop_last(),
                RunView { text: before.last().text.push(line[n]), ink: before.last().ink },
            );
        } else {
            text_of_runs_step(
                before,
                RunView { text: seq![line[n]], ink: owner_ink(parts, owner) },
            );
        }
        assert(text_of_runs(runs(parts, line, places)) =~= line);
    }
}

/// How many characters the first `k` of a list of pieces hold.
pub open spec fn length_of_runs(pieces: Seq<RunView>, k: int) -> int {
    text_of_runs(pieces.take(k)).len() as int
}

/// Each piece of a line is drawn like the part of each of its characters, and
/// has something on it.
pub proof fn runs_look_like_their_parts(
    parts: Seq<ContentView>,
    line: Seq<char>,
    places: Seq<int>,
    k: int,
)
    requires
        0 <= k < runs(parts, line, places).len(),
    ensures
        ({
            let pieces = runs(parts, line, places);
            let from = length_of_runs(pieces, k);
            &&& pieces[k].text.len() > 0
            &&& forall|j: int|
                from <= j < from + pieces[k].text.len() ==> pieces[k].ink == owner_ink(
                    parts,
                    owner_at(parts, #[trigger] places[j]),
                )
        }),
    decreases line.len(),
{
    let n = line.len() - 1;
    let first = line.drop_last();
    let before = runs(parts, first, places);
    let pieces = runs(parts, line, places);
    let owner = owner_at(parts, places[n]);
    let from = length_of_runs(pieces, k);
    runs_are_the_line(parts, first, places);
    if n > 0 && owner_at(parts, places[n - 1]) == owner {
        let m = before.len() - 1;
        assert(pieces.take(k) =~= before.take(k));
        runs_look_like_their_parts(parts, first, places, k);
        if k == m {
            assert(before.take(m) =~= before.drop_last());
            assert(from + before[m].text.len() == n);
            assert(before[m].ink == owner_ink(parts, owner_at(parts, places[n - 1])));
            assert forall|j: int| from <= j < from + pieces[k].text.len() implies pieces[k].ink
                == owner_ink(parts, owner_at(parts, #[trigger] places[j])) by {
                if j < n {
                    assert(before[m].ink == owner_ink(parts, owner_at(parts, places[j])));
                }
            }
        }
    } else {
        assert(pieces.take(k) =~= before.take(k));
        if k < before.len() {
            runs_look_like_their_parts(parts, first, places, k);
        } else {
            assert(before.take(k) =~= before);
            assert(from == n);
        }
    }
}

/// One part more.
proof fn text_of_parts_step(parts: Seq<ContentView>, i: int)
    requires
        0 <= i < parts.len(),
    ensures
        text_of_parts(parts.take(i + 1)) == text_of_parts(parts.take(i)) + parts[i].text,
        owners(parts.take(i + 1)) == owners(parts.take(i)) + Seq::new(
            parts[i].text.len(),
            |k: int| i,
        ),
{
    assert(parts.take(i + 1).drop_last() =~= parts.take(i));
    assert(owners(parts.take(i + 1)) =~= owners(parts.take(i)) + Seq::new(
        parts[i].text.len(),
        |k: int| i,
    ));
}

impl MixedTextContent {
    /// The style that the part is drawn in.
    pub fn style(&self) -> (r: CanvasTextStyle)
        ensures
            r == part_ink(self@).style,
    {
        CanvasTextStyle {
            color: self.color,
            weight: self.weight,
            dim: self.dim,
            underline: self.decoration == TextDecoration::Underline,
            underline_style: UnderlineStyle::Single,
            underline_color: None,
            italic: self.italic,
            blink: false,
            hidden: false,
            strikethrough: self.strikethrough,
            overline: self.overline,
            invert: self.invert,
        }
    }
}

/// The text of a list of parts.
pub fn join_parts(parts: &Vec<MixedTextContent>) -> (r: String)
    ensures
        r@ == text_of_parts(text::content_views(parts@)),
{
    let ghost views = text::content_views(parts@);
    let mut out = String::new();
    let mut i: usize = 0;
    while i < parts.len()
        invariant
            views == text::content_views(parts@),
            i <= parts@.len(),
            out@ == text_of_parts(views.take(i as int)),
        decreases parts@.len() - i,
    {
        proof {
            assert(views[i as int] == parts@[i as int]@);
            text_of_parts_step(views, i as int);
        }
        out.append(parts[i].text.as_str());
        i = i + 1;
    }
    assert(views.take(i as int) =~= views);
    out
}

/// The number of the part that each character of the text belongs to.
fn find_owners(parts: &Vec<MixedTextContent>) -> (r: Vec<usize>)
    ensures
        origins::numbers(r@) == owners(text::content_views(parts@)),
{
    let ghost views = text::content_views(parts@);
    let mut out: Vec<usize> = Vec::new();
    let mut i: usize = 0;
    assert(origins::numbers(out@) =~= owners(views.take(0)));
    while i < parts.len()
        invariant
            views == text::content_views(parts@),
            i <= parts@.len(),
            origins::numbers(out@) == owners(views.take(i as int)),
        decreases parts@.len() - i,
    {
        let own = chars_of(parts[i].text.as_str());
        let ghost before = origins::numbers(out@);
        let mut k: usize = 0;
        assert(before + Seq::new(0, |j: int| i as int) =~= before);
        while k < own.len()
            invariant
                k <= own@.len(),
                origins::numbers(out@) == before + Seq::new(k as nat, |j: int| i as int),
            decreases own@.len() - k,
        {
            let ghost done = origins::numbers(out@);
            out.push(i);
            k = k + 1;
            assert(origins::numbers(out@) =~= done.push(i as int));
            assert(origins::numbers(out@) =~= before + Seq::new(k as nat, |j: int| i as int));
        }
        proof {
            assert(views[i as int] == parts@[i as int]@);
            text_of_parts_step(views, i as int);
        }
        i = i + 1;
    }
    assert(views.take(i as int) =~= views);
    out
}

/// The number of the part at a place in the text.
fn find_owner(parts: &Vec<MixedTextContent>, all: &Vec<usize>, place: usize) -> (r: usize)
    requires
        origins::numbers(all@) == owners(text::content_views(parts@)),
    ensures
        r == owner_at(text::content_views(parts@), place as int),
{
    assert(origins::numbers(all@).len() == all@.len());
    if all.len() == 0 {
        parts.len()
    } else if place < all.len() {
        assert(origins::numbers(all@)[place as int] == all@[place as int]);
        all[place]
    } else {
        assert(origins::numbers(all@).last() == all@[all@.len() - 1]);
        all[all.len() - 1]
    }
}

/// Draws a piece like the part with a given number.
fn draw_run<F: Fn(&str) -> String>(
    drawer: &mut TextDrawer,
    parts: &Vec<MixedTextContent>,
    owner: usize,
    text: String,
    reorder: &F,
)
    requires
        drawer::is_order(*reorder),
    ensures
        ({
            let ink = owner_ink(text::content_views(parts@), owner as int);
            let order = drawer::order_of(*reorder);
            &&& final(drawer)@ == old(drawer)@.after_line((text@, false), ink, order)
            &&& old(drawer)@.shows_line(text@, order)
        }),
{
    let ghost views = text::content_views(parts@);
    let line = one(text);
    if owner < parts.len() {
        assert(views[owner as int] == parts@[owner as int]@);
        drawer.append_lines_with_background_and_link(
            &line,
            parts[owner].style(),
            parts[owner].background_color,
            &parts[owner].href,
            reorder,
        );
    } else {
        drawer.append_lines(&line, CanvasTextStyle::default(), reorder);
    }
}

/// The pieces of the front of a line that ends where its part ends, with the
/// front of the next piece.
proof fn runs_step(
    parts: Seq<ContentView>,
    line: Seq<char>,
    places: Seq<int>,
    from: int,
    to: int,
)
    requires
        0 <= from < to <= line.len(),
        from > 0 ==> owner_at(parts, places[from - 1]) != owner_at(parts, places[from]),
        forall|j: int|
            from <= j < to ==> owner_at(parts, #[trigger] places[j]) == owner_at(
                parts,
                places[from],
            ),
    ensures
        runs(parts, line.take(to), places) == runs(parts, line.take(from), places).push(
            RunView {
                text: line.subrange(from, to),
                ink: owner_ink(parts, owner_at(parts, places[from])),
            },
        ),
    decreases to - from,
{
    let owner = owner_at(parts, places[from]);
    let before = runs(parts, line.take(from), places);
    assert(line.take(to).drop_last() =~= line.take(to - 1));
    assert(line.take(to)[to - 1] == line[to - 1]);
    assert(owner_at(parts, places[to - 1]) == owner);
    if to == from + 1 {
        assert(line.subrange(from, to) =~= seq![line[from]]);
    } else {
        runs_step(parts, line, places, from, to - 1);
        assert(owner_at(parts, places[to - 2]) == owner);
        let piece = RunView {
            text: line.subrange(from, to - 1),
            ink: owner_ink(parts, owner),
        };
        assert(before.push(piece).drop_last() =~= before);
        assert(line.subrange(from, to) =~= line.subrange(from, to - 1).push(line[to - 1]));
    }
}

/// Draws the pieces of a line whose characters are at given places of the
/// text.
fn draw_runs<F: Fn(&str) -> String>(
    drawer: &mut TextDrawer,
    parts: &Vec<MixedTextContent>,
    all: &Vec<usize>,
    line: &Vec<char>,
    places: &Vec<usize>,
    reorder: &F,
)
    requires
        drawer::is_order(*reorder),
        origins::numbers(all@) == owners(text::content_views(parts@)),
        places@.len() == line@.len(),
    ensures
        ({
            let pieces = runs(text::content_views(parts@), line@, origins::numbers(places@));
            let order = drawer::order_of(*reorder);
            &&& final(drawer)@ == old(drawer)@.after_runs(pieces, order)
            &&& old(drawer)@.shows_runs(pieces, order)
        }),
{
    let ghost views = text::content_views(parts@);
    let ghost order = drawer::order_of(*reorder);
    let ghost at = origins::numbers(places@);
    let mut from: usize = 0;
    assert(line@.take(0) =~= Seq::empty());
    while from < line.len()
        invariant
            drawer::is_order(*reorder),
            views == text::content_views(parts@),
            order == drawer::order_of(*reorder),
            at == origins::numbers(places@),
            origins::numbers(all@) == owners(views),
            places@.len() == line@.len(),
            from <= line@.len(),
            0 < from < line@.len() ==> owner_at(views, at[from - 1]) != owner_at(
                views,
                at[from as int],
            ),
            drawer@ == old(drawer)@.after_runs(runs(views, line@.take(from as int), at), order),
            old(drawer)@.shows_runs(runs(views, line@.take(from as int), at), order),
        decreases line@.len() - from,
    {
        let owner: usize = find_owner(parts, all, places[from]);
        assert(at[from as int] == places@[from as int]);
        let mut to: usize = from + 1;
        while to < line.len() && find_owner(parts, all, places[to]) == owner
            invariant
                views == text::content_views(parts@),
                at == origins::numbers(places@),
                origins::numbers(all@) == owners(views),
                places@.len() == line@.len(),
                from < to <= line@.len(),
                owner == owner_at(views, at[from as int]),
                forall|j: int|
                    from <= j < to ==> owner_at(views, #[trigger] at[j]) == owner_at(
                        views,
                        at[from as int],
                    ),
            decreases line@.len() - to,
        {
            assert(at[to as int] == places@[to as int]);
            to = to + 1;
        }
        let mut piece = String::new();
        push_range(&mut piece, line, from, to);
        proof {
            assert(piece@ =~= line@.subrange(from as int, to as int));
            runs_step(views, line@, at, from as int, to as int);
            let before = runs(views, line@.take(from as int), at);
            let run = RunView { text: piece@, ink: owner_ink(views, owner as int) };
            assert(before.push(run).drop_last() =~= before);
            if to < line@.len() {
                assert(at[to as int] == places@[to as int]);
                assert(owner_at(views, at[to - 1]) == owner);
            }
        }
        draw_run(drawer, parts, owner, piece, reorder);
        from = to;
    }
    assert(line@.take(from as int) =~= line@);
}

/// Draws a line of pieces with so much padding.
fn draw_row<F: Fn(&str) -> String>(
    drawer: &mut TextDrawer,
    parts: &Vec<MixedTextContent>,
    all: &Vec<usize>,
    line: &WrappedTextLine,
    places: &Vec<usize>,
    pad: isize,
    reorder: &F,
)
    requires
        drawer::is_order(*reorder),
        origins::numbers(all@) == owners(text::content_views(parts@)),
        places@.len() == line.text@.len(),
    ensures
        ({
            let pieces = runs(
                text::content_views(parts@),
                line.text@,
                origins::numbers(places@),
            );
            let order = drawer::order_of(*reorder);
            &&& final(drawer)@ == old(drawer)@.after_row(line@, pieces, pad as int, order)
            &&& old(drawer)@.shows_row(line@, pieces, pad as int, order)
        }),
{
    drawer.begin_row(line.soft_continuation, pad, reorder);
    let content = chars_of(line.text.as_str());
    draw_runs(drawer, parts, all, &content, places, reorder);
    drawer.end_row(pad, line.content_end);
}

/// Whether there is something on each line of a text.
pub open spec fn no_line_is_empty(content: Seq<char>, wrap: TextWrap, width: usize) -> bool {
    let lines = text::lines_of(content, wrap, width);
    forall|i: int| 0 <= i < lines.len() ==> (#[trigger] lines[i]).text.len() > 0
}

/// The text of one part, which is its own everywhere.
proof fn one_part_is_the_text(part: ContentView)
    ensures
        text_of_parts(seq![part]) == part.text,
        part.text.len() > 0 ==> forall|place: int|
            0 <= place ==> #[trigger] owner_at(seq![part], place) == 0,
{
    let parts = seq![part];
    assert(parts.drop_last() =~= Seq::empty());
    assert(text_of_parts(parts.drop_last()) =~= Seq::empty());
    assert(text_of_parts(parts) =~= part.text);
    assert(owners(parts.drop_last()) =~= Seq::empty());
    assert(owners(parts) =~= Seq::new(part.text.len(), |k: int| 0));
}

/// A line with something on it is one piece where there is one part.
proof fn one_part_has_one_piece(part: ContentView, line: Seq<char>, places: Seq<int>)
    requires
        part.text.len() > 0,
        line.len() > 0,
        places.len() == line.len(),
        forall|k: int| 0 <= k < places.len() ==> 0 <= #[trigger] places[k],
    ensures
        runs(seq![part], line, places) == seq![RunView { text: line, ink: part_ink(part) }],
{
    one_part_is_the_text(part);
    assert(line.take(0) =~= Seq::empty());
    assert(line.take(line.len() as int) =~= line);
    assert(line.subrange(0, line.len() as int) =~= line);
    runs_step(seq![part], line, places, 0, line.len() as int);
    assert(runs(seq![part], line, places) =~= seq![RunView { text: line, ink: part_ink(part) }]);
}

/// Lines of one piece each are drawn like lines.
proof fn one_piece_is_drawn_like_a_line(
    drawer: DrawerView,
    lines: Seq<WrappedView>,
    pieces: Seq<Seq<RunView>>,
    pads: Seq<int>,
    ink: InkView,
    order: OrderView,
)
    requires
        forall|i: int|
            0 <= i < lines.len() ==> #[trigger] pieces[i] == seq![
                RunView { text: lines[i].text, ink },
            ],
    ensures
        drawer.after_rows(lines, pieces, pads, order) == drawer.after_all(lines, pads, ink, order),
    decreases lines.len(),
{
    if lines.len() > 0 {
        let n = lines.len() - 1;
        let first = lines.drop_last();
        assert forall|i: int| 0 <= i < first.len() implies #[trigger] pieces[i] == seq![
            RunView { text: first[i].text, ink },
        ] by {
            assert(first[i] == lines[i]);
        }
        one_piece_is_drawn_like_a_line(drawer, first, pieces, pads, ink, order);
        assert(pieces[n].drop_last() =~= Seq::empty());
        assert(pieces[n].last() == (RunView { text: lines[n].text, ink }));
        reveal_with_fuel(DrawerView::after_runs, 2);
    }
}

/// A text of one part is drawn like a text that has no parts, where there is
/// something on each of its lines.
proof fn one_part_is_drawn_like_a_text(
    part: ContentView,
    wrap: TextWrap,
    align: TextAlign,
    width: usize,
    order: OrderView,
)
    requires
        part.text.len() > 0,
        no_line_is_empty(part.text, wrap, width),
        origins::laid_out_from(part.text, wrap, width),
        origins::no_place_is_negative(origins::origins(part.text, wrap, width)),
    ensures
        parts_drawing(seq![part], wrap, align, width, order) == drawer::drawing(
            text::lines_of(part.text, wrap, width),
            align,
            width,
            part_ink(part),
            order,
        ),
{
    let lines = text::lines_of(part.text, wrap, width);
    let places = origins::origins(part.text, wrap, width);
    let pieces = rows(seq![part], lines, places);
    one_part_is_the_text(part);
    assert forall|i: int| 0 <= i < lines.len() implies #[trigger] pieces[i] == seq![
        RunView { text: lines[i].text, ink: part_ink(part) },
    ] by {
        assert(origins::stands_for(
            part.text,
            lines[i].text,
            places[i],
            text::cut_of(wrap) is Some,
        ));
        one_part_has_one_piece(part, lines[i].text, places[i]);
    }
    one_piece_is_drawn_like_a_line(
        drawer::drawer_for(lines, align, width),
        lines,
        pieces,
        drawer::paddings(lines, align, width),
        part_ink(part),
        order,
    );
}

impl Text {
    /// Draws the parts of a text in so many columns, laid out as one text,
    /// each in its own style. Each character is that of its place in the text,
    /// but for an ellipsis. A single part is drawn like a text that has no
    /// parts. `reorder` puts a piece in the order in which it is shown.
    pub fn draw_parts<F: Fn(&str) -> String>(&self, width: usize, reorder: &F) -> (r: Vec<DrawOp>)
        requires
            drawer::is_order(*reorder),
        ensures
            drawer::op_views(r@) == parts_drawing(
                text::content_views(self.contents@),
                self.wrap,
                self.align,
                width,
                drawer::order_of(*reorder),
            ),
            parts_shown(
                text::content_views(self.contents@),
                self.wrap,
                self.align,
                width,
                drawer::order_of(*reorder),
            ),
            origins::laid_out_from(
                text_of_parts(text::content_views(self.contents@)),
                self.wrap,
                width,
            ),
            self.contents@.len() == 1 && self.contents@[0].text@.len() > 0 && no_line_is_empty(
                self.contents@[0].text@,
                self.wrap,
                width,
            ) ==> drawer::op_views(r@) == drawer::drawing(
                text::lines_of(self.contents@[0].text@, self.wrap, width),
                self.align,
                width,
                part_ink(self.contents@[0]@),
                drawer::order_of(*reorder),
            ),
    {
        let ghost parts = text::content_views(self.contents@);
        let ghost order = drawer::order_of(*reorder);
        let joined = join_parts(&self.contents);
        let all = find_owners(&self.contents);
        let (lines, places) = Text::place_lines(joined.as_str(), self.wrap, width);
        let (pads, x_offset) = lines_paddings(&lines, self.align, width);
        let ghost views = text::wrapped_views(lines@);
        let ghost spaces = drawer::paddings(views, self.align, width);
        let ghost at = origins::all_numbers(places@);
        let ghost pieces = rows(parts, views, at);
        proof {
            if self.contents@.len() == 1 && self.contents@[0].text@.len() > 0 && no_line_is_empty(
                self.contents@[0].text@,
                self.wrap,
                width,
            ) {
                assert(parts =~= seq![self.contents@[0]@]);
                one_part_is_the_text(self.contents@[0]@);
                origins::numbers_are_not_negative(places@);
                one_part_is_drawn_like_a_text(
                    self.contents@[0]@,
                    self.wrap,
                    self.align,
                    width,
                    order,
                );
            }
        }
        let mut drawer = TextDrawer::new(x_offset, self.align != TextAlign::Left);
        let ghost start = drawer@;
        assert(start =~= drawer::drawer_for(views, self.align, width));
        assert(views.take(0) =~= Seq::empty());
        let mut k: usize = 0;
        while k < lines.len()
            invariant
                drawer::is_order(*reorder),
                order == drawer::order_of(*reorder),
                parts == text::content_views(self.contents@),
                origins::numbers(all@) == owners(parts),
                views == text::wrapped_views(lines@),
                at == origins::all_numbers(places@),
                pieces == rows(parts, views, at),
                origins::all_stand_for(joined@, views, at, text::cut_of(self.wrap) is Some),
                pads@.len() == lines@.len() == spaces.len(),
                forall|j: int| 0 <= j < pads@.len() ==> #[trigger] pads@[j] == spaces[j],
                k <= lines@.len(),
                k < lines@.len() ==> drawer@ == start.before_row(
                    views,
                    pieces,
                    spaces,
                    order,
                    k as int,
                ),
                k == lines@.len() > 0 ==> drawer@ == start.after_rows(
                    views.take(k as int),
                    pieces,
                    spaces,
                    order,
                ),
                k == lines@.len() == 0 ==> drawer@ == start,
                start.shows_rows(views.take(k as int), pieces, spaces, order),
            decreases lines@.len() - k,
        {
            proof {
                assert(views[k as int] == lines@[k as int]@);
                assert(origins::stands_for(
                    joined@,
                    views[k as int].text,
                    at[k as int],
                    text::cut_of(self.wrap) is Some,
                ));
                assert(at[k as int] == origins::numbers(places@[k as int]@));
                start.after_rows_step(views, pieces, spaces, order, k as int);
            }
            draw_row(
                &mut drawer,
                &self.contents,
                &all,
                &lines[k],
                &places[k],
                pads[k],
                reorder,
            );
            k = k + 1;
            if k < lines.len() {
                drawer.finish_line();
            }
        }
        assert(views.take(k as int) =~= views);
        drawer.into_ops()
    }
}

} // verus!
