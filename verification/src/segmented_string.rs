//! Wrapping of a text to a width.
//!
//! Each line of the text is filled with as many clusters as fit. Where the
//! next cluster does not fit, the line is broken before the word that the
//! cluster belongs to, or before the cluster where the word fills the whole
//! line. White space that does not fit is dropped.
use crate::chars;
use crate::chars::{chars_of, find_char, is_whitespace, push_range, trimmed_len};
use crate::display;
use crate::display::{clusters_of, string_display_width, Cluster, ClusterView};
use vstd::prelude::*;

verus! {

/// Whether a cluster is white space.
pub open spec fn blank(cluster: ClusterView) -> bool {
    chars::all_in(cluster.text, |c: char| chars::whitespace(c))
}

/// How far a line reaches that begins at cluster `from`, where the clusters
/// before `to` are on it and end at column `col`. There is always one cluster
/// on a line.
pub open spec fn reach(
    cs: Seq<ClusterView>,
    from: int,
    to: int,
    col: int,
    width: usize,
) -> int
    decreases cs.len() - to,
{
    if to < 0 || to >= cs.len() {
        cs.len() as int
    } else if to > from && display::column_after(cs[to], col) > width {
        to
    } else {
        reach(cs, from, to + 1, display::column_after(cs[to], col), width)
    }
}

/// The beginning of the word that goes on at `to`: the place behind the last
/// blank cluster between `from` and `to`, or `from` where there is none.
pub open spec fn word_start(cs: Seq<ClusterView>, from: int, to: int) -> int
    decreases to - from,
{
    if to <= from {
        from
    } else if blank(cs[to - 1]) {
        to
    } else {
        word_start(cs, from, to - 1)
    }
}

/// The first cluster from `at` on that is not blank.
pub open spec fn after_blanks(cs: Seq<ClusterView>, at: int) -> int
    decreases cs.len() - at,
{
    if at < 0 || at >= cs.len() {
        cs.len() as int
    } else if blank(cs[at]) {
        after_blanks(cs, at + 1)
    } else {
        at
    }
}

/// Where a line ends that begins at `from`.
pub open spec fn line_end(cs: Seq<ClusterView>, from: int, width: usize) -> int {
    let to = reach(cs, from, from, 0, width);
    if to >= cs.len() || blank(cs[to]) {
        to
    } else if word_start(cs, from, to) > from {
        word_start(cs, from, to)
    } else {
        to
    }
}

/// Where the line after it begins.
pub open spec fn next_line(cs: Seq<ClusterView>, from: int, width: usize) -> int {
    let to = reach(cs, from, from, 0, width);
    if to < cs.len() && blank(cs[to]) {
        after_blanks(cs, to)
    } else {
        line_end(cs, from, width)
    }
}

/// A line reaches over at least one cluster.
proof fn reach_bounds(cs: Seq<ClusterView>, from: int, to: int, col: int, width: usize)
    requires
        0 <= from <= to <= cs.len(),
        from < cs.len(),
    ensures
        to <= reach(cs, from, to, col, width) <= cs.len(),
        from < reach(cs, from, to, col, width),
    decreases cs.len() - to,
{
    if to < cs.len() && !(to > from && display::column_after(cs[to], col) > width) {
        reach_bounds(cs, from, to + 1, display::column_after(cs[to], col), width);
    }
}

/// A word begins on its line.
proof fn word_start_bounds(cs: Seq<ClusterView>, from: int, to: int)
    requires
        from <= to,
    ensures
        from <= word_start(cs, from, to) <= to,
    decreases to - from,
{
    if from < to && !blank(cs[to - 1]) {
        word_start_bounds(cs, from, to - 1);
    }
}

/// Blanks are skipped forward, and blanks only.
proof fn after_blanks_bounds(cs: Seq<ClusterView>, at: int)
    requires
        0 <= at <= cs.len(),
    ensures
        at <= after_blanks(cs, at) <= cs.len(),
        forall|i: int| at <= i < after_blanks(cs, at) ==> blank(#[trigger] cs[i]),
    decreases cs.len() - at,
{
    if at < cs.len() && blank(cs[at]) {
        after_blanks_bounds(cs, at + 1);
    }
}

/// Each line takes at least one cluster, and between two lines there are
/// blanks only.
pub proof fn lines_advance(cs: Seq<ClusterView>, from: int, width: usize)
    requires
        0 <= from < cs.len(),
    ensures
        from < line_end(cs, from, width) <= next_line(cs, from, width) <= cs.len(),
        forall|i: int|
            line_end(cs, from, width) <= i < next_line(cs, from, width) ==> blank(
                #[trigger] cs[i],
            ),
{
    reach_bounds(cs, from, from, 0, width);
    let to = reach(cs, from, from, 0, width);
    word_start_bounds(cs, from, to);
    after_blanks_bounds(cs, to);
}

/// The lines of a text from cluster `from` on, each as the range of its
/// clusters.
pub open spec fn ranges(cs: Seq<ClusterView>, from: int, width: usize) -> Seq<(int, int)>
    decreases cs.len() - from,
    when 0 <= from <= cs.len()
    via ranges_shrink
{
    if from >= cs.len() {
        Seq::empty()
    } else {
        seq![(from, line_end(cs, from, width))] + ranges(cs, next_line(cs, from, width), width)
    }
}

#[via_fn]
proof fn ranges_shrink(cs: Seq<ClusterView>, from: int, width: usize) {
    if 0 <= from < cs.len() {
        lines_advance(cs, from, width);
    }
}

/// The lines of a text without line breaks. An empty text has one line.
pub open spec fn line_ranges(cs: Seq<ClusterView>, width: usize) -> Seq<(int, int)> {
    if cs.len() == 0 {
        seq![(0, 0)]
    } else {
        ranges(cs, 0, width)
    }
}

/// The text of a list of clusters.
pub open spec fn text_of(cs: Seq<ClusterView>) -> Seq<char>
    decreases cs.len(),
{
    if cs.len() == 0 {
        Seq::empty()
    } else {
        text_of(cs.drop_last()) + cs.last().text
    }
}

/// A wrapped line.
#[derive(Debug, PartialEq, Eq)]
pub struct SegmentedStringLine {
    /// What is on the line.
    pub text: String,
    /// How many characters of the text come before the line.
    pub offset: usize,
    /// How many columns the line takes.
    pub width: usize,
}

/// What a wrapped line stands for.
#[verifier::ext_equal]
pub struct LineView {
    pub text: Seq<char>,
    pub offset: int,
    pub width: int,
}

impl View for SegmentedStringLine {
    type V = LineView;

    open spec fn view(&self) -> LineView {
        LineView { text: self.text@, offset: self.offset as int, width: self.width as int }
    }
}

/// The views of a list of wrapped lines.
pub open spec fn line_views(lines: Seq<SegmentedStringLine>) -> Seq<LineView> {
    lines.map_values(|line: SegmentedStringLine| line@)
}

/// The line over a range of the clusters of a text that begins at `offset`.
pub open spec fn line_of(cs: Seq<ClusterView>, offset: int, range: (int, int)) -> LineView {
    LineView {
        text: text_of(cs.subrange(range.0, range.1)),
        offset: offset + text_of(cs.take(range.0)).len(),
        width: display::end_column(cs.subrange(range.0, range.1), 0),
    }
}

/// The wrapped lines of a text without line breaks that begins at `offset`.
pub open spec fn wrapped_clusters(cs: Seq<ClusterView>, offset: int, width: usize) -> Seq<
    LineView,
> {
    line_ranges(cs, width).map_values(|range: (int, int)| line_of(cs, offset, range))
}

/// The wrapped lines of a text from position `at` on.
pub open spec fn wrapped_from(text: Seq<char>, at: int, width: usize) -> Seq<LineView>
    decreases text.len() - at,
    when 0 <= at <= text.len()
    via wrapped_from_shrinks
{
    let end = chars::find_from(text, '\n', at);
    let lines = wrapped_clusters(display::clusters(text.subrange(at, end)), at, width);
    if end >= text.len() {
        lines
    } else {
        lines + wrapped_from(text, end + 1, width)
    }
}

#[via_fn]
proof fn wrapped_from_shrinks(text: Seq<char>, at: int, width: usize) {
    chars::find_from_bounds(text, '\n', at);
}

/// The wrapped lines of a text.
pub open spec fn wrapped(text: Seq<char>, width: usize) -> Seq<LineView> {
    wrapped_from(text, 0, width)
}

/// Whether a line is what stands in a text from `begin` on.
pub open spec fn stands_at(content: Seq<char>, line: Seq<char>, begin: int) -> bool {
    &&& 0 <= begin
    &&& begin + line.len() <= content.len()
    &&& line == content.subrange(begin, begin + line.len())
}

/// Whether a wrapped line stands where it says that it begins.
pub open spec fn stands_in(line: LineView, text: Seq<char>) -> bool {
    stands_at(text, line.text, line.offset)
}

/// Whether a cluster is white space.
fn is_blank(cluster: &Cluster) -> (r: bool)
    ensures
        r == blank(cluster@),
{
    let s = chars_of(cluster.text.as_str());
    let mut i: usize = 0;
    while i < s.len()
        invariant
            s@ == cluster.text@,
            i <= s@.len(),
            forall|j: int| 0 <= j < i ==> chars::whitespace(#[trigger] s@[j]),
        decreases s@.len() - i,
    {
        if !is_whitespace(s[i]) {
            assert(!blank(cluster@));
            return false;
        }
        i = i + 1;
    }
    true
}

/// How far a line reaches that begins at cluster `from`.
fn reach_from(clusters: &Vec<Cluster>, from: usize, width: usize) -> (r: usize)
    requires
        from < clusters@.len(),
    ensures
        r == reach(display::cluster_views(clusters@), from as int, from as int, 0, width),
        from < r <= clusters@.len(),
{
    let ghost cs = display::cluster_views(clusters@);
    let mut to: usize = from;
    let mut col: usize = 0;
    proof {
        reach_bounds(cs, from as int, from as int, 0, width);
    }
    while to < clusters.len()
        invariant
            cs == display::cluster_views(clusters@),
            from <= to <= clusters@.len(),
            from < clusters@.len(),
            reach(cs, from as int, from as int, 0, width) == reach(
                cs,
                from as int,
                to as int,
                col as int,
                width,
            ),
            from < reach(cs, from as int, from as int, 0, width),
        decreases clusters@.len() - to,
    {
        assert(cs[to as int] == clusters@[to as int]@);
        let next: usize = clusters[to].advance(col);
        if to > from && next > width {
            return to;
        }
        col = next;
        to = to + 1;
    }
    to
}

/// The range of a line that begins at `from`, and where the next line begins.
fn line_at(clusters: &Vec<Cluster>, from: usize, width: usize) -> (r: (usize, usize))
    requires
        from < clusters@.len(),
    ensures
        r.0 == line_end(display::cluster_views(clusters@), from as int, width),
        r.1 == next_line(display::cluster_views(clusters@), from as int, width),
        from < r.0 <= r.1 <= clusters@.len(),
{
    let ghost cs = display::cluster_views(clusters@);
    let to: usize = reach_from(clusters, from, width);
    if to == clusters.len() {
        return (to, to);
    }
    assert(cs[to as int] == clusters@[to as int]@);
    if is_blank(&clusters[to]) {
        let mut next: usize = to;
        while next < clusters.len() && is_blank(&clusters[next])
            invariant
                cs == display::cluster_views(clusters@),
                to <= next <= clusters@.len(),
                after_blanks(cs, to as int) == after_blanks(cs, next as int),
            decreases clusters@.len() - next,
        {
            assert(cs[next as int] == clusters@[next as int]@);
            next = next + 1;
        }
        proof {
            if next < clusters.len() {
                assert(cs[next as int] == clusters@[next as int]@);
            }
        }
        return (to, next);
    }
    let mut start: usize = to;
    while start > from && !is_blank(&clusters[start - 1])
        invariant
            cs == display::cluster_views(clusters@),
            from <= start <= to < clusters@.len(),
            word_start(cs, from as int, to as int) == word_start(cs, from as int, start as int),
        decreases start,
    {
        assert(cs[start - 1] == clusters@[start - 1]@);
        start = start - 1;
    }
    proof {
        if start > from {
            assert(cs[start - 1] == clusters@[start - 1]@);
        }
    }
    if start > from {
        (start, start)
    } else {
        (to, to)
    }
}

/// Wraps a text without line breaks, cut into clusters, to a width. The result
/// holds the range of clusters on each line.
pub fn wrap_clusters(clusters: &Vec<Cluster>, width: usize) -> (r: Vec<(usize, usize)>)
    ensures
        r@.map_values(|range: (usize, usize)| (range.0 as int, range.1 as int)) == line_ranges(
            display::cluster_views(clusters@),
            width,
        ),
        forall|i: int|
            0 <= i < r@.len() ==> (#[trigger] r@[i]).0 <= r@[i].1 && r@[i].1 <= clusters@.len(),
{
    let ghost cs = display::cluster_views(clusters@);
    let mut out: Vec<(usize, usize)> = Vec::new();
    if clusters.len() == 0 {
        out.push((0, 0));
        assert(out@.map_values(|range: (usize, usize)| (range.0 as int, range.1 as int))
            =~= line_ranges(cs, width));
        return out;
    }
    let mut from: usize = 0;
    assert(out@.map_values(|range: (usize, usize)| (range.0 as int, range.1 as int)) + ranges(
        cs,
        0,
        width,
    ) =~= ranges(cs, 0, width));
    while from < clusters.len()
        invariant
            cs == display::cluster_views(clusters@),
            from <= clusters@.len(),
            out@.map_values(|range: (usize, usize)| (range.0 as int, range.1 as int)) + ranges(
                cs,
                from as int,
                width,
            ) == ranges(cs, 0, width),
            forall|i: int|
                0 <= i < out@.len() ==> (#[trigger] out@[i]).0 <= out@[i].1 && out@[i].1
                    <= clusters@.len(),
        decreases clusters@.len() - from,
    {
        let (end, next) = line_at(clusters, from, width);
        let ghost before = out@.map_values(
            |range: (usize, usize)| (range.0 as int, range.1 as int),
        );
        out.push((from, end));
        proof {
            let after = out@.map_values(|range: (usize, usize)| (range.0 as int, range.1 as int));
            assert(after =~= before.push((from as int, end as int)));
            assert(before + ranges(cs, from as int, width) =~= after + ranges(
                cs,
                next as int,
                width,
            ));
        }
        from = next;
    }
    assert(out@.map_values(|range: (usize, usize)| (range.0 as int, range.1 as int)) =~= ranges(
        cs,
        0,
        width,
    ));
    out
}

/// The text of one cluster more.
pub proof fn text_of_take(cs: Seq<ClusterView>, i: int)
    requires
        0 <= i < cs.len(),
    ensures
        text_of(cs.take(i + 1)) == text_of(cs.take(i)) + cs[i].text,
{
    assert(cs.take(i + 1).drop_last() =~= cs.take(i));
}

/// The texts of clusters one after the other are the text of the clusters.
pub proof fn text_of_joins(clusters: Seq<Cluster>)
    ensures
        text_of(display::cluster_views(clusters)) == display::joined(
            clusters.map_values(|cluster: Cluster| cluster.text@),
        ),
    decreases clusters.len(),
{
    if clusters.len() > 0 {
        let texts = clusters.map_values(|cluster: Cluster| cluster.text@);
        text_of_joins(clusters.drop_last());
        assert(display::cluster_views(clusters).drop_last() =~= display::cluster_views(
            clusters.drop_last(),
        ));
        assert(texts.drop_last() =~= clusters.drop_last().map_values(
            |cluster: Cluster| cluster.text@,
        ));
    }
}

/// A part of the clusters has no more text than all of them.
pub proof fn text_of_take_bound(cs: Seq<ClusterView>, i: int)
    requires
        0 <= i <= cs.len(),
    ensures
        text_of(cs.take(i)).len() <= text_of(cs).len(),
    decreases cs.len() - i,
{
    if i < cs.len() {
        text_of_take(cs, i);
        text_of_take_bound(cs, i + 1);
    } else {
        assert(cs.take(i) =~= cs);
    }
}

/// The text of some of the clusters stands behind the text of those before
/// them.
pub proof fn text_of_between(cs: Seq<ClusterView>, from: int, to: int)
    requires
        0 <= from <= to <= cs.len(),
    ensures
        text_of(cs.take(to)) == text_of(cs.take(from)) + text_of(cs.subrange(from, to)),
    decreases to - from,
{
    if from == to {
        assert(cs.subrange(from, to) =~= Seq::empty());
    } else {
        let t = cs.subrange(from, to);
        text_of_between(cs, from, to - 1);
        text_of_take(cs, to - 1);
        assert(t.drop_last() =~= cs.subrange(from, to - 1));
        assert(t.last() == cs[to - 1]);
    }
}

/// The wrapped lines of a text without line breaks stand in the text round it.
proof fn wrapped_clusters_stand_in(
    cs: Seq<ClusterView>,
    offset: int,
    width: usize,
    text: Seq<char>,
    i: int,
)
    requires
        0 <= offset,
        offset + text_of(cs).len() <= text.len(),
        text_of(cs) == text.subrange(offset, offset + text_of(cs).len()),
        0 <= i < wrapped_clusters(cs, offset, width).len(),
    ensures
        stands_in(wrapped_clusters(cs, offset, width)[i], text),
{
    let span = line_ranges(cs, width)[i];
    wrapped_lines_fit(cs, 0, width);
    text_of_between(cs, span.0, span.1);
    text_of_between(cs, span.1, cs.len() as int);
    assert(cs.take(cs.len() as int) =~= cs);
    let line = line_of(cs, offset, span);
    let at = text_of(cs.take(span.0)).len() as int;
    assert(text_of(cs).subrange(at, at + line.text.len()) =~= line.text);
    assert(text.subrange(line.offset, line.offset + line.text.len()) =~= text_of(cs).subrange(
        at,
        at + line.text.len(),
    ));
}

/// Builds the line over a range of clusters.
fn build_line(clusters: &Vec<Cluster>, offset: usize, from: usize, to: usize) -> (r:
    SegmentedStringLine)
    requires
        from <= to <= clusters@.len(),
        offset + text_of(display::cluster_views(clusters@)).len() <= usize::MAX,
    ensures
        r@ == line_of(display::cluster_views(clusters@), offset as int, (from as int, to as int)),
{
    let ghost cs = display::cluster_views(clusters@);
    let mut at: usize = offset;
    let mut i: usize = 0;
    assert(text_of(cs.take(0)).len() == 0);
    while i < from
        invariant
            cs == display::cluster_views(clusters@),
            i <= from <= clusters@.len(),
            at == offset + text_of(cs.take(i as int)).len(),
            offset + text_of(cs).len() <= usize::MAX,
        decreases from - i,
    {
        let text = chars_of(clusters[i].text.as_str());
        proof {
            assert(cs[i as int] == clusters@[i as int]@);
            text_of_take(cs, i as int);
            text_of_take_bound(cs, i + 1);
        }
        at = at + text.len();
        i = i + 1;
    }
    let mut text = String::new();
    let mut col: usize = 0;
    assert(text_of(cs.subrange(from as int, from as int)) =~= Seq::empty());
    assert(cs.subrange(from as int, from as int) =~= Seq::empty());
    while i < to
        invariant
            cs == display::cluster_views(clusters@),
            from <= i <= to <= clusters@.len(),
            text@ == text_of(cs.subrange(from as int, i as int)),
            col == display::end_column(cs.subrange(from as int, i as int), 0),
        decreases to - i,
    {
        proof {
            let t = cs.subrange(from as int, i + 1);
            assert(cs[i as int] == clusters@[i as int]@);
            assert(t.drop_last() =~= cs.subrange(from as int, i as int));
            assert(t.last() == cs[i as int]);
        }
        text.append(clusters[i].text.as_str());
        col = clusters[i].advance(col);
        i = i + 1;
    }
    SegmentedStringLine { text, offset: at, width: col }
}

/// Appends the wrapped lines of a text without line breaks.
fn wrap_line(out: &mut Vec<SegmentedStringLine>, line: &str, offset: usize, width: usize)
    requires
        offset + line@.len() <= usize::MAX,
    ensures
        line_views(final(out)@) == line_views(old(out)@) + wrapped_clusters(
            display::clusters(line@),
            offset as int,
            width,
        ),
        text_of(display::clusters(line@)) == line@,
{
    let clusters = clusters_of(line);
    let ghost cs = display::cluster_views(clusters@);
    proof {
        text_of_joins(clusters@);
    }
    let lines = wrap_clusters(&clusters, width);
    let ghost spans = line_ranges(cs, width);
    let ghost before = line_views(out@);
    let mut i: usize = 0;
    assert(before + spans.take(0).map_values(|span: (int, int)| line_of(cs, offset as int, span))
        =~= before);
    while i < lines.len()
        invariant
            cs == display::cluster_views(clusters@),
            offset + text_of(cs).len() <= usize::MAX,
            spans == lines@.map_values(|span: (usize, usize)| (span.0 as int, span.1 as int)),
            forall|j: int|
                0 <= j < lines@.len() ==> (#[trigger] lines@[j]).0 <= lines@[j].1 && lines@[j].1
                    <= clusters@.len(),
            i <= lines@.len(),
            line_views(out@) == before + spans.take(i as int).map_values(
                |span: (int, int)| line_of(cs, offset as int, span),
            ),
        decreases lines@.len() - i,
    {
        let (from, to) = lines[i];
        assert(lines@[i as int].0 <= lines@[i as int].1);
        let built = build_line(&clusters, offset, from, to);
        let ghost done = line_views(out@);
        out.push(built);
        proof {
            assert(line_views(out@) =~= done.push(built@));
            assert(spans[i as int] == (from as int, to as int));
            assert(spans.take(i + 1).map_values(|span: (int, int)| line_of(cs, offset as int, span))
                =~= spans.take(i as int).map_values(
                |span: (int, int)| line_of(cs, offset as int, span),
            ).push(built@));
        }
        i = i + 1;
    }
    assert(spans.take(i as int) =~= spans);
}

/// Wraps a text to a width.
pub fn wrap(text: &str, width: usize) -> (r: Vec<SegmentedStringLine>)
    ensures
        line_views(r@) == wrapped(text@, width),
        forall|i: int| 0 <= i < r@.len() ==> stands_in(#[trigger] line_views(r@)[i], text@),
{
    let s = chars_of(text);
    let mut out: Vec<SegmentedStringLine> = Vec::new();
    let mut at: usize = 0;
    assert(line_views(out@) + wrapped_from(s@, 0, width) =~= wrapped(text@, width));
    loop
        invariant
            s@ == text@,
            at <= s@.len(),
            line_views(out@) + wrapped_from(s@, at as int, width) == wrapped(text@, width),
            forall|i: int| 0 <= i < out@.len() ==> stands_in(#[trigger] line_views(out@)[i], s@),
        decreases s@.len() - at,
    {
        let end: usize = find_char(&s, '\n', at);
        let mut line = String::new();
        push_range(&mut line, &s, at, end);
        assert(line@ =~= s@.subrange(at as int, end as int));
        let ghost before = line_views(out@);
        assert(s@.len() == s.len());
        wrap_line(&mut out, line.as_str(), at, width);
        proof {
            let cs = display::clusters(line@);
            let n = before.len() as int;
            assert(line_views(out@).len() == out@.len());
            assert forall|i: int| 0 <= i < out@.len() implies stands_in(
                #[trigger] line_views(out@)[i],
                s@,
            ) by {
                if i < n {
                    assert(line_views(out@)[i] == before[i]);
                } else {
                    wrapped_clusters_stand_in(cs, at as int, width, s@, i - n);
                    assert(line_views(out@)[i] == wrapped_clusters(cs, at as int, width)[i - n]);
                }
            }
        }
        if end == s.len() {
            assert(line_views(out@) =~= before + wrapped_from(s@, at as int, width));
            return out;
        }
        assert(before + wrapped_from(s@, at as int, width) =~= line_views(out@) + wrapped_from(
            s@,
            end + 1,
            width,
        ));
        at = end + 1;
    }
}

impl SegmentedStringLine {
    /// The line without the white space at its end.
    pub fn trim_end(&self) -> (r: SegmentedStringLine)
        ensures
            r@ == (LineView {
                text: chars::trim_back(self.text@),
                offset: self.offset as int,
                width: display::columns(chars::trim_back(self.text@)),
            }),
    {
        let s = chars_of(self.text.as_str());
        let n: usize = trimmed_len(&s);
        let mut text = String::new();
        push_range(&mut text, &s, 0, n);
        assert(text@ =~= chars::trim_back(self.text@));
        let width: usize = string_display_width(text.as_str());
        SegmentedStringLine { text, offset: self.offset, width }
    }
}

/// More clusters never end at an earlier column.
proof fn end_column_grows(cs: Seq<ClusterView>, i: int)
    requires
        0 <= i <= cs.len(),
    ensures
        display::end_column(cs.take(i), 0) <= display::end_column(cs, 0),
    decreases cs.len() - i,
{
    if i < cs.len() {
        assert(cs.take(i + 1).drop_last() =~= cs.take(i));
        display::end_column_bounds(cs.take(i), 0);
        end_column_grows(cs, i + 1);
    } else {
        assert(cs.take(i) =~= cs);
    }
}

/// What a line reaches over fits, unless it is a single cluster.
proof fn reach_fits(cs: Seq<ClusterView>, from: int, to: int, col: int, width: usize)
    requires
        0 <= from <= to <= cs.len(),
        from < cs.len(),
        col == display::end_column(cs.subrange(from, to), 0),
        to > from + 1 ==> col <= width,
    ensures
        ({
            let end = reach(cs, from, to, col, width);
            display::end_column(cs.subrange(from, end), 0) <= width || end <= from + 1
        }),
    decreases cs.len() - to,
{
    if to < cs.len() {
        let next = display::column_after(cs[to], col);
        if !(to > from && next > width) {
            let t = cs.subrange(from, to + 1);
            assert(t.drop_last() =~= cs.subrange(from, to));
            assert(t.last() == cs[to]);
            reach_fits(cs, from, to + 1, next, width);
        }
    } else {
        assert(cs.subrange(from, to) =~= cs.subrange(from, cs.len() as int));
    }
}

/// A line fits in its width, unless it is a single cluster that is wider.
pub proof fn wrapped_line_fits(cs: Seq<ClusterView>, from: int, width: usize)
    requires
        0 <= from < cs.len(),
    ensures
        ({
            let end = line_end(cs, from, width);
            display::end_column(cs.subrange(from, end), 0) <= width || end == from + 1
        }),
{
    let to = reach(cs, from, from, 0, width);
    let end = line_end(cs, from, width);
    assert(cs.subrange(from, from) =~= Seq::empty());
    reach_bounds(cs, from, from, 0, width);
    reach_fits(cs, from, from, 0, width);
    word_start_bounds(cs, from, to);
    let t = cs.subrange(from, to);
    assert(t.take(end - from) =~= cs.subrange(from, end));
    end_column_grows(t, end - from);
}

/// All wrapped lines fit in their width, unless they are single clusters that
/// are wider. They are in order, and a cluster that is on none of them is
/// blank.
pub proof fn wrapped_lines_fit(cs: Seq<ClusterView>, from: int, width: usize)
    requires
        0 <= from <= cs.len(),
    ensures
        ({
            let spans = ranges(cs, from, width);
            &&& forall|i: int|
                0 <= i < spans.len() ==> {
                    &&& from <= (#[trigger] spans[i]).0 < spans[i].1 <= cs.len()
                    &&& display::end_column(cs.subrange(spans[i].0, spans[i].1), 0) <= width
                        || spans[i].1 == spans[i].0 + 1
                }
            &&& forall|i: int, j: int|
                0 <= i < j < spans.len() ==> (#[trigger] spans[i]).1 <= (#[trigger] spans[j]).0
            &&& forall|k: int|
                from <= k < cs.len() ==> #[trigger] blank(cs[k]) || exists|i: int|
                    0 <= i < spans.len() && (#[trigger] spans[i]).0 <= k < spans[i].1
        }),
    decreases cs.len() - from,
{
    if from < cs.len() {
        let end = line_end(cs, from, width);
        let next = next_line(cs, from, width);
        lines_advance(cs, from, width);
        wrapped_line_fits(cs, from, width);
        wrapped_lines_fit(cs, next, width);
        let spans = ranges(cs, from, width);
        let rest = ranges(cs, next, width);
        assert(spans == seq![(from, end)] + rest);
        assert forall|i: int| 0 <= i < spans.len() implies {
            &&& from <= (#[trigger] spans[i]).0 < spans[i].1 <= cs.len()
            &&& display::end_column(cs.subrange(spans[i].0, spans[i].1), 0) <= width || spans[i].1
                == spans[i].0 + 1
        } by {
            if i > 0 {
                assert(spans[i] == rest[i - 1]);
            }
        }
        assert forall|i: int, j: int| 0 <= i < j < spans.len() implies (#[trigger] spans[i]).1 <= (
        #[trigger] spans[j]).0 by {
            assert(spans[j] == rest[j - 1]);
            if i > 0 {
                assert(spans[i] == rest[i - 1]);
            }
        }
        assert forall|k: int| from <= k < cs.len() implies #[trigger] blank(cs[k]) || exists|i: int|
            0 <= i < spans.len() && (#[trigger] spans[i]).0 <= k < spans[i].1 by {
            if k < end {
                assert(spans[0] == (from, end));
            } else if k >= next && !blank(cs[k]) {
                let i = choose|i: int|
                    0 <= i < rest.len() && (#[trigger] rest[i]).0 <= k < rest[i].1;
                assert(spans[i + 1] == rest[i]);
            }
        }
    }
}

/// A word that goes on at `to` holds no blank cluster before it.
proof fn no_blank_in_word(cs: Seq<ClusterView>, from: int, to: int)
    requires
        from <= to,
    ensures
        forall|i: int| word_start(cs, from, to) <= i < to ==> !blank(#[trigger] cs[i]),
        word_start(cs, from, to) > from ==> blank(cs[word_start(cs, from, to) - 1]),
    decreases to - from,
{
    if from < to && !blank(cs[to - 1]) {
        no_blank_in_word(cs, from, to - 1);
    }
}

/// The cluster that a line does not reach over does not fit.
proof fn reach_stops_where_it_is_full(
    cs: Seq<ClusterView>,
    from: int,
    to: int,
    col: int,
    width: usize,
)
    requires
        0 <= from <= to <= cs.len(),
        from < cs.len(),
        col == display::end_column(cs.subrange(from, to), 0),
    ensures
        ({
            let end = reach(cs, from, to, col, width);
            end < cs.len() ==> display::end_column(cs.subrange(from, end + 1), 0) > width
        }),
    decreases cs.len() - to,
{
    if to < cs.len() {
        let t = cs.subrange(from, to + 1);
        assert(t.drop_last() =~= cs.subrange(from, to));
        assert(t.last() == cs[to]);
        let next = display::column_after(cs[to], col);
        if !(to > from && next > width) {
            reach_stops_where_it_is_full(cs, from, to + 1, next, width);
        }
    }
}

/// A longer piece of a line takes no fewer columns.
proof fn longer_pieces_take_more(cs: Seq<ClusterView>, from: int, mid: int, end: int)
    requires
        0 <= from <= mid <= end <= cs.len(),
    ensures
        display::end_column(cs.subrange(from, mid), 0) <= display::end_column(
            cs.subrange(from, end),
            0,
        ),
{
    let t = cs.subrange(from, end);
    assert(t.take(mid - from) =~= cs.subrange(from, mid));
    end_column_grows(t, mid - from);
}

/// What a break between two lines is like, where the first line takes the
/// clusters from `from` to `end` and the second one begins at `next`: a word
/// is cut in two only where it fills the whole line, what is left out between
/// the lines is white space that did not fit, and the line could not have held
/// the word that follows.
pub open spec fn good_break(
    cs: Seq<ClusterView>,
    from: int,
    end: int,
    next: int,
    width: usize,
) -> bool {
    &&& next < cs.len() ==> end < next || blank(cs[end - 1]) || forall|i: int|
        from <= i < end ==> !blank(#[trigger] cs[i])
    &&& end < next ==> display::end_column(cs.subrange(from, end + 1), 0) > width
    &&& next < cs.len() ==> exists|e: int|
        next < e <= cs.len() && #[trigger] display::end_column(cs.subrange(from, e), 0) > width && (
        forall|i: int| next <= i < e ==> !blank(#[trigger] cs[i]))
}

/// A text is broken between words where it can be, and no earlier than it must
/// be.
pub proof fn lines_break_well(cs: Seq<ClusterView>, from: int, width: usize)
    requires
        0 <= from < cs.len(),
    ensures
        good_break(cs, from, line_end(cs, from, width), next_line(cs, from, width), width),
{
    let to = reach(cs, from, from, 0, width);
    let end = line_end(cs, from, width);
    let next = next_line(cs, from, width);
    assert(cs.subrange(from, from) =~= Seq::empty());
    reach_bounds(cs, from, from, 0, width);
    reach_stops_where_it_is_full(cs, from, from, 0, width);
    word_start_bounds(cs, from, to);
    no_blank_in_word(cs, from, to);
    after_blanks_bounds(cs, to);
    if to < cs.len() {
        if blank(cs[to]) {
            after_blanks_stops(cs, to);
            if next < cs.len() {
                longer_pieces_take_more(cs, from, to + 1, next + 1);
                assert(display::end_column(cs.subrange(from, next + 1), 0) > width);
            }
        } else {
            assert(display::end_column(cs.subrange(from, to + 1), 0) > width);
        }
    }
}

/// Blanks are skipped up to a cluster that is none.
proof fn after_blanks_stops(cs: Seq<ClusterView>, at: int)
    requires
        0 <= at <= cs.len(),
    ensures
        after_blanks(cs, at) < cs.len() ==> !blank(cs[after_blanks(cs, at)]),
    decreases cs.len() - at,
{
    if at < cs.len() && blank(cs[at]) {
        after_blanks_stops(cs, at + 1);
    }
}

/// All breaks of a text are good ones: for every two lines one behind the
/// other, the first is broken off as [`good_break`] says.
pub proof fn wrapped_lines_break_well(cs: Seq<ClusterView>, from: int, width: usize)
    requires
        0 <= from <= cs.len(),
    ensures
        ({
            let spans = ranges(cs, from, width);
            &&& forall|i: int|
                0 <= i < spans.len() - 1 ==> good_break(
                    cs,
                    (#[trigger] spans[i]).0,
                    spans[i].1,
                    spans[i + 1].0,
                    width,
                )
            &&& spans.len() > 0 ==> spans[0].0 == from
        }),
    decreases cs.len() - from,
{
    if from < cs.len() {
        let end = line_end(cs, from, width);
        let next = next_line(cs, from, width);
        lines_advance(cs, from, width);
        lines_break_well(cs, from, width);
        wrapped_lines_break_well(cs, next, width);
        let spans = ranges(cs, from, width);
        let rest = ranges(cs, next, width);
        assert(spans == seq![(from, end)] + rest);
        assert forall|i: int| 0 <= i < spans.len() - 1 implies good_break(
            cs,
            (#[trigger] spans[i]).0,
            spans[i].1,
            spans[i + 1].0,
            width,
        ) by {
            if i > 0 {
                assert(spans[i] == rest[i - 1]);
                assert(spans[i + 1] == rest[i]);
            } else {
                assert(spans[1] == rest[0]);
            }
        }
    }
}

/// A word is never cut where it need not be: where the clusters before and
/// behind a break are both no white space, there is none on the line above the
/// break at all.
pub proof fn words_are_not_cut_needlessly(cs: Seq<ClusterView>, width: usize, i: int, k: int)
    requires
        0 <= i < line_ranges(cs, width).len() - 1,
        !blank(cs[line_ranges(cs, width)[i].1 - 1]),
        !blank(cs[line_ranges(cs, width)[i + 1].0]),
        line_ranges(cs, width)[i].1 == line_ranges(cs, width)[i + 1].0,
        line_ranges(cs, width)[i].0 <= k < line_ranges(cs, width)[i].1,
    ensures
        !blank(cs[k]),
{
    wrapped_lines_break_well(cs, 0, width);
    wrapped_lines_fit(cs, 0, width);
    let spans = ranges(cs, 0, width);
    assert(good_break(cs, spans[i].0, spans[i].1, spans[i + 1].0, width));
    assert(spans[i + 1].0 < cs.len());
}

/// What fits in a width is left on one line.
pub proof fn what_fits_is_not_wrapped(cs: Seq<ClusterView>, width: usize)
    requires
        display::end_column(cs, 0) <= width,
    ensures
        line_ranges(cs, width) == seq![(0int, cs.len() as int)],
{
    if cs.len() > 0 {
        let to = reach(cs, 0, 0, 0, width);
        assert(cs.subrange(0, 0) =~= Seq::empty());
        reach_bounds(cs, 0, 0, 0, width);
        reach_stops_where_it_is_full(cs, 0, 0, 0, width);
        if to < cs.len() {
            longer_pieces_take_more(cs, 0, to + 1, cs.len() as int);
            assert(cs.subrange(0, cs.len() as int) =~= cs);
        }
        assert(line_end(cs, 0, width) == cs.len());
        assert(next_line(cs, 0, width) == cs.len());
        assert(ranges(cs, cs.len() as int, width) =~= Seq::empty());
        assert(line_ranges(cs, width) =~= seq![(0int, cs.len() as int)]);
    }
}

/// The lines of a text that is moved further back in a text.
pub open spec fn moved_back(lines: Seq<LineView>, by: int) -> Seq<LineView> {
    lines.map_values(|line: LineView| LineView { offset: line.offset + by, ..line })
}

/// What stands before a text has no part in how the text is wrapped.
proof fn wrapping_does_not_look_back(p: Seq<char>, s: Seq<char>, at: int, width: usize)
    requires
        0 <= at <= s.len(),
    ensures
        wrapped_from(p + s, p.len() + at, width) == moved_back(
            wrapped_from(s, at, width),
            p.len() as int,
        ),
    decreases s.len() - at,
{
    let all = p + s;
    let n = p.len() as int;
    let end = chars::find_from(s, '\n', at);
    finding_does_not_look_back(p, s, at);
    chars::find_from_bounds(s, '\n', at);
    assert(all.subrange(n + at, n + end) =~= s.subrange(at, end));
    let cs = display::clusters(s.subrange(at, end));
    let lines = wrapped_clusters(cs, at, width);
    let moved = wrapped_clusters(cs, n + at, width);
    assert(moved =~= moved_back(lines, n)) by {
        assert forall|i: int| 0 <= i < moved.len() implies moved[i] == moved_back(lines, n)[i] by {
            let range = line_ranges(cs, width)[i];
            assert(moved[i] == line_of(cs, n + at, range));
            assert(lines[i] == line_of(cs, at, range));
        }
    }
    if end < s.len() {
        wrapping_does_not_look_back(p, s, end + 1, width);
        assert(moved_back(lines + wrapped_from(s, end + 1, width), n) =~= moved + moved_back(
            wrapped_from(s, end + 1, width),
            n,
        ));
    }
}

/// What stands before a text has no part in where its line breaks are.
proof fn finding_does_not_look_back(p: Seq<char>, s: Seq<char>, at: int)
    requires
        0 <= at <= s.len(),
    ensures
        chars::find_from(p + s, '\n', p.len() + at) == p.len() + chars::find_from(s, '\n', at),
    decreases s.len() - at,
{
    if at < s.len() {
        assert((p + s)[p.len() + at] == s[at]);
        if s[at] != '\n' {
            finding_does_not_look_back(p, s, at + 1);
        }
    }
}

/// What follows a line break has no part in where the line break is.
proof fn finding_stops_at_the_break(a: Seq<char>, b: Seq<char>, at: int)
    requires
        0 <= at <= a.len(),
        forall|i: int| at <= i < a.len() ==> a[i] != '\n',
    ensures
        chars::find_from(a + seq!['\n'] + b, '\n', at) == a.len(),
        chars::find_from(a, '\n', at) == a.len(),
    decreases a.len() - at,
{
    let all = a + seq!['\n'] + b;
    if at < a.len() {
        assert(all[at] == a[at]);
        finding_stops_at_the_break(a, b, at + 1);
    } else {
        assert(all[at] == '\n');
    }
}

/// Line breaks of the text are kept: the lines before a line break are those
/// of a text of its own, and those behind it follow.
pub proof fn line_breaks_are_kept(a: Seq<char>, b: Seq<char>, width: usize)
    requires
        forall|i: int| 0 <= i < a.len() ==> a[i] != '\n',
    ensures
        wrapped(a + seq!['\n'] + b, width) == wrapped(a, width) + moved_back(
            wrapped(b, width),
            a.len() as int + 1,
        ),
{
    let p = a + seq!['\n'];
    finding_stops_at_the_break(a, b, 0);
    assert((p + b).subrange(0, a.len() as int) =~= a);
    assert(a.subrange(0, a.len() as int) =~= a);
    wrapping_does_not_look_back(p, b, 0, width);
}

/// A cluster is blank where each of its characters is white space of any kind,
/// and nowhere else.
pub proof fn blank_clusters_hold_white_space_only(cluster: ClusterView)
    ensures
        blank(cluster) <==> (forall|i: int|
            0 <= i < cluster.text.len() ==> chars::whitespace(#[trigger] cluster.text[i])),
{
    let class = |c: char| chars::whitespace(c);
    if chars::all_in(cluster.text, class) {
        assert forall|i: int| 0 <= i < cluster.text.len() implies chars::whitespace(
            #[trigger] cluster.text[i],
        ) by {
            assert(class(cluster.text[i]));
        }
    }
}

/// A line takes the columns that its clusters take from the left margin on, and
/// stands behind all the characters of the clusters before it.
pub proof fn lines_are_measured_from_the_margin(
    a: Seq<ClusterView>,
    line: Seq<ClusterView>,
    b: Seq<ClusterView>,
    offset: int,
)
    ensures
        ({
            let cs = a + line + b;
            let drawn = line_of(cs, offset, (a.len() as int, (a.len() + line.len()) as int));
            &&& drawn.width == display::end_column(line, 0)
            &&& drawn.text == text_of(line)
            &&& drawn.offset == offset + text_of(a).len()
        }),
{
    let cs = a + line + b;
    assert(cs.subrange(a.len() as int, (a.len() + line.len()) as int) =~= line);
    assert(cs.take(a.len() as int) =~= a);
}

} // verus!
