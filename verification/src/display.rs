//! How many terminal columns a text takes.
//!
//! A text is laid out cluster by cluster. A cluster is what a reader sees as
//! one character; it is as wide as its characters make it, except that a tab
//! reaches to the next tab stop and that control characters take no room.
use crate::chars;
use crate::chars::{chars_of, is_control, split_on};
use vstd::prelude::*;

verus! {

/// The distance between two tab stops.
pub const TAB_STOP: usize = 8;

/// The clusters of a text.
pub uninterp spec fn graphemes(text: Seq<char>) -> Seq<Seq<char>>;

/// The natural width of a text.
pub uninterp spec fn natural_width(text: Seq<char>) -> usize;

/// The natural width of a character.
pub uninterp spec fn char_width(c: char) -> Option<usize>;

/// The pieces of a text put together again.
pub open spec fn joined(parts: Seq<Seq<char>>) -> Seq<char>
    decreases parts.len(),
{
    if parts.len() == 0 {
        Seq::empty()
    } else {
        joined(parts.drop_last()) + parts.last()
    }
}

/// The extended grapheme clusters of a text, from
/// `unicode_segmentation::UnicodeSegmentation::graphemes`. The contract claims
/// that they depend on the text alone, that none of them is empty, that
/// together they are the text, and that a printable ASCII text is cut between
/// any two characters.
#[verifier::external_body]
fn text_graphemes(text: &str) -> (r: Vec<String>)
    ensures
        chars::views(r@) == graphemes(text@),
        joined(chars::views(r@)) == text@,
        forall|i: int| 0 <= i < r@.len() ==> (#[trigger] r@[i])@.len() > 0,
        chars::all_in(text@, |c: char| chars::printable_ascii(c)) ==> r@.len() == text@.len()
            && forall|i: int| 0 <= i < r@.len() ==> (#[trigger] r@[i])@ == seq![text@[i]],
{
    let clusters = unicode_segmentation::UnicodeSegmentation::graphemes(text, true);
    clusters.map(|cluster| cluster.to_string()).collect()
}

/// The natural width of a text, from `unicode_width::UnicodeWidthStr::width`.
/// The contract claims that it depends on the text alone and that printable
/// ASCII characters take one column each.
#[verifier::external_body]
fn text_width(text: &str) -> (r: usize)
    ensures
        r == natural_width(text@),
        chars::all_in(text@, |c: char| chars::printable_ascii(c)) ==> r == text@.len(),
{
    unicode_width::UnicodeWidthStr::width(text)
}

/// The natural width of a character, from
/// `unicode_width::UnicodeWidthChar::width`. The contract claims that it
/// depends on the character alone, that just the control characters have none,
/// and that a printable ASCII character takes one column.
#[verifier::external_body]
pub(crate) fn width_of_char(c: char) -> (r: Option<usize>)
    ensures
        r == char_width(c),
        r is None <==> chars::control(c),
        chars::printable_ascii(c) ==> r == Some(1usize),
{
    unicode_width::UnicodeWidthChar::width(c)
}

/// A cluster and its natural width.
#[derive(Debug, PartialEq, Eq)]
pub struct Cluster {
    pub text: String,
    pub width: usize,
}

/// What a cluster stands for.
#[verifier::ext_equal]
pub struct ClusterView {
    pub text: Seq<char>,
    pub width: usize,
}

impl View for Cluster {
    type V = ClusterView;

    open spec fn view(&self) -> ClusterView {
        ClusterView { text: self.text@, width: self.width }
    }
}

/// The views of a list of clusters.
pub open spec fn cluster_views(clusters: Seq<Cluster>) -> Seq<ClusterView> {
    clusters.map_values(|cluster: Cluster| cluster@)
}

/// The clusters of a text with their natural widths.
pub open spec fn clusters(text: Seq<char>) -> Seq<ClusterView> {
    graphemes(text).map_values(
        |cluster: Seq<char>| ClusterView { text: cluster, width: natural_width(cluster) },
    )
}

/// `n`, or the largest number of columns where it is above.
pub open spec fn clamp_columns(n: int) -> int {
    if n > usize::MAX {
        usize::MAX as int
    } else {
        n
    }
}

/// How many columns a cluster takes that begins at column `col`.
pub open spec fn cluster_columns(cluster: ClusterView, col: int) -> int {
    if cluster.text == seq!['\t'] {
        TAB_STOP - col % (TAB_STOP as int)
    } else if chars::all_in(cluster.text, |c: char| chars::control(c)) {
        0
    } else {
        cluster.width as int
    }
}

/// The column after a cluster that begins at column `col`.
pub open spec fn column_after(cluster: ClusterView, col: int) -> int {
    clamp_columns(col + cluster_columns(cluster, col))
}

/// The column after a list of clusters that begins at column `col`.
pub open spec fn end_column(clusters: Seq<ClusterView>, col: int) -> int
    decreases clusters.len(),
{
    if clusters.len() == 0 {
        col
    } else {
        column_after(clusters.last(), end_column(clusters.drop_last(), col))
    }
}

/// How many columns a text takes that begins at column `col`.
pub open spec fn columns_from(text: Seq<char>, col: int) -> int {
    end_column(clusters(text), col) - col
}

/// How many columns a text takes that begins at the left margin.
pub open spec fn columns(text: Seq<char>) -> int {
    columns_from(text, 0)
}

/// Columns only grow, and stay in range.
pub proof fn end_column_bounds(clusters: Seq<ClusterView>, col: int)
    requires
        0 <= col <= usize::MAX,
    ensures
        col <= end_column(clusters, col) <= usize::MAX,
    decreases clusters.len(),
{
    if clusters.len() > 0 {
        end_column_bounds(clusters.drop_last(), col);
    }
}

/// Cuts a text into clusters.
pub fn clusters_of(text: &str) -> (r: Vec<Cluster>)
    ensures
        cluster_views(r@) == clusters(text@),
        joined(r@.map_values(|cluster: Cluster| cluster.text@)) == text@,
        forall|i: int| 0 <= i < r@.len() ==> (#[trigger] r@[i]).text@.len() > 0,
        chars::all_in(text@, |c: char| chars::printable_ascii(c)) ==> r@.len() == text@.len()
            && forall|i: int|
            0 <= i < r@.len() ==> (#[trigger] r@[i])@ == (ClusterView {
                text: seq![text@[i]],
                width: 1,
            }),
{
    let parts = text_graphemes(text);
    let mut out: Vec<Cluster> = Vec::new();
    let mut i: usize = 0;
    while i < parts.len()
        invariant
            i <= parts@.len(),
            out@.len() == i,
            chars::views(parts@) == graphemes(text@),
            forall|j: int| 0 <= j < parts@.len() ==> (#[trigger] parts@[j])@.len() > 0,
            chars::all_in(text@, |c: char| chars::printable_ascii(c)) ==> parts@.len()
                == text@.len() && forall|j: int|
                0 <= j < parts@.len() ==> (#[trigger] parts@[j])@ == seq![text@[j]],
            forall|j: int|
                0 <= j < i ==> {
                    &&& (#[trigger] out@[j]).text@ == parts@[j]@
                    &&& out@[j].width == natural_width(parts@[j]@)
                    &&& chars::all_in(text@, |c: char| chars::printable_ascii(c)) ==> out@[j].width
                        == 1
                },
        decreases parts@.len() - i,
    {
        let part = parts[i].clone();
        let width: usize = text_width(part.as_str());
        proof {
            if chars::all_in(text@, |c: char| chars::printable_ascii(c)) {
                assert(part@ == seq![text@[i as int]]);
                assert(chars::printable_ascii(text@[i as int]));
                assert(chars::all_in(part@, |c: char| chars::printable_ascii(c)));
            }
        }
        out.push(Cluster { text: part, width });
        i = i + 1;
    }
    proof {
        assert forall|j: int| 0 <= j < parts@.len() implies graphemes(text@)[j] == (
        #[trigger] parts@[j])@ by {
            assert(chars::views(parts@)[j] == parts@[j]@);
        }
        assert(cluster_views(out@) =~= clusters(text@));
        assert(out@.map_values(|cluster: Cluster| cluster.text@) =~= chars::views(parts@));
    }
    out
}

/// Whether a text holds control characters only.
fn is_all_control(text: &Vec<char>) -> (r: bool)
    ensures
        r == chars::all_in(text@, |c: char| chars::control(c)),
{
    let mut i: usize = 0;
    while i < text.len()
        invariant
            i <= text@.len(),
            forall|j: int| 0 <= j < i ==> chars::control(#[trigger] text@[j]),
        decreases text@.len() - i,
    {
        if !is_control(text[i]) {
            assert(!chars::all_in(text@, |c: char| chars::control(c)));
            return false;
        }
        i = i + 1;
    }
    true
}

impl Cluster {
    /// The column after the cluster where it begins at column `col`.
    pub fn advance(&self, col: usize) -> (r: usize)
        ensures
            r == column_after(self@, col as int),
            col <= r,
    {
        let text = chars_of(self.text.as_str());
        let width: usize = if text.len() == 1 && text[0] == '\t' {
            assert(self.text@ =~= seq!['\t']);
            TAB_STOP - col % TAB_STOP
        } else if is_all_control(&text) {
            0
        } else {
            self.width
        };
        if width > usize::MAX - col {
            usize::MAX
        } else {
            col + width
        }
    }
}

/// The column after a list of clusters that begins at column `col`.
pub fn column_after_clusters(clusters: &Vec<Cluster>, col: usize) -> (r: usize)
    ensures
        r == end_column(cluster_views(clusters@), col as int),
        col <= r,
{
    let mut at: usize = col;
    let mut i: usize = 0;
    assert(cluster_views(clusters@).take(0) =~= Seq::empty());
    while i < clusters.len()
        invariant
            i <= clusters@.len(),
            at == end_column(cluster_views(clusters@).take(i as int), col as int),
            col <= at,
        decreases clusters@.len() - i,
    {
        proof {
            let t = cluster_views(clusters@).take(i + 1);
            assert(t.drop_last() =~= cluster_views(clusters@).take(i as int));
            assert(t.last() == clusters@[i as int]@);
        }
        at = clusters[i].advance(at);
        i = i + 1;
    }
    assert(cluster_views(clusters@).take(i as int) =~= cluster_views(clusters@));
    at
}

/// How many columns a text takes that begins at column `col`.
pub fn string_display_width_from_col(text: &str, col: usize) -> (r: usize)
    ensures
        r == columns_from(text@, col as int),
        chars::all_in(text@, |c: char| chars::printable_ascii(c)) && (col == 0 || col + text@.len()
            <= usize::MAX) ==> r == text@.len(),
{
    let parts = clusters_of(text);
    let end: usize = column_after_clusters(&parts, col);
    proof {
        if chars::all_in(text@, |c: char| chars::printable_ascii(c)) && (col == 0 || col
            + text@.len() <= usize::MAX) {
            assert(parts@.len() == parts.len());
            ascii_end_column(cluster_views(parts@), text@, col as int);
        }
    }
    end - col
}

/// How many columns a text takes that begins at the left margin.
pub fn string_display_width(text: &str) -> (r: usize)
    ensures
        r == columns(text@),
        chars::all_in(text@, |c: char| chars::printable_ascii(c)) ==> r == text@.len(),
{
    string_display_width_from_col(text, 0)
}

/// One cluster of one column for each character takes a column each.
pub proof fn ascii_end_column(cs: Seq<ClusterView>, text: Seq<char>, col: int)
    requires
        cs.len() == text.len(),
        0 <= col,
        col + cs.len() <= usize::MAX,
        chars::all_in(text, |c: char| chars::printable_ascii(c)),
        forall|i: int|
            0 <= i < cs.len() ==> (#[trigger] cs[i]) == (ClusterView {
                text: seq![text[i]],
                width: 1,
            }),
    ensures
        end_column(cs, col) == col + cs.len(),
    decreases cs.len(),
{
    if cs.len() > 0 {
        let n = cs.len() - 1;
        let last = cs.last();
        assert(last == cs[n]);
        assert(chars::printable_ascii(text[n]));
        assert(last.text[0] == text[n]);
        assert(last.text != seq!['\t']) by {
            assert(seq!['\t'][0] == '\t');
        }
        assert(!chars::control(last.text[0]));
        ascii_end_column(cs.drop_last(), text.drop_last(), col);
    }
}

/// The size of a text on a terminal.
#[derive(Clone, Copy, Debug, PartialEq, Eq, Structural)]
pub struct TextSize {
    pub width: usize,
    pub height: usize,
}

/// The columns of the widest of a list of lines.
pub open spec fn widest(lines: Seq<Seq<char>>) -> int
    decreases lines.len(),
{
    if lines.len() == 0 {
        0
    } else {
        let before = widest(lines.drop_last());
        if columns(lines.last()) > before {
            columns(lines.last())
        } else {
            before
        }
    }
}

/// Measures a text: the columns of its widest line, and how many lines it has.
/// An empty text has no size.
pub fn measure_text(text: &str) -> (r: TextSize)
    ensures
        text@.len() == 0 ==> r == (TextSize { width: 0, height: 0 }),
        text@.len() > 0 ==> r.width == widest(chars::split(text@, '\n')) && r.height
            == chars::split(text@, '\n').len(),
{
    if text.is_empty() {
        return TextSize { width: 0, height: 0 };
    }
    let lines = split_on(&chars_of(text), '\n');
    let mut width: usize = 0;
    let mut i: usize = 0;
    while i < lines.len()
        invariant
            i <= lines@.len(),
            width == widest(chars::views(lines@).take(i as int)),
        decreases lines@.len() - i,
    {
        proof {
            let t = chars::views(lines@).take(i + 1);
            assert(t.drop_last() =~= chars::views(lines@).take(i as int));
            assert(t.last() == lines@[i as int]@);
        }
        let line_width: usize = string_display_width(lines[i].as_str());
        if line_width > width {
            width = line_width;
        }
        i = i + 1;
    }
    assert(chars::views(lines@).take(i as int) =~= chars::views(lines@));
    TextSize { width, height: lines.len() }
}

/// A tab goes to the next of the columns that are multiples of eight, and
/// always moves.
pub proof fn tabs_go_to_the_next_stop(cluster: ClusterView, col: int)
    requires
        cluster.text == seq!['\t'],
        0 <= col,
        col + 8 <= usize::MAX,
    ensures
        column_after(cluster, col) % 8 == 0,
        col < column_after(cluster, col) <= col + 8,
{
}

/// What is not a tab takes the columns that its cluster is wide, wherever it
/// stands. Control characters take none.
pub proof fn clusters_take_their_width(cluster: ClusterView, col: int)
    requires
        cluster.text != seq!['\t'],
        0 <= col,
        col + cluster.width <= usize::MAX,
    ensures
        (exists|i: int| 0 <= i < cluster.text.len() && !chars::control(#[trigger] cluster.text[i]))
            ==> column_after(cluster, col) == col + cluster.width,
        (forall|i: int| 0 <= i < cluster.text.len() ==> chars::control(#[trigger] cluster.text[i]))
            ==> column_after(cluster, col) == col,
{
    let class = |c: char| chars::control(c);
    if chars::all_in(cluster.text, class) {
        assert forall|i: int| 0 <= i < cluster.text.len() implies chars::control(
            #[trigger] cluster.text[i],
        ) by {
            assert(class(cluster.text[i]));
        }
    }
}

/// Clusters are counted from left to right: those of two lists one after the
/// other end where the second list ends that begins where the first one ends.
pub proof fn columns_go_on(a: Seq<ClusterView>, b: Seq<ClusterView>, col: int)
    ensures
        end_column(a + b, col) == end_column(b, end_column(a, col)),
    decreases b.len(),
{
    if b.len() == 0 {
        assert(a + b =~= a);
    } else {
        columns_go_on(a, b.drop_last(), col);
        assert((a + b).drop_last() =~= a + b.drop_last());
        assert((a + b).last() == b.last());
    }
}

} // verus!
