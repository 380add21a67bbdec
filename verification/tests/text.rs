//! The text component and its parts.
use iocraft::ansi::{erase_to_eol, sgr_attr, sgr_reset, Attribute};
use iocraft::display::{
    clusters_of, measure_text, string_display_width, string_display_width_from_col, Cluster,
    TextSize,
};
use iocraft::env::Env;
use iocraft::link::{link_segment, Link, LinkProps};
use iocraft::segmented_string::{wrap, wrap_clusters};
use iocraft::strip_ansi::{skip_ansi_escape, strip_ansi};
use iocraft::style::{CanvasTextStyle, Color, TextStyles, Weight};
use iocraft::text::{
    wrap_text, AvailableSpace, DrawOp, StyledSegment, Text, TextAlign,
    TextDecoration, TextDrawer, TextProps, TextWrap, TruncatePosition,
};

fn as_it_is(line: &str) -> String {
    line.to_string()
}

#[derive(Clone, Default)]
struct Cell {
    text: Option<String>,
    style: Option<CanvasTextStyle>,
    background_color: Option<Color>,
    hyperlink: Option<String>,
    covered: bool,
}

/// A grid of cells that strokes are put on.
struct Canvas {
    cells: Vec<Vec<Cell>>,
    soft_wrap: Vec<usize>,
}

impl Canvas {
    fn new(width: usize, height: usize) -> Canvas {
        Canvas {
            cells: vec![vec![Cell::default(); width]; height],
            soft_wrap: vec![0; height],
        }
    }

    fn cell_mut(&mut self, x: isize, y: isize) -> Option<&mut Cell> {
        let (x, y) = (usize::try_from(x).ok()?, usize::try_from(y).ok()?);
        self.cells.get_mut(y)?.get_mut(x)
    }

    fn apply(&mut self, left: isize, top: isize, ops: Vec<DrawOp>) {
        for op in ops {
            match op {
                DrawOp::MarkSoftWrap { y, content_end } => {
                    self.soft_wrap[(top + y) as usize] = content_end;
                }
                DrawOp::SetBackground { x, y, width, color } => {
                    for i in 0..width {
                        if let Some(cell) = self.cell_mut(left + x + i as isize, top + y) {
                            cell.background_color = Some(color);
                        }
                    }
                }
                DrawOp::SetText { x, y, text, style, hyperlink } => {
                    let mut at = left + x;
                    for cluster in clusters_of(&text) {
                        let from = usize::try_from(at).unwrap_or(0);
                        let width = (cluster.advance(from) - from) as isize;
                        if let Some(cell) = self.cell_mut(at, top + y) {
                            cell.text = Some(cluster.text);
                            cell.style = Some(style);
                            cell.hyperlink = hyperlink.clone();
                        }
                        for i in 1..width {
                            if let Some(cell) = self.cell_mut(at + i, top + y) {
                                cell.covered = true;
                            }
                        }
                        at += width;
                    }
                }
            }
        }
    }

    fn row(&self, y: usize) -> String {
        let mut out = String::new();
        for cell in &self.cells[y] {
            if !cell.covered {
                out.push_str(cell.text.as_deref().unwrap_or(" "));
            }
        }
        out
    }

    fn lines(&self) -> String {
        (0..self.cells.len())
            .map(|y| format!("{}\n", self.row(y).trim_end()))
            .collect()
    }

    fn selected_text(&self) -> String {
        let mut out = String::new();
        for y in 0..self.cells.len() {
            let row = self.row(y);
            let next = self.soft_wrap.get(y + 1).copied().unwrap_or(0);
            if next > 0 {
                out.extend(row.chars().take(next));
            } else {
                out.push_str(row.trim_end());
            }
        }
        out
    }

    fn hyperlink_at(&self, x: usize, y: usize) -> Option<String> {
        self.cells[y][x].hyperlink.clone()
    }

    fn style(&self, x: usize, y: usize) -> CanvasTextStyle {
        self.cells[y][x].style.unwrap()
    }
}

fn content(text: &str) -> TextProps {
    let mut props = TextProps::default();
    props.content = text.to_string();
    props
}

fn wrapping(text: &str, mode: TextWrap) -> TextProps {
    let mut props = content(text);
    props.wrap = mode;
    props
}

fn aligned(text: &str, align: TextAlign, mode: TextWrap) -> TextProps {
    let mut props = wrapping(text, mode);
    props.align = align;
    props
}

fn updated(props: &TextProps) -> Text {
    let mut text = Text::new();
    text.update(props);
    text
}

/// Draws a text in a place of a given width, or of the width that it takes.
fn render(props: &TextProps, width: Option<usize>) -> Canvas {
    let text = updated(props);
    let room = match width {
        Some(width) => AvailableSpace::Definite(width),
        None => AvailableSpace::MaxContent,
    };
    let size = Text::measure(&text.shown_text(), text.wrap, None, room);
    let width = width.unwrap_or(size.width);
    let mut canvas = Canvas::new(width, size.height);
    let ops = text.draw(size.height == 0, width, width, &as_it_is);
    canvas.apply(0, 0, ops);
    canvas
}

fn lines(props: &TextProps, width: Option<usize>) -> String {
    render(props, width).lines()
}

#[test]
fn test_wrap_text_helper_matches_text_modes() {
    assert_eq!(wrap_text("abcdef", 5, TextWrap::TruncateEnd), "abcd…");
    assert_eq!(wrap_text("abcdef", 5, TextWrap::TruncateStart), "…cdef");
    assert_eq!(wrap_text("abcdef", 5, TextWrap::TruncateMiddle), "ab…ef");
    assert_eq!(wrap_text("  abc def", 4, TextWrap::WrapTrim), "abc\ndef");
    assert_eq!(wrap_text("abcdef", 3, TextWrap::NoWrap), "abcdef");
    assert_eq!(wrap_text("abcdef", 3, TextWrap::End), "abcdef");
    assert_eq!(wrap_text("abcdef", 3, TextWrap::Middle), "abcdef");
}

#[test]
fn structured_segments_wrap_and_keep_link_boundaries_like_official() {
    let mut props = TextProps::default();
    props.segments = Some(vec![
        StyledSegment::new("("),
        StyledSegment {
            text: "notes.ipynb".to_string(),
            hyperlink: Some("file:///notes.ipynb".to_string()),
            ..StyledSegment::default()
        },
        StyledSegment::new("@cell)"),
    ]);
    let canvas = render(&props, Some(7));

    let mut visible = String::new();
    let mut linked = String::new();
    for row in &canvas.cells {
        for cell in row {
            if let Some(text) = &cell.text {
                visible.push_str(text);
                if cell.hyperlink.as_deref() == Some("file:///notes.ipynb") {
                    linked.push_str(text);
                }
            }
        }
    }

    assert_eq!(visible, "(notes.ipynb@cell)", "canvas=\n{}", canvas.lines());
    assert_eq!(linked, "notes.ipynb");
    assert!(canvas.cells.len() > 1, "canvas=\n{}", canvas.lines());
    assert!(
        (1..canvas.cells.len()).any(|row| canvas.soft_wrap[row] > 0),
        "structured wrapping must retain soft-wrap selection metadata"
    );
}

#[test]
fn parts_are_drawn_where_they_stand() {
    let mut props = TextProps::default();
    props.align = TextAlign::Right;
    props.segments = Some(vec![
        StyledSegment::new("ab c"),
        StyledSegment {
            text: "d\ne ".to_string(),
            styles: TextStyles { bold: Some(true), ..TextStyles::default() },
            hyperlink: None,
        },
        StyledSegment::new("f"),
    ]);
    let canvas = render(&props, Some(4));
    assert_eq!(canvas.lines(), "  ab\n  cd\n e f\n");
    assert!(!canvas.style(2, 1).is_bold());
    assert!(canvas.style(3, 1).is_bold());
    assert!(canvas.style(1, 2).is_bold());
    assert!(!canvas.style(3, 2).is_bold());
    assert_eq!(canvas.soft_wrap, [0, 5, 0]);
    props.wrap = TextWrap::NoWrap;
    assert_eq!(render(&props, Some(5)).lines(), "ab cd\n  e f\n");
    assert_eq!(updated(&props).shown_text(), "ab cd\ne f");
}

/// The rows of a text, bold characters in upper case.
fn bold_rows(parts: &[(&str, bool)], mode: TextWrap, width: usize) -> Vec<String> {
    let mut props = TextProps::default();
    props.wrap = mode;
    props.segments = Some(
        parts
            .iter()
            .map(|(text, bold)| StyledSegment {
                text: text.to_string(),
                styles: TextStyles { bold: Some(*bold), ..TextStyles::default() },
                hyperlink: None,
            })
            .collect(),
    );
    let canvas = render(&props, Some(width));
    let mut rows = Vec::new();
    for row in &canvas.cells {
        let mut out = String::new();
        for cell in row {
            let text = cell.text.clone().unwrap_or_default();
            match cell.style {
                Some(style) if style.is_bold() && text == "…" => out.push('!'),
                Some(style) if style.is_bold() => out.push_str(&text.to_uppercase()),
                _ => out.push_str(&text),
            }
        }
        rows.push(out);
    }
    rows
}

#[test]
fn parts_of_cut_lines_keep_their_styles() {
    let parts = [("ab", false), ("cd", true), ("ef", false), ("gh", true)];
    assert_eq!(bold_rows(&parts, TextWrap::TruncateEnd, 4), ["abC!"]);
    assert_eq!(bold_rows(&parts, TextWrap::Truncate, 5), ["abCD…"]);
    assert_eq!(bold_rows(&parts, TextWrap::TruncateStart, 4), ["…fGH"]);
    assert_eq!(bold_rows(&parts, TextWrap::TruncateMiddle, 5), ["ab!GH"]);
    assert_eq!(bold_rows(&parts, TextWrap::TruncateMiddle, 6), ["abC!GH"]);
    assert_eq!(bold_rows(&parts, TextWrap::TruncateEnd, 1), ["…"]);
    assert_eq!(bold_rows(&parts, TextWrap::TruncateEnd, 8), ["abCDefGH"]);
    assert_eq!(
        bold_rows(&[("abc\nd", false), ("efg", true)], TextWrap::TruncateEnd, 3),
        ["abc", "dE!"]
    );
    assert_eq!(bold_rows(&[("ab\n", true)], TextWrap::TruncateEnd, 1), ["!", "!"]);
}

#[test]
fn parts_of_trimmed_lines_keep_their_styles() {
    let parts = [("  a", false), ("b ", true), (" cd\n e", false), ("f  ", true)];
    assert_eq!(bold_rows(&parts, TextWrap::WrapTrim, 3), ["aB", "cd", "eF"]);
    assert_eq!(bold_rows(&parts, TextWrap::WrapTrim, 6), ["aB  cd", "eF"]);
}

#[test]
fn parts_are_drawn_beside_siblings_without_height() {
    let mut props = TextProps::default();
    props.segments = Some(vec![StyledSegment::new("a")]);
    assert_eq!(updated(&props).draw(true, 3, 3, &as_it_is).len(), 1);
    assert!(updated(&content("a")).draw(true, 3, 3, &as_it_is).is_empty());
}

#[test]
fn a_text_of_one_part_is_drawn_like_a_plain_text() {
    let mut part = TextProps::default();
    part.segments = Some(vec![StyledSegment::new("some words, wrapped")]);
    let mut plain = content("some words, wrapped");
    for mode in [
        TextWrap::Wrap,
        TextWrap::WrapTrim,
        TextWrap::NoWrap,
        TextWrap::TruncateEnd,
        TextWrap::TruncateMiddle,
        TextWrap::TruncateStart,
    ] {
        part.wrap = mode;
        plain.wrap = mode;
        assert_eq!(
            updated(&part).draw(false, 7, 7, &as_it_is),
            updated(&plain).draw(false, 7, 7, &as_it_is)
        );
    }
}

#[test]
fn structured_segment_styles_inherit_and_override_like_official() {
    let mut props = TextProps::default();
    props.dim = true;
    props.segments = Some(vec![
        StyledSegment::new("outer "),
        StyledSegment {
            text: "inner".to_string(),
            styles: TextStyles {
                color: Some(Color::Green),
                background_color: Some(Color::Blue),
                bold: Some(true),
                italic: Some(true),
                underline: Some(true),
                strikethrough: Some(true),
                inverse: Some(true),
                ..TextStyles::default()
            },
            hyperlink: None,
        },
    ]);
    let canvas = render(&props, None);
    let outer = canvas.style(0, 0);
    assert!(outer.is_dim());
    assert!(!outer.is_bold());

    let inner = canvas.style(6, 0);
    assert_eq!(inner.color, Some(Color::Green));
    assert_eq!(inner.weight, Weight::Bold);
    assert!(inner.dim);
    assert!(inner.italic);
    assert!(inner.underline);
    assert!(inner.strikethrough);
    assert!(inner.invert);
    assert_eq!(canvas.cells[0][6].background_color, Some(Color::Blue));
}

#[test]
fn structured_segment_explicit_false_clears_inherited_style_like_official() {
    let mut props = TextProps::default();
    props.bold = true;
    props.dim = true;
    props.italic = true;
    props.segments = Some(vec![StyledSegment {
        text: "plain".to_string(),
        styles: TextStyles {
            bold: Some(false),
            dim: Some(false),
            italic: Some(false),
            ..TextStyles::default()
        },
        hyperlink: None,
    }]);
    let style = render(&props, None).style(0, 0);
    assert_eq!(style.weight, Weight::Normal);
    assert!(!style.dim);
    assert!(!style.italic);
}

#[test]
fn structured_segment_hyperlinks_inherit_and_replace_like_official() {
    let mut props = TextProps::default();
    props.href = Some("https://parent.example".to_string());
    props.segments = Some(vec![
        StyledSegment::new("a"),
        StyledSegment {
            text: "b".to_string(),
            hyperlink: Some(String::new()),
            ..StyledSegment::default()
        },
        StyledSegment {
            text: "c".to_string(),
            hyperlink: Some("https://child.example".to_string()),
            ..StyledSegment::default()
        },
    ]);
    let canvas = render(&props, None);
    assert_eq!(canvas.hyperlink_at(0, 0).as_deref(), Some("https://parent.example"));
    assert_eq!(canvas.hyperlink_at(1, 0).as_deref(), Some("https://parent.example"));
    assert_eq!(canvas.hyperlink_at(2, 0).as_deref(), Some("https://child.example"));
}

#[test]
fn structured_segment_presence_and_legacy_content_match_official() {
    let mut props = content("ignored");
    props.segments = Some(Vec::new());
    assert_eq!(lines(&props, None), "");
    let mut props = TextProps::default();
    props.segments = Some(vec![StyledSegment::new("")]);
    assert_eq!(lines(&props, None), "");
    assert_eq!(lines(&content("legacy"), None), "legacy\n");
}

#[test]
fn test_text() {
    assert_eq!(lines(&TextProps::default(), None), "");
    assert_eq!(lines(&content("foo"), None), "foo\n");
    assert_eq!(lines(&content("foo\nbar"), None), "foo\nbar\n");
    assert_eq!(lines(&content("foo\n"), None), "foo\n\n");
    let column: String = ["A", "", "B"].iter().map(|t| lines(&content(t), None)).collect();
    assert_eq!(column, "A\nB\n");
    assert_eq!(lines(&wrapping("foo\n", TextWrap::NoWrap), None), "foo\n\n");
    assert_eq!(lines(&content("😀"), None), "😀\n");
    assert_eq!(
        lines(&content("this is a wrapping test"), Some(14)),
        "this is a\nwrapping test\n"
    );
    assert_eq!(lines(&content("☀️x"), Some(2)), "☀️\nx\n");
    {
        let mut canvas = Canvas::new(5, 2);
        let ops = updated(&content("abcdef")).draw(false, 10, 5, &as_it_is);
        canvas.apply(0, 0, ops);
        assert_eq!(canvas.lines(), "abcde\nf\n");
    }
    assert_eq!(
        lines(
            &aligned("this is an alignment test", TextAlign::Right, TextWrap::Wrap),
            Some(15)
        ),
        "     this is an\n alignment test\n"
    );
    assert_eq!(
        lines(
            &aligned("this is an alignment test", TextAlign::Center, TextWrap::Wrap),
            Some(15)
        ),
        "  this is an\nalignment test\n"
    );
    {
        let mut props = content("bold");
        props.bold = true;
        assert_eq!(render(&props, None).style(0, 0).weight, Weight::Bold);
    }
    {
        let mut props = content("dim");
        props.bold = true;
        props.dim = true;
        let style = render(&props, None).style(0, 0);
        assert_eq!(style.weight, Weight::Bold);
        assert!(style.dim);
    }
    {
        let mut props = content("under");
        props.underline = true;
        assert!(render(&props, None).style(0, 0).underline);
    }
    {
        let mut props = content("strike");
        props.strikethrough = true;
        assert!(render(&props, None).style(0, 0).strikethrough);
    }
    {
        let mut props = content("over");
        props.overline = true;
        assert!(render(&props, None).style(0, 0).overline);
    }
    {
        let mut props = content("inverse");
        props.inverse = true;
        assert!(render(&props, None).style(0, 0).invert);
    }
    {
        let mut props = content("bg");
        props.background_color = Some(Color::Blue);
        let canvas = render(&props, None);
        assert_eq!(canvas.cells[0][0].background_color, Some(Color::Blue));
        assert_eq!(canvas.cells[0][1].background_color, Some(Color::Blue));
    }
    assert_eq!(lines(&wrapping("abcdef", TextWrap::Truncate), Some(5)), "abcd…\n");
    assert_eq!(lines(&wrapping("abcdef", TextWrap::TruncateStart), Some(5)), "…cdef\n");
    assert_eq!(lines(&wrapping("abcdef", TextWrap::TruncateMiddle), Some(5)), "ab…ef\n");
    assert_eq!(lines(&wrapping("界abc", TextWrap::TruncateEnd), Some(4)), "界a…\n");
    assert_eq!(lines(&content("a\tb"), Some(8)), "a\nb\n");
    assert_eq!(lines(&wrapping("  abc def", TextWrap::WrapTrim), Some(4)), "abc\ndef\n");
    {
        let mut props = aligned("this is an alignment test", TextAlign::Center, TextWrap::Wrap);
        props.decoration = TextDecoration::Underline;
        let canvas = render(&props, Some(16));
        let mut actual = String::new();
        sgr_reset(&mut actual);
        for row in &canvas.cells {
            let end = row.iter().rposition(|c| c.text.is_some()).unwrap() + 1;
            let mut underlined = false;
            for cell in &row[..end] {
                let underline = cell.style.is_some_and(|s| s.underline);
                if underline && !underlined {
                    sgr_attr(&mut actual, Attribute::Underlined);
                }
                assert!(underline || !underlined);
                underlined = underline;
                actual.push_str(cell.text.as_deref().unwrap_or(" "));
            }
            sgr_reset(&mut actual);
            erase_to_eol(&mut actual);
            sgr_reset(&mut actual);
            actual.push_str("\r\n");
        }
        let underlined = crossterm::style::Attribute::Underlined.sgr();
        let expected = format!(
            "\x1b[0m   \x1b[{underlined}mthis is an\x1b[0m\x1b[K\x1b[0m\r\n \x1b[{underlined}malignment test\x1b[0m\x1b[K\x1b[0m\r\n"
        );
        assert_eq!(actual, expected);
    }
}

#[test]
fn test_text_marks_soft_wrap_for_selection_copy() {
    let canvas = render(&content("hello world"), Some(5));
    assert_eq!(canvas.lines(), "hello\nworld\n");
    assert_eq!(canvas.soft_wrap[1], 5);
    assert_eq!(canvas.selected_text(), "helloworld");
}

#[test]
fn test_text_soft_wrap_selection_preserves_word_separator_when_rendered() {
    let canvas = render(&content("hello world"), Some(6));
    assert_eq!(canvas.lines(), "hello\nworld\n");
    assert_eq!(canvas.soft_wrap[1], 6);
    assert_eq!(canvas.selected_text(), "hello world");
}

#[test]
fn test_text_strips_ansi() {
    assert_eq!(lines(&content("\x1b[31mhello\x1b[0m"), None), "hello\n");
    assert_eq!(
        lines(&content("\x1b[1mthis is\x1b[0m a wrap test"), Some(10)),
        "this is a\nwrap test\n"
    );
    assert_eq!(lines(&content("no ansi here"), None), "no ansi here\n");
}

#[test]
fn test_text_invert() {
    let mut props = content("foo");
    props.invert = true;
    assert!(render(&props, None).style(0, 0).invert);
}

#[test]
fn test_alignment_no_wrap_overflow() {
    let text = "123456789abcdef";
    assert_eq!(
        lines(&aligned(text, TextAlign::Left, TextWrap::NoWrap), Some(9)),
        "123456789\n"
    );
    assert_eq!(
        lines(&aligned(text, TextAlign::Center, TextWrap::NoWrap), Some(9)),
        "456789abc\n"
    );
    assert_eq!(
        lines(
            &aligned("123456789abcdef\n1", TextAlign::Center, TextWrap::NoWrap),
            Some(9)
        ),
        "456789abc\n    1\n"
    );
    {
        let mut canvas = Canvas::new(20, 1);
        let props = aligned(text, TextAlign::Center, TextWrap::NoWrap);
        canvas.apply(2, 0, updated(&props).draw(false, 9, 18, &as_it_is));
        assert_eq!(canvas.lines(), "23456789abcdef\n");
    }
    assert_eq!(
        lines(&aligned(text, TextAlign::Right, TextWrap::NoWrap), Some(9)),
        "789abcdef\n"
    );
}

fn segment(
    label: Option<&str>,
    fallback: Option<&str>,
    enabled: Option<bool>,
    env: &Env,
) -> StyledSegment {
    link_segment(
        "https://example.com".to_string(),
        label.map(str::to_string),
        fallback.map(str::to_string),
        enabled,
        env,
        false,
    )
}

#[test]
fn link_segment_support_and_fallback_match_official() {
    let enabled = segment(Some("docs"), Some("plain docs"), Some(true), &Env::new());
    assert_eq!(enabled.text, "docs");
    assert_eq!(enabled.hyperlink.as_deref(), Some("https://example.com"));

    let disabled = segment(Some("docs"), Some("plain docs"), Some(false), &Env::new());
    assert_eq!(disabled.text, "plain docs");
    assert_eq!(disabled.hyperlink, None);
}

fn link(enabled: Option<bool>, fallback: Option<&str>) -> Canvas {
    let mut props = LinkProps::default();
    props.url = "https://example.com".to_string();
    props.label = Some("docs".to_string());
    props.fallback = fallback.map(str::to_string);
    props.enabled = enabled;
    render(&Link(&props, &Env::new(), false), None)
}

#[test]
fn test_link_renders_osc8_hyperlink_metadata() {
    let canvas = link(Some(true), None);
    assert_eq!(canvas.lines(), "docs\n");
    assert_eq!(canvas.hyperlink_at(1, 0).as_deref(), Some("https://example.com"));
}

#[test]
fn test_link_fallback_disables_hyperlink_metadata() {
    let canvas = link(Some(false), Some("plain docs"));
    assert_eq!(canvas.lines(), "plain docs\n");
    assert_eq!(canvas.hyperlink_at(1, 0), None);
}

#[test]
fn links_follow_the_terminal_by_default() {
    let mut kitty = Env::new();
    kitty.set("TERM", "xterm-kitty");
    assert_eq!(
        segment(None, None, None, &kitty).hyperlink.as_deref(),
        Some("https://example.com")
    );
    let plain = segment(None, None, None, &Env::new());
    assert_eq!((plain.text.as_str(), plain.hyperlink), ("https://example.com", None));
    let no_target = link_segment(
        String::new(),
        Some("x".to_string()),
        None,
        Some(true),
        &kitty,
        true,
    );
    assert_eq!((no_target.text.as_str(), no_target.hyperlink), ("x", None));
}

#[test]
fn widths_follow_clusters_tabs_and_controls() {
    assert_eq!(string_display_width("abc"), 3);
    assert_eq!(string_display_width("中文"), 4);
    assert_eq!(string_display_width("e\u{301}"), 1);
    assert_eq!(string_display_width("👩‍👩‍👧"), 2);
    assert_eq!(string_display_width("a\tb"), 9);
    assert_eq!(string_display_width_from_col("\t", 3), 5);
    assert_eq!(string_display_width("\x07\r\nx"), 1);
    assert_eq!(measure_text(""), TextSize { width: 0, height: 0 });
    assert_eq!(measure_text("ab\n中文\n"), TextSize { width: 4, height: 3 });
    let clusters: Vec<(String, usize)> =
        clusters_of("ae\u{301}中").into_iter().map(|c| (c.text, c.width)).collect();
    assert_eq!(
        clusters,
        [
            ("a".to_string(), 1),
            ("e\u{301}".to_string(), 1),
            ("中".to_string(), 2)
        ]
    );
}

fn cluster(text: &str, width: usize) -> Cluster {
    Cluster { text: text.to_string(), width }
}

#[test]
fn clusters_wrap_between_words() {
    let words = vec![cluster("a", 1), cluster("b", 1), cluster(" ", 1), cluster("c", 2)];
    assert_eq!(wrap_clusters(&words, 4), [(0, 3), (3, 4)]);
    assert_eq!(wrap_clusters(&words, 2), [(0, 2), (3, 4)]);
    assert_eq!(wrap_clusters(&words, 1), [(0, 1), (1, 2), (3, 4)]);
    assert_eq!(wrap_clusters(&words, 0), [(0, 1), (1, 2), (3, 4)]);
    assert_eq!(wrap_clusters(&Vec::new(), 5), [(0, 0)]);
}

#[test]
fn wrapped_lines_know_where_they_come_from() {
    let lines: Vec<(String, usize, usize)> = wrap("héllo wörld\n\nx", 7)
        .into_iter()
        .map(|line| (line.text, line.offset, line.width))
        .collect();
    assert_eq!(
        lines,
        [
            ("héllo ".to_string(), 0, 6),
            ("wörld".to_string(), 6, 5),
            (String::new(), 12, 0),
            ("x".to_string(), 13, 1)
        ]
    );
    assert_eq!(wrap("a  ", 9)[0].trim_end().width, 1);
}

#[test]
fn slices_leave_out_what_reaches_over() {
    assert_eq!(Text::slice_display_columns("a中b", 0, 2), "a");
    assert_eq!(Text::slice_display_columns("a中b", 2, 4), "b");
    assert_eq!(Text::slice_display_columns("a中b", 1, 3), "中");
    assert_eq!(Text::slice_display_columns("abc", 2, 2), "");
    assert_eq!(Text::slice_display_columns("abc", 3, 1), "");
}

#[test]
fn truncation_of_narrow_places() {
    assert_eq!(Text::truncate_line("abc", 0, TruncatePosition::End), "");
    assert_eq!(Text::truncate_line("", 1, TruncatePosition::Start), "…");
    assert_eq!(Text::truncate_line("ab", 2, TruncatePosition::Middle), "ab");
    assert_eq!(Text::truncate_line("abc", 2, TruncatePosition::Middle), "a…");
    assert_eq!(Text::truncate_line("中文", 3, TruncatePosition::Start), "…文");
    assert_eq!(wrap_text("abc\ndefg", 3, TextWrap::Truncate), "abc\nde…");
}

#[test]
fn rooms_decide_how_a_text_is_fitted() {
    let fit = |known, room| Text::wrap("ab cd", TextWrap::Wrap, known, room);
    assert_eq!(fit(Some(2), AvailableSpace::MaxContent), "ab\ncd");
    assert_eq!(fit(None, AvailableSpace::MaxContent), "ab cd");
    assert_eq!(fit(None, AvailableSpace::Definite(3)), "ab\ncd");
    assert_eq!(fit(None, AvailableSpace::MinContent), "a\nb\nc\nd");
    assert_eq!(
        Text::measure("ab cd", TextWrap::End, Some(1), AvailableSpace::MinContent),
        TextSize { width: 5, height: 1 }
    );
}

#[test]
fn paddings_by_alignment() {
    assert_eq!(Text::alignment_padding(3, TextAlign::Left, 10), 0);
    assert_eq!(Text::alignment_padding(3, TextAlign::Right, 10), 7);
    assert_eq!(Text::alignment_padding(3, TextAlign::Center, 10), 4);
    assert_eq!(Text::alignment_padding(15, TextAlign::Center, 9), -3);
    assert_eq!(Text::alignment_padding(15, TextAlign::Right, 9), -6);
}

#[test]
fn drawers_go_on_where_they_stopped() {
    let mut drawer = TextDrawer::new(1, true);
    let style = CanvasTextStyle::default();
    drawer.append_lines(&vec!["  a".to_string(), " b".to_string()], style, &as_it_is);
    let link = Some("l".to_string());
    drawer.append_lines_with_link(&vec![" c".to_string()], style, &link, &as_it_is);
    let text = |x, y, text: &str, hyperlink: &Option<String>| DrawOp::SetText {
        x,
        y,
        text: text.to_string(),
        style,
        hyperlink: hyperlink.clone(),
    };
    assert_eq!(
        drawer.into_ops(),
        [
            text(3, 0, "a", &None),
            text(2, 1, "b", &None),
            text(3, 1, " c", &link)
        ]
    );
}

#[test]
fn appended_texts_go_down_and_the_next_goes_on_behind_them() {
    let mut drawer = TextDrawer::new(2, false);
    let style = CanvasTextStyle::default();
    drawer.append_lines(&vec![" a".to_string(), "漢b".to_string()], style, &as_it_is);
    let bold = CanvasTextStyle { weight: Weight::Bold, ..style };
    drawer.append_lines(&vec!["m".to_string()], bold, &as_it_is);
    let text = |x, y, text: &str, style| DrawOp::SetText {
        x,
        y,
        text: text.to_string(),
        style,
        hyperlink: None,
    };
    assert_eq!(
        drawer.into_ops(),
        [text(2, 0, " a", style), text(2, 1, "漢b", style), text(5, 1, "m", bold)]
    );
}

#[test]
fn texts_are_drawn_as_they_are_shown() {
    let backwards = |line: &str| line.chars().rev().collect::<String>();
    let ops = updated(&content("abc")).draw(false, 9, 9, &backwards);
    assert!(matches!(&ops[0], DrawOp::SetText { text, .. } if text == "cba"));
    assert_eq!(updated(&content("abc")).draw(true, 9, 9, &backwards), Vec::new());
}

#[test]
fn wide_white_space_is_skipped_like_any_other() {
    let mut drawer = TextDrawer::new(0, true);
    let style = CanvasTextStyle::default();
    drawer.append_lines(&vec!["\u{3000}x".to_string()], style, &as_it_is);
    assert!(matches!(&drawer.into_ops()[0], DrawOp::SetText { x: 2, text, .. } if text == "x"));
}

#[test]
fn escape_sequences_are_stripped() {
    assert_eq!(strip_ansi("a\x1b[1;31mb\x1b]8;;u\x07c\x1bPx\x1b\\d\x1bcE"), "abcdE");
    assert_eq!(strip_ansi("a\x1b[12"), "a");
    assert_eq!(strip_ansi("a\x1b"), "a");
    assert_eq!(strip_ansi(&strip_ansi("x\x1b[0my")), "xy");
    let sequence: Vec<char> = "\x1b]0;t\x07x".chars().collect();
    assert_eq!(skip_ansi_escape(&sequence, 1), 6);
}

#[test]
fn trimmed_lines_have_no_blank_ends() {
    for line in Text::wrap_lines("  ab   cd \n\tef  ", TextWrap::WrapTrim, 4) {
        assert_eq!(line.text.trim(), line.text);
        assert!(!line.text.is_empty());
    }
}

#[test]
fn lines_left_alone_are_the_text() {
    let text = "a\n\n b \n";
    let lines: Vec<String> =
        Text::wrap_lines(text, TextWrap::NoWrap, 1).into_iter().map(|line| line.text).collect();
    assert_eq!(lines.join("\n"), text);
    assert_eq!(Text::wrap_lines(text, TextWrap::Truncate, 1).len(), 4);
}

#[test]
fn complete_texts_are_stripped_apart() {
    let first = "a\x1b[1mb";
    let second = "\x1b]0;t\x07c";
    assert_eq!(
        strip_ansi(&format!("{first}{second}")),
        strip_ansi(first) + &strip_ansi(second)
    );
}
