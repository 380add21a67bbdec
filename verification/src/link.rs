//! The link component: a text that is a hyperlink where the terminal shows
//! hyperlinks.
use crate::ansi;
use crate::ansi::supports_hyperlinks;
use crate::env;
use crate::env::{Env, EnvMap};
use crate::style;
use crate::style::TextStyles;
use crate::text::{StyledSegment, TextAlign, TextDecoration, TextProps, TextWrap};
use vstd::prelude::*;

verus! {

/// What can be set of a link component.
#[derive(Debug, PartialEq, Eq)]
pub struct LinkProps {
    /// The target of the link.
    pub url: String,
    /// What is shown. By default it is the target.
    pub label: Option<String>,
    /// What is shown where hyperlinks are not. By default it is the label.
    pub fallback: Option<String>,
    /// Whether hyperlinks are shown. By default the terminal decides.
    pub enabled: Option<bool>,
}

impl Default for LinkProps {
    fn default() -> (r: LinkProps)
        ensures
            r.url@.len() == 0,
            r.label is None,
            r.fallback is None,
            r.enabled is None,
    {
        LinkProps { url: String::new(), label: None, fallback: None, enabled: None }
    }
}

/// Whether a link is shown as a hyperlink: it is asked for, or the terminal
/// shows hyperlinks and nothing is asked for.
pub open spec fn link_enabled(enabled: Option<bool>, vars: EnvMap, tty: bool) -> bool {
    match enabled {
        Some(enabled) => enabled,
        None => ansi::hyperlinks_shown(vars, ansi::stdout_shows_hyperlinks(vars, tty)),
    }
}

/// `own` where it is there, else `other`.
pub open spec fn or_else(own: Option<Seq<char>>, other: Seq<char>) -> Seq<char> {
    match own {
        Some(own) => own,
        None => other,
    }
}

/// What a link shows, and the target of its hyperlink. A link without a target
/// is none.
pub open spec fn link_parts(
    url: Seq<char>,
    label: Option<Seq<char>>,
    fallback: Option<Seq<char>>,
    enabled: bool,
) -> (Seq<char>, Option<Seq<char>>) {
    let shown = or_else(label, url);
    if enabled && url.len() > 0 {
        (shown, Some(url))
    } else {
        (or_else(fallback, shown), None)
    }
}

/// The part of a text that a link is.
pub fn link_segment(
    url: String,
    label: Option<String>,
    fallback: Option<String>,
    enabled: Option<bool>,
    env: &Env,
    stdout_is_tty: bool,
) -> (r: StyledSegment)
    ensures
        (r.text@, env::opt_view(r.hyperlink)) == link_parts(
            url@,
            env::opt_view(label),
            env::opt_view(fallback),
            link_enabled(enabled, env@, stdout_is_tty),
        ),
        r.styles == style::inherited(),
{
    let label = match label {
        Some(label) => label,
        None => url.clone(),
    };
    let enabled = match enabled {
        Some(enabled) => enabled,
        None => supports_hyperlinks(env, stdout_is_tty),
    };
    if enabled && !url.as_str().is_empty() {
        StyledSegment { text: label, hyperlink: Some(url), styles: TextStyles::default() }
    } else {
        let text = match fallback {
            Some(fallback) => fallback,
            None => label,
        };
        StyledSegment { text, hyperlink: None, styles: TextStyles::default() }
    }
}

/// The text that a link is drawn as: one part, and nothing else set.
#[allow(non_snake_case)]
pub fn Link(props: &LinkProps, env: &Env, stdout_is_tty: bool) -> (r: TextProps)
    ensures
        r.segments matches Some(segments) && segments@.len() == 1 && segments@[0].styles
            == style::inherited() && (segments@[0].text@, env::opt_view(segments@[0].hyperlink))
            == link_parts(
            props.url@,
            env::opt_view(props.label),
            env::opt_view(props.fallback),
            link_enabled(props.enabled, env@, stdout_is_tty),
        ),
        r.color is None,
        r.background_color is None,
        r.content@.len() == 0,
        r.weight == style::Weight::Normal,
        !r.bold,
        !r.dim,
        r.wrap == TextWrap::Wrap,
        r.align == TextAlign::Left,
        r.decoration == TextDecoration::Plain,
        !r.underline,
        !r.italic,
        !r.strikethrough,
        !r.overline,
        !r.invert,
        !r.inverse,
        r.href is None,
{
    let segment = link_segment(
        props.url.clone(),
        props.label.clone(),
        props.fallback.clone(),
        props.enabled,
        env,
        stdout_is_tty,
    );
    let mut segments: Vec<StyledSegment> = Vec::new();
    segments.push(segment);
    let mut text = TextProps::default();
    text.segments = Some(segments);
    text
}

/// A link without a target, or one where hyperlinks are switched off, is plain
/// text: the fallback, or the label, or the target.
pub proof fn disabled_links_are_plain_text(
    url: Seq<char>,
    label: Option<Seq<char>>,
    fallback: Option<Seq<char>>,
    enabled: bool,
)
    requires
        !enabled || url.len() == 0,
    ensures
        link_parts(url, label, fallback, enabled).1 is None,
        link_parts(url, label, fallback, enabled).0 == or_else(fallback, or_else(label, url)),
{
}

/// What is asked for counts, whatever the terminal is.
pub proof fn explicit_choice_beats_detection(choice: bool, vars: EnvMap, tty: bool)
    ensures
        link_enabled(Some(choice), vars, tty) == choice,
{
}

/// A link with a target, where hyperlinks are switched on, leads to its target.
/// It shows its label, or its target where it has none, and never what is
/// shown where hyperlinks are not.
pub proof fn enabled_links_lead_to_their_target(
    url: Seq<char>,
    label: Seq<char>,
    fallback: Option<Seq<char>>,
)
    requires
        url.len() > 0,
    ensures
        link_parts(url, Some(label), fallback, true) == (label, Some(url)),
        link_parts(url, None, fallback, true) == (url, Some(url)),
{
}

/// Where hyperlinks are not shown a link says what is meant for that case, or
/// its label, or its target, and leads nowhere.
pub proof fn disabled_links_say_the_first_that_is_there(
    url: Seq<char>,
    label: Seq<char>,
    fallback: Seq<char>,
)
    ensures
        link_parts(url, Some(label), Some(fallback), false) == (fallback, None::<Seq<char>>),
        link_parts(url, None, Some(fallback), false) == (fallback, None::<Seq<char>>),
        link_parts(url, Some(label), None, false) == (label, None::<Seq<char>>),
        link_parts(url, None, None, false) == (url, None::<Seq<char>>),
{
}

/// Where nothing is asked for, the terminal decides.
pub proof fn terminals_decide_where_nothing_is_asked_for(vars: EnvMap, tty: bool)
    ensures
        link_enabled(None, vars, tty) <==> ansi::hyperlinks_shown(
            vars,
            ansi::stdout_shows_hyperlinks(vars, tty),
        ),
{
}

} // verus!
