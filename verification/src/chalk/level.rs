//! Color-support detection: how many colors a stream can be given, from the
//! environment, the command line and whether the stream is a terminal.
pub mod laws;

use crate::chars;
use crate::chars::{
    all_digits, read_digits,
    begins_with, chars_of, contains, ends_with, find_char, is_digit, is_whitespace, same, slice,
    string_of, to_ascii_lower,
};
use crate::env;
use crate::env::{Env, EnvMap};
use vstd::prelude::*;

verus! {

/// Terminal color support level:
///
/// - `0`: colors disabled
/// - `1`: basic 16-color support
/// - `2`: 256-color support
/// - `3`: truecolor (16 million colors)
pub type ColorLevel = u8;

/// The argument that switches `flag` on: a flag that begins with a dash is
/// itself, a one-letter flag takes one dash, every other takes two.
pub open spec fn flag_argument(flag: Seq<char>) -> Seq<char> {
    if flag.len() > 0 && flag[0] == '-' {
        flag
    } else if flag.len() == 1 && flag[0] <= '\u{7f}' {
        "-"@ + flag
    } else {
        "--"@ + flag
    }
}

/// Whether `flag` is among `args`, before any `--` terminator.
pub open spec fn flag_given(args: Seq<Seq<char>>, flag: Seq<char>) -> bool {
    exists|i: int|
        0 <= i < args.len() && #[trigger] args[i] == flag_argument(flag) && forall|j: int|
            0 <= j <= i ==> args[j] != "--"@
}

/// A character that may stand before a number: white space, or a byte-order
/// mark. The control character for a next line is not one.
pub open spec fn number_space(c: char) -> bool {
    (chars::whitespace(c) && c != '\u{85}') || c == '\u{feff}'
}

/// What is left of `s` after the white space and byte-order marks before it.
pub open spec fn after_space(s: Seq<char>) -> Seq<char> {
    s.skip(chars::leading(s, |c: char| number_space(c)))
}

/// How many sign characters a number text begins with: none or one.
pub open spec fn sign_len(t: Seq<char>) -> int {
    if t.len() > 0 && (t[0] == '+' || t[0] == '-') {
        1
    } else {
        0
    }
}

/// The nearest number that 64 signed bits can hold.
pub open spec fn nearest_i64(n: int) -> i64 {
    if n > i64::MAX {
        i64::MAX
    } else if n < i64::MIN {
        i64::MIN
    } else {
        n as i64
    }
}

/// The integer that `s` begins with: white space, an optional sign and at
/// least one digit. Whatever follows the digits is left unread.
pub open spec fn leading_integer(s: Seq<char>) -> Option<i64> {
    let t = after_space(s);
    let rest = t.skip(sign_len(t));
    let n = chars::leading(rest, |c: char| chars::digit(c));
    if n == 0 {
        None
    } else if t[0] == '-' {
        Some(nearest_i64(-chars::number(rest.take(n))))
    } else {
        Some(nearest_i64(chars::number(rest.take(n))))
    }
}

/// The level that `FORCE_COLOR` asks for: `false` asks for none, `true` or
/// nothing for the basic one, a numeric value for that level, up to 3.
/// Anything else asks for nothing.
pub open spec fn forced_by_env(env: EnvMap) -> Option<u8> {
    match env::var(env, "FORCE_COLOR"@) {
        None => None,
        Some(force) => if force == "false"@ {
            Some(0u8)
        } else if force == "true"@ || force.len() == 0 {
            Some(1u8)
        } else if chars::all_in(force, |c: char| chars::digit(c)) {
            if chars::number(force) >= 3 {
                Some(3u8)
            } else {
                Some(chars::number(force) as u8)
            }
        } else {
            None
        },
    }
}

/// The level that the command line asks for: none, or the basic one.
pub open spec fn forced_by_flag(args: Seq<Seq<char>>) -> Option<u8> {
    if flag_given(args, "no-color"@) || flag_given(args, "no-colors"@) || flag_given(
        args,
        "color=false"@,
    ) || flag_given(args, "color=never"@) {
        Some(0u8)
    } else if flag_given(args, "color"@) || flag_given(args, "colors"@) || flag_given(
        args,
        "color=true"@,
    ) || flag_given(args, "color=always"@) {
        Some(1u8)
    } else {
        None
    }
}

/// Whether a TeamCity version is one that shows colors: 9.x with x of at
/// least 1, or a major version of two digits or more. A dot stands behind
/// each of them.
pub open spec fn teamcity_colors(version: Seq<char>) -> bool {
    let end = chars::find_from(version, '.', 0);
    let major = version.take(end);
    if major == "9"@ {
        let stop = chars::find_from(version, '.', end + 1);
        let minor = version.subrange(end + 1, stop);
        end < stop < version.len() && chars::all_in(minor, |c: char| chars::digit(c))
            && chars::number(minor) >= 1
    } else {
        end < version.len() && major.len() >= 2 && chars::all_in(
            major,
            |c: char| chars::digit(c),
        )
    }
}

/// `s` with its ASCII letters in lower case.
pub open spec fn lower(s: Seq<char>) -> Seq<char> {
    s.map_values(|c: char| chars::ascii_lower(c))
}

/// Whether `TERM` names a terminal with 256 colors.
pub open spec fn term_has_256(term: Seq<char>) -> bool {
    "-256color"@.is_suffix_of(lower(term)) || "-256"@.is_suffix_of(lower(term))
}

/// Whether `TERM` names a terminal that is known to show colors.
pub open spec fn term_has_16(term: Seq<char>) -> bool {
    let t = lower(term);
    ||| "screen"@.is_prefix_of(t)
    ||| "xterm"@.is_prefix_of(t)
    ||| "vt100"@.is_prefix_of(t)
    ||| "vt220"@.is_prefix_of(t)
    ||| "rxvt"@.is_prefix_of(t)
    ||| chars::occurs_in(t, "color"@)
    ||| chars::occurs_in(t, "ansi"@)
    ||| chars::occurs_in(t, "cygwin"@)
    ||| chars::occurs_in(t, "linux"@)
}

/// The value of `TERM`, or the empty text where it is not set.
pub open spec fn term_of(env: EnvMap) -> Seq<char> {
    match env::var(env, "TERM"@) {
        Some(term) => term,
        None => Seq::empty(),
    }
}

/// The major version in `TERM_PROGRAM_VERSION`.
pub open spec fn program_version(env: EnvMap) -> Option<i64> {
    match env::var(env, "TERM_PROGRAM_VERSION"@) {
        Some(v) => leading_integer(v.take(chars::find_from(v, '.', 0))),
        None => None,
    }
}

/// The level in a continuous-integration environment.
pub open spec fn ci_level(env: EnvMap, least: u8) -> u8 {
    if env::var(env, "GITHUB_ACTIONS"@) is Some || env::var(env, "GITEA_ACTIONS"@) is Some || env::var(
        env,
        "CIRCLECI"@,
    ) is Some {
        3
    } else if env::var(env, "TRAVIS"@) is Some || env::var(env, "APPVEYOR"@) is Some || env::var(
        env,
        "GITLAB_CI"@,
    ) is Some || env::var(env, "BUILDKITE"@) is Some || env::var(env, "DRONE"@) is Some || env::var(
        env,
        "CI_NAME"@,
    ) == Some("codeship"@) {
        1
    } else {
        least
    }
}

/// The level that the terminal program and `TERM` speak for.
pub open spec fn terminal_level(env: EnvMap, least: u8) -> u8 {
    if env::var(env, "COLORTERM"@) == Some("truecolor"@) {
        3
    } else if term_of(env) == "xterm-kitty"@ || term_of(env) == "xterm-ghostty"@ || term_of(env)
        == "wezterm"@ {
        3
    } else if env::var(env, "TERM_PROGRAM"@) == Some("iTerm.app"@) {
        if program_version(env) matches Some(v) && v >= 3 {
            3
        } else {
            2
        }
    } else if env::var(env, "TERM_PROGRAM"@) == Some("Apple_Terminal"@) {
        2
    } else if term_has_256(term_of(env)) {
        2
    } else if term_has_16(term_of(env)) {
        1
    } else if env::var(env, "COLORTERM"@) is Some {
        1
    } else {
        least
    }
}

/// The level of a stream, given the level that is forced. Where `windows`
/// holds, the console is one of those that all show truecolor.
pub open spec fn base_level(
    env: EnvMap,
    args: Seq<Seq<char>>,
    tty: bool,
    force: Option<u8>,
    windows: bool,
) -> u8 {
    let least = match force {
        Some(n) => n,
        None => 0u8,
    };
    if force == Some(0u8) {
        0
    } else if flag_given(args, "color=16m"@) || flag_given(args, "color=full"@) || flag_given(
        args,
        "color=truecolor"@,
    ) {
        3
    } else if flag_given(args, "color=256"@) {
        2
    } else if env::var(env, "TF_BUILD"@) is Some && env::var(env, "AGENT_NAME"@) is Some {
        1
    } else if !tty && force is None {
        0
    } else if env::var(env, "TERM"@) == Some("dumb"@) {
        least
    } else if windows {
        3
    } else if env::var(env, "CI"@) is Some {
        ci_level(env, least)
    } else if env::var(env, "TEAMCITY_VERSION"@) is Some {
        if teamcity_colors(env::var(env, "TEAMCITY_VERSION"@)->0) {
            1
        } else {
            0
        }
    } else {
        terminal_level(env, least)
    }
}

/// Whether the variable `name` has a Unicode value that is not empty.
pub open spec fn var_nonempty(env: EnvMap, name: Seq<char>) -> bool {
    env::var(env, name) matches Some(value) && value.len() > 0
}

/// The forced level: the environment is asked before the command line.
pub open spec fn forced(env: EnvMap, args: Seq<Seq<char>>) -> Option<u8> {
    match forced_by_env(env) {
        Some(n) => Some(n),
        None => forced_by_flag(args),
    }
}

/// The level of a stream. 256 colors in a VS Code terminal count as truecolor,
/// and truecolor in tmux as 256 colors unless it is asked for.
pub open spec fn detected_level(
    env: EnvMap,
    args: Seq<Seq<char>>,
    tty: bool,
    windows: bool,
) -> u8 {
    let base = base_level(env, args, tty, forced(env, args), windows);
    let boosted = if base == 2 && env::var(env, "TERM_PROGRAM"@) == Some("vscode"@) {
        3u8
    } else {
        base
    };
    if boosted > 2 && var_nonempty(env, "TMUX"@) && !var_nonempty(
        env,
        "CLAUDE_CODE_TMUX_TRUECOLOR"@,
    ) {
        2
    } else {
        boosted
    }
}

/// Whether `flag` is among `args`, before any `--` terminator.
pub fn has_flag(args: &Vec<String>, flag: &str) -> (r: bool)
    ensures
        r == flag_given(chars::views(args@), flag@),
{
    let letters = chars_of(flag);
    let mut needle = String::new();
    if letters.len() > 0 && letters[0] == '-' {
    } else if letters.len() == 1 && letters[0] <= '\u{7f}' {
        needle.append("-");
    } else {
        needle.append("--");
    }
    needle.append(flag);
    assert(needle@ =~= flag_argument(flag@));
    let mut i: usize = 0;
    while i < args.len()
        invariant
            0 <= i <= args@.len(),
            needle@ == flag_argument(flag@),
            forall|j: int|
                0 <= j < i ==> #[trigger] chars::views(args@)[j] != "--"@ && chars::views(args@)[j]
                    != flag_argument(flag@),
        decreases args@.len() - i,
    {
        assert(chars::views(args@)[i as int] == args@[i as int]@);
        if same(args[i].as_str(), "--") {
            assert(!flag_given(chars::views(args@), flag@));
            return false;
        }
        if same(args[i].as_str(), needle.as_str()) {
            return true;
        }
        i = i + 1;
    }
    false
}

/// The integer that `value` begins with: leading white space is skipped, an
/// optional sign and the digits after it are read. Without a digit there is
/// none. A number beyond 64 signed bits counts as the nearest one within.
pub fn js_parse_int(value: &str) -> (r: Option<i64>)
    ensures
        r == leading_integer(value@),
{
    let v = chars_of(value);
    let mut at: usize = 0;
    while at < v.len() && ((is_whitespace(v[at]) && v[at] != '\u{85}') || v[at] == '\u{feff}')
        invariant
            0 <= at <= v@.len(),
            forall|j: int| 0 <= j < at ==> number_space(#[trigger] v@[j]),
        decreases v@.len() - at,
    {
        at = at + 1;
    }
    proof {
        chars::leading_is(v@, |c: char| number_space(c), at as int);
    }
    let t = slice(&v, at, v.len());
    assert(t@ =~= after_space(v@));
    let signed = t.len() > 0 && (t[0] == '+' || t[0] == '-');
    let start: usize = if signed {
        1
    } else {
        0
    };
    let ghost rest = t@.skip(start as int);
    let mut end: usize = start;
    while end < t.len() && is_digit(t[end])
        invariant
            start <= end <= t@.len(),
            rest == t@.skip(start as int),
            forall|j: int| 0 <= j < end - start ==> chars::digit(#[trigger] rest[j]),
        decreases t@.len() - end,
    {
        end = end + 1;
    }
    proof {
        chars::leading_is(rest, |c: char| chars::digit(c), end - start);
    }
    if end == start {
        return None;
    }
    let ghost run = rest.take(end - start);
    assert(t@.subrange(start as int, end as int) =~= run);
    assert(chars::all_in(run, |c: char| chars::digit(c)));
    proof {
        chars::number_bounds(run);
    }
    let n = read_digits(&t, start, end);
    if t[0] == '-' {
        if n > 9223372036854775807 {
            return Some(i64::MIN);
        }
        return Some(-(n as i64));
    }
    if n > 9223372036854775807 {
        return Some(i64::MAX);
    }
    Some(n as i64)
}

/// The level that `FORCE_COLOR` asks for.
pub fn env_force_color(env: &Env) -> (r: Option<u8>)
    ensures
        r == forced_by_env(env@),
{
    let force = match env.get("FORCE_COLOR") {
        Some(force) => force,
        None => {
            return None;
        },
    };
    if same(force.as_str(), "false") {
        return Some(0);
    }
    if same(force.as_str(), "true") || force.as_str().is_empty() {
        return Some(1);
    }
    let letters = chars_of(force.as_str());
    if !all_digits(&letters) {
        return None;
    }
    proof {
        chars::number_bounds(force@);
        assert(letters@.subrange(0, letters@.len() as int) =~= letters@);
    }
    let n = read_digits(&letters, 0, letters.len());
    if n >= 3 {
        Some(3)
    } else {
        Some(n as u8)
    }
}

/// Whether a TeamCity version is one that shows colors.
pub fn teamcity_supports_color(version: &str) -> (r: bool)
    ensures
        r == teamcity_colors(version@),
{
    let v = chars_of(version);
    let end = find_char(&v, '.', 0);
    let major = slice(&v, 0, end);
    assert(major@ =~= version@.take(end as int));
    let major_text = string_of(&major);
    if same(major_text.as_str(), "9") {
        if end == v.len() {
            return false;
        }
        let stop = find_char(&v, '.', end + 1);
        if stop == v.len() {
            return false;
        }
        let minor = slice(&v, end + 1, stop);
        if !all_digits(&minor) {
            return false;
        }
        proof {
            chars::number_bounds(minor@);
            assert(minor@.subrange(0, minor@.len() as int) =~= minor@);
        }
        let n = read_digits(&minor, 0, minor.len());
        return n >= 1;
    }
    end < v.len() && major.len() >= 2 && all_digits(&major)
}

/// The level of a stream, given the level that is forced.
pub fn supports_color_base(
    env: &Env,
    args: &Vec<String>,
    stream_is_tty: bool,
    force_color: Option<u8>,
    windows: bool,
) -> (r: ColorLevel)
    ensures
        r == base_level(env@, chars::views(args@), stream_is_tty, force_color, windows),
{
    let least: u8 = match force_color {
        Some(n) => n,
        None => 0,
    };
    if force_color.is_some() && least == 0 {
        return 0;
    }
    if has_flag(args, "color=16m") || has_flag(args, "color=full") || has_flag(
        args,
        "color=truecolor",
    ) {
        return 3;
    }
    if has_flag(args, "color=256") {
        return 2;
    }
    // Azure DevOps pipelines show colors without a terminal.

    if env.has("TF_BUILD") && env.has("AGENT_NAME") {
        return 1;
    }
    if !stream_is_tty && force_color.is_none() {
        return 0;
    }
    if env.is("TERM", "dumb") {
        return least;
    }
    if windows {
        return 3;
    }
    if env.has("CI") {
        return ci_color(env, least);
    }
    if let Some(version) = env.get("TEAMCITY_VERSION") {
        return if teamcity_supports_color(version.as_str()) {
            1
        } else {
            0
        };
    }
    terminal_color(env, least)
}

/// The level in a continuous-integration environment.
fn ci_color(env: &Env, least: u8) -> (r: ColorLevel)
    ensures
        r == ci_level(env@, least),
{
    if env.has("GITHUB_ACTIONS") || env.has("GITEA_ACTIONS") || env.has("CIRCLECI") {
        3
    } else if env.has("TRAVIS") || env.has("APPVEYOR") || env.has("GITLAB_CI") || env.has(
        "BUILDKITE",
    ) || env.has("DRONE") || env.is("CI_NAME", "codeship") {
        1
    } else {
        least
    }
}

/// The level that the terminal program and `TERM` speak for.
fn terminal_color(env: &Env, least: u8) -> (r: ColorLevel)
    ensures
        r == terminal_level(env@, least),
{
    let term = match env.get("TERM") {
        Some(term) => term,
        None => String::new(),
    };
    assert(term@ =~= term_of(env@));
    if env.is("COLORTERM", "truecolor") {
        return 3;
    }
    if same(term.as_str(), "xterm-kitty") || same(term.as_str(), "xterm-ghostty") || same(
        term.as_str(),
        "wezterm",
    ) {
        return 3;
    }
    if env.is("TERM_PROGRAM", "iTerm.app") {
        return match major_version(env) {
            Some(v) => if v >= 3 {
                3
            } else {
                2
            },
            None => 2,
        };
    }
    if env.is("TERM_PROGRAM", "Apple_Terminal") {
        return 2;
    }
    let t = lower_case(term.as_str());
    if ends_with(&t, "-256color") || ends_with(&t, "-256") {
        return 2;
    }
    if begins_with(&t, "screen") || begins_with(&t, "xterm") || begins_with(&t, "vt100")
        || begins_with(&t, "vt220") || begins_with(&t, "rxvt") || contains(&t, "color")
        || contains(&t, "ansi") || contains(&t, "cygwin") || contains(&t, "linux") {
        return 1;
    }
    if env.has("COLORTERM") {
        return 1;
    }
    least
}

/// The major version in `TERM_PROGRAM_VERSION`.
fn major_version(env: &Env) -> (r: Option<i64>)
    ensures
        r == program_version(env@),
{
    match env.get("TERM_PROGRAM_VERSION") {
        Some(version) => {
            let v = chars_of(version.as_str());
            let end = find_char(&v, '.', 0);
            let major = string_of(&slice(&v, 0, end));
            assert(major@ =~= version@.take(end as int));
            js_parse_int(major.as_str())
        },
        None => None,
    }
}

/// The characters of `s` with the ASCII letters in lower case.
fn lower_case(s: &str) -> (r: Vec<char>)
    ensures
        r@ == lower(s@),
{
    let v = chars_of(s);
    let mut out: Vec<char> = Vec::new();
    let mut i: usize = 0;
    while i < v.len()
        invariant
            0 <= i <= v@.len(),
            out@.len() == i,
            forall|j: int| 0 <= j < i ==> out@[j] == chars::ascii_lower(v@[j]),
        decreases v@.len() - i,
    {
        out.push(to_ascii_lower(v[i]));
        i = i + 1;
    }
    assert(out@ =~= lower(s@));
    out
}

/// The color level of a stream, from the environment, the command line and
/// whether the stream is a terminal. `windows` tells that the process runs on
/// Windows, whose consoles all show truecolor.
pub fn detect_with_env(
    env: &Env,
    args: &Vec<String>,
    stream_is_tty: bool,
    windows: bool,
) -> (r: ColorLevel)
    ensures
        r == detected_level(env@, chars::views(args@), stream_is_tty, windows),
{
    let flag_force: Option<u8> = if has_flag(args, "no-color") || has_flag(args, "no-colors")
        || has_flag(args, "color=false") || has_flag(args, "color=never") {
        Some(0)
    } else if has_flag(args, "color") || has_flag(args, "colors") || has_flag(args, "color=true")
        || has_flag(args, "color=always") {
        Some(1)
    } else {
        None
    };
    let force_color = match env_force_color(env) {
        Some(n) => Some(n),
        None => flag_force,
    };
    let base = supports_color_base(env, args, stream_is_tty, force_color, windows);
    let boosted: u8 = if base == 2 && env.is("TERM_PROGRAM", "vscode") {
        3
    } else {
        base
    };
    if boosted > 2 && nonempty(env, "TMUX") && !nonempty(env, "CLAUDE_CODE_TMUX_TRUECOLOR") {
        2
    } else {
        boosted
    }
}

/// Whether the variable `name` has a Unicode value that is not empty.
fn nonempty(env: &Env, name: &str) -> (r: bool)
    ensures
        r == var_nonempty(env@, name@),
{
    match env.get(name) {
        Some(value) => !value.as_str().is_empty(),
        None => false,
    }
}

/// `level`, or 3 where it is above.
pub open spec fn clamp_level(level: ColorLevel) -> ColorLevel {
    if level > 3 {
        3
    } else {
        level
    }
}

/// The color levels of the two output streams of a process.
#[derive(Debug)]
pub struct Levels {
    stdout: ColorLevel,
    stderr: ColorLevel,
}

impl Levels {
    #[verifier::type_invariant]
    spec fn in_range(self) -> bool {
        self.stdout <= 3 && self.stderr <= 3
    }

    /// The level of standard output.
    pub closed spec fn stdout(self) -> ColorLevel {
        self.stdout
    }

    /// The level of standard error.
    pub closed spec fn stderr(self) -> ColorLevel {
        self.stderr
    }

    /// Detects the levels of both streams.
    pub fn detect(
        env: &Env,
        args: &Vec<String>,
        stdout_is_tty: bool,
        stderr_is_tty: bool,
        windows: bool,
    ) -> (r: Levels)
        ensures
            r.stdout() == detected_level(env@, chars::views(args@), stdout_is_tty, windows),
            r.stderr() == detected_level(env@, chars::views(args@), stderr_is_tty, windows),
    {
        proof {
            detected_level_in_range(env@, chars::views(args@), stdout_is_tty, windows);
            detected_level_in_range(env@, chars::views(args@), stderr_is_tty, windows);
        }
        Levels {
            stdout: detect_with_env(env, args, stdout_is_tty, windows),
            stderr: detect_with_env(env, args, stderr_is_tty, windows),
        }
    }
}

/// The color level of standard output: the one detected, or the last one set.
pub fn stdout_level(levels: &Levels) -> (r: ColorLevel)
    ensures
        r == levels.stdout(),
        r <= 3,
{
    proof {
        use_type_invariant(levels);
    }
    levels.stdout
}

/// Overrides the color level of standard output. A level above 3 counts as 3.
pub fn set_stdout_level(levels: &mut Levels, level: ColorLevel)
    ensures
        final(levels).stdout() == clamp_level(level),
        final(levels).stderr() == old(levels).stderr(),
{
    proof {
        use_type_invariant(&*levels);
    }
    levels.stdout = if level > 3 {
        3
    } else {
        level
    };
}

/// The color level of standard error: the one detected, or the last one set.
pub fn stderr_level(levels: &Levels) -> (r: ColorLevel)
    ensures
        r == levels.stderr(),
        r <= 3,
{
    proof {
        use_type_invariant(levels);
    }
    levels.stderr
}

/// Overrides the color level of standard error. A level above 3 counts as 3.
pub fn set_stderr_level(levels: &mut Levels, level: ColorLevel)
    ensures
        final(levels).stderr() == clamp_level(level),
        final(levels).stdout() == old(levels).stdout(),
{
    proof {
        use_type_invariant(&*levels);
    }
    levels.stderr = if level > 3 {
        3
    } else {
        level
    };
}

/// A detected level is one of the four: it is never above 3.
pub proof fn detected_level_in_range(
    env: EnvMap,
    args: Seq<Seq<char>>,
    tty: bool,
    windows: bool,
)
    ensures
        detected_level(env, args, tty, windows) <= 3,
        forced(env, args) matches Some(n) ==> n <= 3,
{
    if let Some(force) = env::var(env, "FORCE_COLOR"@) {
        if chars::all_in(force, |c: char| chars::digit(c)) {
            chars::number_bounds(force);
        }
    }
}

/// A forced level of 0 disables colors whatever else is set.
pub proof fn forced_zero_disables(env: EnvMap, args: Seq<Seq<char>>, tty: bool, windows: bool)
    requires
        forced(env, args) == Some(0u8),
    ensures
        detected_level(env, args, tty, windows) == 0,
{
}

/// A stream that is not a terminal gets no colors unless they are asked for,
/// by `FORCE_COLOR`, by a flag or by an Azure DevOps pipeline.
pub proof fn plain_stream_gets_no_colors(env: EnvMap, args: Seq<Seq<char>>, windows: bool)
    requires
        forced(env, args) is None,
        !flag_given(args, "color=16m"@),
        !flag_given(args, "color=full"@),
        !flag_given(args, "color=truecolor"@),
        !flag_given(args, "color=256"@),
        !(env::var(env, "TF_BUILD"@) is Some && env::var(env, "AGENT_NAME"@) is Some),
    ensures
        detected_level(env, args, false, windows) == 0,
{
}

/// Inside tmux there is no truecolor, unless it is asked for.
pub proof fn tmux_clamps_truecolor(env: EnvMap, args: Seq<Seq<char>>, tty: bool, windows: bool)
    requires
        var_nonempty(env, "TMUX"@),
        !var_nonempty(env, "CLAUDE_CODE_TMUX_TRUECOLOR"@),
    ensures
        detected_level(env, args, tty, windows) <= 2,
{
}

/// A flag after the `--` terminator does not count.
pub proof fn flags_end_at_terminator(
    args: Seq<Seq<char>>,
    rest: Seq<Seq<char>>,
    flag: Seq<char>,
)
    ensures
        flag_given(args.push("--"@) + rest, flag) == flag_given(args, flag),
{
    let all = args.push("--"@) + rest;
    if flag_given(args, flag) {
        let i = choose|i: int|
            0 <= i < args.len() && #[trigger] args[i] == flag_argument(flag) && forall|j: int|
                0 <= j <= i ==> args[j] != "--"@;
        assert(all[i] == args[i]);
        assert forall|j: int| 0 <= j <= i implies all[j] != "--"@ by {
            assert(all[j] == args[j]);
        }
        assert(flag_given(all, flag));
    }
    if flag_given(all, flag) {
        let i = choose|i: int|
            0 <= i < all.len() && #[trigger] all[i] == flag_argument(flag) && forall|j: int|
                0 <= j <= i ==> all[j] != "--"@;
        assert(all[args.len() as int] == "--"@);
        assert(i < args.len());
        assert(all[i] == args[i]);
        assert forall|j: int| 0 <= j <= i implies args[j] != "--"@ by {
            assert(all[j] == args[j]);
        }
        assert(flag_given(args, flag));
    }
}

/// What follows the `--` terminator on the command line has no part in the
/// color level.
pub proof fn level_ends_at_terminator(
    env: EnvMap,
    args: Seq<Seq<char>>,
    rest: Seq<Seq<char>>,
    tty: bool,
    windows: bool,
)
    ensures
        detected_level(env, args.push("--"@) + rest, tty, windows) == detected_level(
            env,
            args,
            tty,
            windows,
        ),
{
    assert forall|flag: Seq<char>| #[trigger]
        flag_given(args.push("--"@) + rest, flag) == flag_given(args, flag) by {
        flags_end_at_terminator(args, rest, flag);
    }
}

/// Two environments that agree on every variable that detection reads give
/// the same level.
proof fn same_vars_same_level(
    a: EnvMap,
    b: EnvMap,
    name: Seq<char>,
    args: Seq<Seq<char>>,
    tty: bool,
    windows: bool,
)
    requires
        forall|n: Seq<char>| n != name ==> #[trigger] env::var(a, n) == env::var(b, n),
        forced_by_env(a) == forced_by_env(b),
        name == "NO_COLOR"@ || name == "FORCE_COLOR"@,
    ensures
        detected_level(a, args, tty, windows) == detected_level(b, args, tty, windows),
{
    reveal_strlit("NO_COLOR");
    reveal_strlit("FORCE_COLOR");
    reveal_strlit("TERM_PROGRAM");
    reveal_strlit("TERM_PROGRAM_VERSION");
    reveal_strlit("TERM");
    reveal_strlit("TMUX");
    reveal_strlit("CLAUDE_CODE_TMUX_TRUECOLOR");
    reveal_strlit("TF_BUILD");
    reveal_strlit("AGENT_NAME");
    reveal_strlit("CI");
    reveal_strlit("TEAMCITY_VERSION");
    reveal_strlit("COLORTERM");
    reveal_strlit("GITHUB_ACTIONS");
    reveal_strlit("GITEA_ACTIONS");
    reveal_strlit("CIRCLECI");
    reveal_strlit("TRAVIS");
    reveal_strlit("APPVEYOR");
    reveal_strlit("GITLAB_CI");
    reveal_strlit("BUILDKITE");
    reveal_strlit("DRONE");
    reveal_strlit("CI_NAME");
    assert("CIRCLECI"@[0] == 'C');
    assert(name[0] == 'N' || name[0] == 'F');
    assert("APPVEYOR"@[0] == 'A');
    assert("TF_BUILD"@[0] == 'T');
}

/// `NO_COLOR` has no part in the color level.
pub proof fn no_color_is_ignored(
    env: EnvMap,
    value: Option<Seq<char>>,
    args: Seq<Seq<char>>,
    tty: bool,
    windows: bool,
)
    ensures
        detected_level(env.insert("NO_COLOR"@, value), args, tty, windows) == detected_level(
            env,
            args,
            tty,
            windows,
        ),
{
    reveal_strlit("NO_COLOR");
    reveal_strlit("FORCE_COLOR");
    let with = env.insert("NO_COLOR"@, value);
    assert("NO_COLOR"@.len() != "FORCE_COLOR"@.len());
    assert(env::var(with, "FORCE_COLOR"@) == env::var(env, "FORCE_COLOR"@));
    same_vars_same_level(with, env, "NO_COLOR"@, args, tty, windows);
}

/// A `FORCE_COLOR` that is neither `true`, `false`, empty nor a number counts
/// as not set.
pub proof fn other_force_color_is_unset(
    env: EnvMap,
    args: Seq<Seq<char>>,
    tty: bool,
    windows: bool,
)
    requires
        env::var(env, "FORCE_COLOR"@) matches Some(force) && force != "false"@ && force != "true"@
            && force.len() > 0 && !chars::all_in(force, |c: char| chars::digit(c)),
    ensures
        detected_level(env, args, tty, windows) == detected_level(
            env.remove("FORCE_COLOR"@),
            args,
            tty,
            windows,
        ),
{
    same_vars_same_level(env, env.remove("FORCE_COLOR"@), "FORCE_COLOR"@, args, tty, windows);
}

} // verus!
