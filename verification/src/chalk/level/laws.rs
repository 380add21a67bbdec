//! What color levels come to, for every environment and command line.
use crate::chalk::level;
use crate::chars;
use crate::env;
use crate::env::EnvMap;
use vstd::prelude::*;

verus! {

/// Whether an argument stands on the command line before any `--` terminator.
pub open spec fn given(args: Seq<Seq<char>>, arg: Seq<char>) -> bool {
    exists|i: int|
        0 <= i < args.len() && #[trigger] args[i] == arg && forall|j: int|
            0 <= j <= i ==> args[j] != "--"@
}

/// A flag that does not begin with a dash itself is given by an argument with
/// dashes before it: one before a single ASCII letter, two before more.
pub proof fn flags_are_given_with_dashes(args: Seq<Seq<char>>, flag: Seq<char>)
    requires
        flag.len() > 0,
        flag[0] != '-',
    ensures
        flag.len() > 1 ==> level::flag_given(args, flag) == given(args, seq!['-', '-'] + flag),
        flag.len() == 1 && flag[0] < '\u{80}' ==> level::flag_given(args, flag) == given(
            args,
            seq!['-'] + flag,
        ),
        level::flag_given(args, seq!['-'] + flag) == given(args, seq!['-'] + flag),
{
    reveal_strlit("-");
    reveal_strlit("--");
    assert("-"@ =~= seq!['-']);
    assert("--"@ =~= seq!['-', '-']);
}

/// Whether colors are asked for on the command line.
pub open spec fn colors_given(args: Seq<Seq<char>>) -> bool {
    given(args, "--color"@) || given(args, "--colors"@) || given(args, "--color=true"@) || given(
        args,
        "--color=always"@,
    )
}

/// Whether colors are refused on the command line.
pub open spec fn no_colors_given(args: Seq<Seq<char>>) -> bool {
    given(args, "--no-color"@) || given(args, "--no-colors"@) || given(args, "--color=false"@)
        || given(args, "--color=never"@)
}

/// Whether truecolor is asked for on the command line.
pub open spec fn truecolor_given(args: Seq<Seq<char>>) -> bool {
    given(args, "--color=16m"@) || given(args, "--color=full"@) || given(
        args,
        "--color=truecolor"@,
    )
}

/// Whether nothing is said of colors: neither by `FORCE_COLOR`, nor on the
/// command line, nor by an Azure DevOps pipeline.
pub open spec fn nothing_said(env: EnvMap, args: Seq<Seq<char>>) -> bool {
    &&& env::var(env, "FORCE_COLOR"@) is None
    &&& !colors_given(args)
    &&& !no_colors_given(args)
    &&& !truecolor_given(args)
    &&& !given(args, "--color=256"@)
    &&& env::var(env, "TF_BUILD"@) is None || env::var(env, "AGENT_NAME"@) is None
}

/// Whether the terminal alone decides: nothing is said of colors, and there is
/// neither a build machine, nor tmux, nor a dumb terminal.
pub open spec fn terminal_decides(env: EnvMap, args: Seq<Seq<char>>) -> bool {
    &&& nothing_said(env, args)
    &&& env::var(env, "CI"@) is None
    &&& env::var(env, "TEAMCITY_VERSION"@) is None
    &&& env::var(env, "TMUX"@) is None
    &&& env::var(env, "TERM"@) != Some("dumb"@)
}

/// The flags that are read are arguments with two dashes.
proof fn flags_are_arguments(args: Seq<Seq<char>>)
    ensures
        level::flag_given(args, "no-color"@) == given(args, "--no-color"@),
        level::flag_given(args, "no-colors"@) == given(args, "--no-colors"@),
        level::flag_given(args, "color=false"@) == given(args, "--color=false"@),
        level::flag_given(args, "color=never"@) == given(args, "--color=never"@),
        level::flag_given(args, "color"@) == given(args, "--color"@),
        level::flag_given(args, "colors"@) == given(args, "--colors"@),
        level::flag_given(args, "color=true"@) == given(args, "--color=true"@),
        level::flag_given(args, "color=always"@) == given(args, "--color=always"@),
        level::flag_given(args, "color=16m"@) == given(args, "--color=16m"@),
        level::flag_given(args, "color=full"@) == given(args, "--color=full"@),
        level::flag_given(args, "color=truecolor"@) == given(args, "--color=truecolor"@),
        level::flag_given(args, "color=256"@) == given(args, "--color=256"@),
{
    reveal_strlit("--");
    reveal_strlit("no-color");
    reveal_strlit("--no-color");
    reveal_strlit("no-colors");
    reveal_strlit("--no-colors");
    reveal_strlit("color=false");
    reveal_strlit("--color=false");
    reveal_strlit("color=never");
    reveal_strlit("--color=never");
    reveal_strlit("color");
    reveal_strlit("--color");
    reveal_strlit("colors");
    reveal_strlit("--colors");
    reveal_strlit("color=true");
    reveal_strlit("--color=true");
    reveal_strlit("color=always");
    reveal_strlit("--color=always");
    reveal_strlit("color=16m");
    reveal_strlit("--color=16m");
    reveal_strlit("color=full");
    reveal_strlit("--color=full");
    reveal_strlit("color=truecolor");
    reveal_strlit("--color=truecolor");
    reveal_strlit("color=256");
    reveal_strlit("--color=256");
    assert("--"@ + "no-color"@ =~= "--no-color"@);
    assert("--"@ + "no-colors"@ =~= "--no-colors"@);
    assert("--"@ + "color=false"@ =~= "--color=false"@);
    assert("--"@ + "color=never"@ =~= "--color=never"@);
    assert("--"@ + "color"@ =~= "--color"@);
    assert("--"@ + "colors"@ =~= "--colors"@);
    assert("--"@ + "color=true"@ =~= "--color=true"@);
    assert("--"@ + "color=always"@ =~= "--color=always"@);
    assert("--"@ + "color=16m"@ =~= "--color=16m"@);
    assert("--"@ + "color=full"@ =~= "--color=full"@);
    assert("--"@ + "color=truecolor"@ =~= "--color=truecolor"@);
    assert("--"@ + "color=256"@ =~= "--color=256"@);
}

/// `COLORTERM=truecolor` means truecolor, whatever the terminal is.
pub proof fn colorterm_truecolor_is_truecolor(env: EnvMap, args: Seq<Seq<char>>, windows: bool)
    requires
        terminal_decides(env, args),
        env::var(env, "COLORTERM"@) == Some("truecolor"@),
    ensures
        level::detected_level(env, args, true, windows) == 3,
{
    flags_are_arguments(args);
}

/// Some terminals are known for truecolor by their name, whatever else is set.
pub proof fn known_terminals_have_truecolor(env: EnvMap, args: Seq<Seq<char>>, windows: bool)
    requires
        terminal_decides(env, args),
        env::var(env, "TERM"@) == Some("xterm-kitty"@) || env::var(env, "TERM"@) == Some(
            "xterm-ghostty"@,
        ) || env::var(env, "TERM"@) == Some("wezterm"@),
    ensures
        level::detected_level(env, args, true, windows) == 3,
{
    flags_are_arguments(args);
}

/// iTerm2 has truecolor from version 3 on and 256 colors before, whatever
/// `TERM` says, unless truecolor is told of otherwise.
pub proof fn iterm_has_truecolor_from_version_three(
    env: EnvMap,
    args: Seq<Seq<char>>,
    major: nat,
    rest: Seq<char>,
)
    requires
        terminal_decides(env, args),
        env::var(env, "TERM_PROGRAM"@) == Some("iTerm.app"@),
        env::var(env, "TERM_PROGRAM_VERSION"@) == Some(
            chars::decimal(major) + seq!['.'] + rest,
        ),
        major <= i64::MAX,
    ensures
        major >= 3 ==> level::detected_level(env, args, true, false) == 3,
        major < 3 && env::var(env, "COLORTERM"@) != Some("truecolor"@) && env::var(env, "TERM"@)
            != Some("xterm-kitty"@) && env::var(env, "TERM"@) != Some("xterm-ghostty"@)
            && env::var(env, "TERM"@) != Some("wezterm"@) ==> level::detected_level(
            env,
            args,
            true,
            false,
        ) == 2,
{
    let version = chars::decimal(major) + seq!['.'] + rest;
    let digits = chars::decimal(major);
    flags_are_arguments(args);
    iterm_is_not_vscode();
    numbers_are_read_back(major, Seq::empty());
    decimal_has_no_dot(major, rest);
    assert(version.take(digits.len() as int) =~= digits);
    assert(digits + Seq::<char>::empty() =~= digits);
    kitty_is_not_empty();
}

/// A number is found before the dot that ends it.
proof fn decimal_has_no_dot(n: nat, rest: Seq<char>)
    ensures
        chars::find_from(chars::decimal(n) + seq!['.'] + rest, '.', 0) == chars::decimal(n).len(),
{
    let d = chars::decimal(n);
    let s = d + seq!['.'] + rest;
    decimal_is_digits(n);
    assert forall|i: int| 0 <= i < d.len() implies s[i] != '.' by {
        assert(s[i] == d[i]);
        assert(chars::digit(d[i]));
    }
    chars::find_from_is(s, '.', 0, d.len() as int);
}

/// A number is written with digits, and what they stand for is the number.
pub proof fn decimal_is_digits(n: nat)
    ensures
        chars::decimal(n).len() > 0,
        chars::all_in(chars::decimal(n), |c: char| chars::digit(c)),
        chars::number(chars::decimal(n)) == n,
    decreases n,
{
    let d = chars::decimal(n);
    if n >= 10 {
        decimal_is_digits(n / 10);
        assert(d.drop_last() =~= chars::decimal(n / 10));
        assert forall|i: int| 0 <= i < d.len() implies chars::digit(#[trigger] d[i]) by {
            if i < d.len() - 1 {
                assert(chars::digit(chars::decimal(n / 10)[i]));
            }
        }
    } else {
        assert(d.drop_last() =~= Seq::empty());
        reveal_with_fuel(chars::number, 2);
    }
}

/// A number that is written out is read back, with or without a minus sign,
/// white space before it and anything but a digit behind it.
pub proof fn numbers_are_read_back(n: nat, rest: Seq<char>)
    requires
        n <= i64::MAX,
        rest.len() == 0 || !chars::digit(rest[0]),
    ensures
        level::leading_integer(chars::decimal(n) + rest) == Some(n as i64),
        level::leading_integer(seq!['+'] + chars::decimal(n) + rest) == Some(n as i64),
        level::leading_integer(seq!['-'] + chars::decimal(n) + rest) == Some((-(n as int)) as i64),
{
    let d = chars::decimal(n);
    decimal_is_digits(n);
    assert(chars::digit(d[0]));
    let digit = |c: char| chars::digit(c);
    let space = |c: char| level::number_space(c);
    let t = d + rest;
    assert forall|i: int| 0 <= i < d.len() implies digit(#[trigger] t[i]) by {
        assert(t[i] == d[i]);
        assert(chars::digit(d[i]));
    }
    chars::leading_is(t, digit, d.len() as int);
    assert(t.take(d.len() as int) =~= d);
    assert(t.skip(0) =~= t);
    chars::leading_is(t, space, 0);
    let plus = seq!['+'] + d + rest;
    let minus = seq!['-'] + d + rest;
    assert(plus.skip(0) =~= plus && plus.skip(1) =~= t);
    assert(minus.skip(0) =~= minus && minus.skip(1) =~= t);
    chars::leading_is(plus, space, 0);
    chars::leading_is(minus, space, 0);
}

/// White space before a number is skipped.
pub proof fn space_before_numbers_is_skipped(c: char, s: Seq<char>)
    requires
        chars::whitespace(c) && c != '\u{85}' || c == '\u{feff}',
    ensures
        level::leading_integer(seq![c] + s) == level::leading_integer(s),
{
    let t = seq![c] + s;
    assert(t.skip(1) =~= s);
    assert(level::number_space(t[0]));
    let space = |c: char| level::number_space(c);
    chars::leading_bounds(s, space);
    assert(chars::leading(t, space) == 1 + chars::leading(s, space));
    assert(t.skip(1 + chars::leading(s, space)) =~= s.skip(chars::leading(s, space)));
}

/// Without a digit there is no number.
pub proof fn no_number_without_digits(s: Seq<char>)
    requires
        forall|i: int| 0 <= i < s.len() ==> !chars::digit(s[i]),
    ensures
        level::leading_integer(s) is None,
{
    let space = |c: char| level::number_space(c);
    let digit = |c: char| chars::digit(c);
    chars::leading_bounds(s, space);
    let t = level::after_space(s);
    let rest = t.skip(level::sign_len(t));
    assert forall|i: int| 0 <= i < rest.len() implies !chars::digit(rest[i]) by {
        assert(rest[i] == s[chars::leading(s, space) + level::sign_len(t) + i]);
    }
    chars::leading_is(rest, digit, 0);
}

/// The two terminal programs have different names.
proof fn iterm_is_not_vscode()
    ensures
        "iTerm.app"@ != "vscode"@,
        "Apple_Terminal"@ != "vscode"@,
        "Apple_Terminal"@ != "iTerm.app"@,
{
    reveal_strlit("iTerm.app");
    reveal_strlit("Apple_Terminal");
    reveal_strlit("vscode");
    assert("iTerm.app"@.len() == 9);
    assert("Apple_Terminal"@.len() == 14);
    assert("vscode"@.len() == 6);
}

/// The terminals known for truecolor have names.
proof fn kitty_is_not_empty()
    ensures
        "xterm-kitty"@.len() > 0,
        "xterm-ghostty"@.len() > 0,
        "wezterm"@.len() > 0,
{
    reveal_strlit("xterm-kitty");
    reveal_strlit("xterm-ghostty");
    reveal_strlit("wezterm");
}

/// The terminal of macOS has 256 colors, whatever `TERM` says, unless
/// truecolor is told of.
pub proof fn apple_terminal_has_256_colors(env: EnvMap, args: Seq<Seq<char>>)
    requires
        terminal_decides(env, args),
        env::var(env, "TERM_PROGRAM"@) == Some("Apple_Terminal"@),
        env::var(env, "COLORTERM"@) != Some("truecolor"@),
        env::var(env, "TERM"@) is None,
    ensures
        level::detected_level(env, args, true, false) == 2,
{
    flags_are_arguments(args);
    iterm_is_not_vscode();
    kitty_is_not_empty();
}

/// Whether truecolor is told of by nothing but, maybe, the end of `TERM`: the
/// terminal is none of those that are known by name.
pub open spec fn unknown_terminal(env: EnvMap) -> bool {
    &&& env::var(env, "COLORTERM"@) != Some("truecolor"@)
    &&& env::var(env, "TERM"@) != Some("xterm-kitty"@)
    &&& env::var(env, "TERM"@) != Some("xterm-ghostty"@)
    &&& env::var(env, "TERM"@) != Some("wezterm"@)
    &&& env::var(env, "TERM_PROGRAM"@) != Some("iTerm.app"@)
    &&& env::var(env, "TERM_PROGRAM"@) != Some("Apple_Terminal"@)
}

/// Letters are put in lower case one by one.
proof fn lower_joins(a: Seq<char>, b: Seq<char>)
    ensures
        level::lower(a + b) == level::lower(a) + level::lower(b),
{
    assert(level::lower(a + b) =~= level::lower(a) + level::lower(b));
}

/// A terminal whose name ends in `-256color` or `-256` has 256 colors, and
/// truecolor inside VS Code.
pub proof fn names_that_end_in_256_mean_256_colors(
    env: EnvMap,
    args: Seq<Seq<char>>,
    name: Seq<char>,
)
    requires
        terminal_decides(env, args),
        unknown_terminal(env),
        env::var(env, "TERM"@) == Some(name + "-256color"@) || env::var(env, "TERM"@) == Some(
            name + "-256"@,
        ),
    ensures
        level::detected_level(env, args, true, false) == if env::var(env, "TERM_PROGRAM"@) == Some(
            "vscode"@,
        ) {
            3u8
        } else {
            2u8
        },
{
    flags_are_arguments(args);
    kitty_is_not_empty();
    reveal_strlit("-256color");
    reveal_strlit("-256");
    lower_joins(name, "-256color"@);
    lower_joins(name, "-256"@);
    assert(level::lower("-256color"@) =~= "-256color"@);
    assert(level::lower("-256"@) =~= "-256"@);
    let n = level::lower(name).len() as int;
    let long = level::lower(name) + "-256color"@;
    let short = level::lower(name) + "-256"@;
    assert(long.subrange(n, long.len() as int) =~= "-256color"@);
    assert(short.subrange(n, short.len() as int) =~= "-256"@);
    assert("-256color"@.is_suffix_of(long));
    assert("-256"@.is_suffix_of(short));
}

/// Whether a name ends in one of the two ways that mean 256 colors.
pub open spec fn ends_in_256(name: Seq<char>) -> bool {
    exists|n: int|
        0 <= n <= name.len() && (level::lower(#[trigger] name.skip(n)) == "-256color"@
            || level::lower(name.skip(n)) == "-256"@)
}

/// A terminal whose name begins like that of an old one has 16 colors, unless
/// its name ends in a way that means more.
pub proof fn names_of_old_terminals_mean_16_colors(
    env: EnvMap,
    args: Seq<Seq<char>>,
    rest: Seq<char>,
)
    requires
        terminal_decides(env, args),
        unknown_terminal(env),
        env::var(env, "TERM"@) == Some("screen"@ + rest) || env::var(env, "TERM"@) == Some(
            "xterm"@ + rest,
        ) || env::var(env, "TERM"@) == Some("vt100"@ + rest) || env::var(env, "TERM"@) == Some(
            "vt220"@ + rest,
        ) || env::var(env, "TERM"@) == Some("rxvt"@ + rest),
        env::var(env, "TERM"@) matches Some(term) && !ends_in_256(term),
    ensures
        level::detected_level(env, args, true, false) == 1,
{
    let term = level::term_of(env);
    flags_are_arguments(args);
    kitty_is_not_empty();
    reveal_strlit("screen");
    reveal_strlit("xterm");
    reveal_strlit("vt100");
    reveal_strlit("vt220");
    reveal_strlit("rxvt");
    begins_in_lower_case("screen"@, rest);
    begins_in_lower_case("xterm"@, rest);
    begins_in_lower_case("vt100"@, rest);
    begins_in_lower_case("vt220"@, rest);
    begins_in_lower_case("rxvt"@, rest);
    suffixes_mean_256(term);
}

/// A lower-case beginning stays at the front.
proof fn begins_in_lower_case(name: Seq<char>, rest: Seq<char>)
    requires
        forall|i: int| 0 <= i < name.len() ==> !('A' <= #[trigger] name[i] <= 'Z'),
    ensures
        name.is_prefix_of(level::lower(name + rest)),
{
    lower_joins(name, rest);
    assert(level::lower(name) =~= name);
    let all = level::lower(name + rest);
    assert(all.subrange(0, name.len() as int) =~= name);
}

/// Where no end of a name means 256 colors, the name does not.
proof fn suffixes_mean_256(term: Seq<char>)
    ensures
        level::term_has_256(term) ==> ends_in_256(term),
{
    let t = level::lower(term);
    if "-256color"@.is_suffix_of(t) {
        let n = t.len() - "-256color"@.len();
        assert(level::lower(term.skip(n)) =~= t.subrange(n, t.len() as int));
    } else if "-256"@.is_suffix_of(t) {
        let n = t.len() - "-256"@.len();
        assert(level::lower(term.skip(n)) =~= t.subrange(n, t.len() as int));
    }
}

/// Where `TERM` is not set, any `COLORTERM` means 16 colors, and without one
/// there are none.
pub proof fn colorterm_speaks_for_a_nameless_terminal(env: EnvMap, args: Seq<Seq<char>>)
    requires
        terminal_decides(env, args),
        unknown_terminal(env),
        env::var(env, "TERM"@) is None,
    ensures
        env::var(env, "COLORTERM"@) is Some ==> level::detected_level(env, args, true, false) == 1,
        env::var(env, "COLORTERM"@) is None ==> level::detected_level(env, args, true, false) == 0,
{
    flags_are_arguments(args);
    kitty_is_not_empty();
    nothing_means_no_colors();
}

/// An empty name says nothing of colors.
proof fn nothing_means_no_colors()
    ensures
        !level::term_has_256(Seq::empty()),
        !level::term_has_16(Seq::empty()),
{
    reveal_strlit("-256color");
    reveal_strlit("-256");
    reveal_strlit("screen");
    reveal_strlit("xterm");
    reveal_strlit("vt100");
    reveal_strlit("vt220");
    reveal_strlit("rxvt");
    reveal_strlit("color");
    reveal_strlit("ansi");
    reveal_strlit("cygwin");
    reveal_strlit("linux");
    assert(level::lower(Seq::empty()) =~= Seq::empty());
}

/// A dumb terminal gets no colors, and 16 colors or more only where they are
/// asked for.
pub proof fn dumb_terminals_get_what_is_asked_for(
    env: EnvMap,
    args: Seq<Seq<char>>,
    windows: bool,
)
    requires
        env::var(env, "TERM"@) == Some("dumb"@),
        env::var(env, "TMUX"@) is None,
        env::var(env, "TERM_PROGRAM"@) is None,
        !truecolor_given(args),
        !given(args, "--color=256"@),
        env::var(env, "TF_BUILD"@) is None || env::var(env, "AGENT_NAME"@) is None,
        env::var(env, "FORCE_COLOR"@) is None,
    ensures
        level::detected_level(env, args, true, windows) == if !no_colors_given(args)
            && colors_given(args) {
            1u8
        } else {
            0u8
        },
{
    flags_are_arguments(args);
}

/// The build machines that are known show truecolor or 16 colors; others show
/// none. This goes before anything that `TERM` or `COLORTERM` say.
pub proof fn build_machines_show_what_they_are_known_for(env: EnvMap, args: Seq<Seq<char>>)
    requires
        nothing_said(env, args),
        env::var(env, "CI"@) is Some,
        env::var(env, "TMUX"@) is None,
        env::var(env, "TERM"@) != Some("dumb"@),
    ensures
        ({
            let full = env::var(env, "GITHUB_ACTIONS"@) is Some || env::var(
                env,
                "GITEA_ACTIONS"@,
            ) is Some || env::var(env, "CIRCLECI"@) is Some;
            let basic = env::var(env, "TRAVIS"@) is Some || env::var(env, "APPVEYOR"@) is Some
                || env::var(env, "GITLAB_CI"@) is Some || env::var(env, "BUILDKITE"@) is Some
                || env::var(env, "DRONE"@) is Some || env::var(env, "CI_NAME"@) == Some(
                "codeship"@,
            );
            let level = level::detected_level(env, args, true, false);
            &&& full ==> level == 3
            &&& !full && basic ==> level == 1
            &&& !full && !basic ==> level == 0
        }),
{
    flags_are_arguments(args);
}

/// TeamCity shows 16 colors from version 9.1 on: a 9 and a minor version that
/// is not zero, or a major version of two digits or more, with a dot behind
/// each. Nothing that the terminal says counts then.
pub proof fn teamcity_shows_colors_from_version_nine_one(
    env: EnvMap,
    args: Seq<Seq<char>>,
    major: nat,
    minor: nat,
    rest: Seq<char>,
)
    requires
        nothing_said(env, args),
        env::var(env, "CI"@) is None,
        env::var(env, "TERM"@) != Some("dumb"@),
        env::var(env, "TEAMCITY_VERSION"@) == Some(
            chars::decimal(major) + seq!['.'] + (chars::decimal(minor) + seq!['.'] + rest),
        ),
    ensures
        level::detected_level(env, args, true, false) == if major >= 10 || (major == 9 && minor
            >= 1) {
            1u8
        } else {
            0u8
        },
{
    let a = chars::decimal(major);
    let b = chars::decimal(minor);
    let tail = b + seq!['.'] + rest;
    let version = a + seq!['.'] + tail;
    let n = a.len() as int;
    flags_are_arguments(args);
    decimal_has_no_dot(major, tail);
    decimal_is_digits(major);
    decimal_is_digits(minor);
    reveal_strlit("9");
    assert(version.take(n) =~= a);
    // The minor version stands between the first two dots.
    let stop = n + 1 + b.len();
    assert forall|i: int| n + 1 <= i < stop implies version[i] != '.' by {
        assert(version[i] == b[i - n - 1]);
        assert(chars::digit(b[i - n - 1]));
    }
    assert(version[stop] == '.');
    chars::find_from_is(version, '.', n + 1, stop);
    assert(version.subrange(n + 1, stop) =~= b);
    if major == 9 {
        reveal_with_fuel(chars::decimal, 2);
        assert(a =~= "9"@);
    } else {
        if a == "9"@ {
            assert(chars::number("9"@) == 9) by {
                assert("9"@.drop_last() =~= Seq::empty());
                reveal_with_fuel(chars::number, 2);
            }
        }
        if major < 10 {
            assert(a.len() == 1);
        } else {
            decimal_is_digits(major / 10);
            assert(a.len() >= 2);
        }
    }
}

/// `FORCE_COLOR` is asked before the command line: `false` and 0 disable
/// colors, whatever else is said.
pub proof fn force_color_can_disable_colors(
    env: EnvMap,
    args: Seq<Seq<char>>,
    tty: bool,
    windows: bool,
)
    requires
        env::var(env, "FORCE_COLOR"@) == Some("false"@) || env::var(env, "FORCE_COLOR"@) == Some(
            chars::decimal(0),
        ),
    ensures
        level::detected_level(env, args, tty, windows) == 0,
{
    forced_number(env, args, 0);
}

/// A number in `FORCE_COLOR` is the forced level, up to 3.
proof fn forced_number(env: EnvMap, args: Seq<Seq<char>>, n: nat)
    ensures
        env::var(env, "FORCE_COLOR"@) == Some(chars::decimal(n)) ==> level::forced(env, args)
            == Some(
            if n > 3 {
                3u8
            } else {
                n as u8
            },
        ),
{
    decimal_is_digits(n);
    reveal_strlit("false");
    reveal_strlit("true");
    let d = chars::decimal(n);
    assert(chars::digit(d[0]));
    assert("false"@[0] == 'f');
    assert("true"@[0] == 't');
}

/// Where nothing is known of a stream, `FORCE_COLOR` decides: a number is the
/// level, up to 3; `true` and the empty value are the basic level.
pub proof fn force_color_decides_for_unknown_streams(
    env: EnvMap,
    args: Seq<Seq<char>>,
    tty: bool,
    n: nat,
)
    requires
        !truecolor_given(args),
        !given(args, "--color=256"@),
        env::var(env, "TF_BUILD"@) is None || env::var(env, "AGENT_NAME"@) is None,
        env::var(env, "CI"@) is None,
        env::var(env, "TEAMCITY_VERSION"@) is None,
        env::var(env, "TMUX"@) is None,
        env::var(env, "TERM"@) is None,
        env::var(env, "TERM_PROGRAM"@) is None,
        env::var(env, "COLORTERM"@) is None,
    ensures
        env::var(env, "FORCE_COLOR"@) == Some(chars::decimal(n)) ==> level::detected_level(
            env,
            args,
            tty,
            false,
        ) == if n > 3 {
            3
        } else {
            n as int
        },
        env::var(env, "FORCE_COLOR"@) == Some("true"@) || env::var(env, "FORCE_COLOR"@) == Some(
            Seq::<char>::empty(),
        ) ==> level::detected_level(env, args, tty, false) == 1,
{
    flags_are_arguments(args);
    kitty_is_not_empty();
    nothing_means_no_colors();
    forced_number(env, args, n);
    reveal_strlit("false");
    reveal_strlit("true");
    assert("false"@.len() == 5);
    assert("true"@.len() == 4);
}

/// The command line can ask for a level: truecolor, else 256 colors, whatever
/// the stream is, unless colors are refused. Refusing goes before asking.
pub proof fn the_command_line_can_ask_for_a_level(
    env: EnvMap,
    args: Seq<Seq<char>>,
    tty: bool,
    windows: bool,
)
    requires
        env::var(env, "FORCE_COLOR"@) is None,
        env::var(env, "TMUX"@) is None,
    ensures
        no_colors_given(args) ==> level::detected_level(env, args, tty, windows) == 0,
        !no_colors_given(args) && truecolor_given(args) ==> level::detected_level(
            env,
            args,
            tty,
            windows,
        ) == 3,
        !no_colors_given(args) && !truecolor_given(args) && given(args, "--color=256"@)
            ==> level::detected_level(env, args, tty, windows) == if env::var(env, "TERM_PROGRAM"@)
            == Some("vscode"@) {
            3
        } else {
            2int
        },
{
    flags_are_arguments(args);
}

/// A stream that is no terminal gets no colors, where nothing is said of them.
pub proof fn what_is_no_terminal_gets_no_colors(
    env: EnvMap,
    args: Seq<Seq<char>>,
    windows: bool,
)
    requires
        nothing_said(env, args),
    ensures
        level::detected_level(env, args, false, windows) == 0,
{
    flags_are_arguments(args);
}

/// An Azure DevOps pipeline shows 16 colors without a terminal, where nothing
/// else is said of them.
pub proof fn azure_pipelines_show_16_colors(
    env: EnvMap,
    args: Seq<Seq<char>>,
    tty: bool,
    windows: bool,
)
    requires
        env::var(env, "FORCE_COLOR"@) is None,
        !no_colors_given(args),
        !truecolor_given(args),
        !given(args, "--color=256"@),
        env::var(env, "TF_BUILD"@) is Some,
        env::var(env, "AGENT_NAME"@) is Some,
    ensures
        level::detected_level(env, args, tty, windows) == 1,
{
    flags_are_arguments(args);
}

/// A Windows console has truecolor, unless `TERM` says that it is a dumb one.
pub proof fn windows_consoles_have_truecolor(env: EnvMap, args: Seq<Seq<char>>)
    requires
        nothing_said(env, args),
        env::var(env, "TMUX"@) is None,
        env::var(env, "TERM"@) != Some("dumb"@),
    ensures
        level::detected_level(env, args, true, true) == 3,
{
    flags_are_arguments(args);
}

/// Inside tmux a stream has 256 colors where it would have truecolor outside,
/// and else the level that it would have outside. With the variable that asks
/// for truecolor in tmux it has what it would have outside.
pub proof fn tmux_takes_truecolor_only(
    env: EnvMap,
    args: Seq<Seq<char>>,
    tty: bool,
    windows: bool,
    session: Seq<char>,
)
    requires
        env::var(env, "TMUX"@) is None,
        session.len() > 0,
    ensures
        ({
            let outside = level::detected_level(env, args, tty, windows);
            let inside = level::detected_level(
                env.insert("TMUX"@, Some(session)),
                args,
                tty,
                windows,
            );
            let asked = env::var(env, "CLAUDE_CODE_TMUX_TRUECOLOR"@) matches Some(v) && v.len() > 0;
            &&& asked ==> inside == outside
            &&& !asked && outside < 3 ==> inside == outside
            &&& !asked && outside == 3 ==> inside == 2
        }),
{
    let inner = env.insert("TMUX"@, Some(session));
    level::detected_level_in_range(env, args, tty, windows);
    tmux_is_read_once(env, inner, args, tty, windows);
}

/// Apart from the clamp, the level does not depend on `TMUX`.
proof fn tmux_is_read_once(
    a: EnvMap,
    b: EnvMap,
    args: Seq<Seq<char>>,
    tty: bool,
    windows: bool,
)
    requires
        forall|n: Seq<char>| n != "TMUX"@ ==> #[trigger] env::var(a, n) == env::var(b, n),
    ensures
        level::base_level(a, args, tty, level::forced(a, args), windows) == level::base_level(
            b,
            args,
            tty,
            level::forced(b, args),
            windows,
        ),
        env::var(a, "TERM_PROGRAM"@) == env::var(b, "TERM_PROGRAM"@),
        env::var(a, "CLAUDE_CODE_TMUX_TRUECOLOR"@) == env::var(b, "CLAUDE_CODE_TMUX_TRUECOLOR"@),
{
    reveal_strlit("TMUX");
    reveal_strlit("FORCE_COLOR");
    reveal_strlit("TERM_PROGRAM");
    reveal_strlit("TERM_PROGRAM_VERSION");
    reveal_strlit("TERM");
    reveal_strlit("CLAUDE_CODE_TMUX_TRUECOLOR");
    reveal_strlit("TF_BUILD");
    reveal_strlit("AGENT_NAME");
    reveal_strlit("CI");
    reveal_strlit("TEAMCITY_VERSION");
    reveal_strlit("COLORTERM");
    reveal_strlit("GITHUB_ACTIONS");
    reveal_strlit("GITEA_ACTIONS");
    reveal_strlit("CIRCLECI");
    reveal_strlit("TRAVIS");
    reveal_strlit("APPVEYOR");
    reveal_strlit("GITLAB_CI");
    reveal_strlit("BUILDKITE");
    reveal_strlit("DRONE");
    reveal_strlit("CI_NAME");
    assert("TERM"@[1] == 'E');
    assert("TMUX"@[1] == 'M');
}

/// A terminal with one of four words in its name has 16 colors, unless its name
/// ends in a way that means more.
pub proof fn names_that_speak_of_colors_mean_16_colors(
    env: EnvMap,
    args: Seq<Seq<char>>,
    before: Seq<char>,
    word: Seq<char>,
    after: Seq<char>,
)
    requires
        terminal_decides(env, args),
        unknown_terminal(env),
        word == "color"@ || word == "ansi"@ || word == "cygwin"@ || word == "linux"@,
        env::var(env, "TERM"@) == Some(before + word + after),
        !ends_in_256(before + word + after),
    ensures
        level::detected_level(env, args, true, false) == 1,
{
    let term = before + word + after;
    flags_are_arguments(args);
    kitty_is_not_empty();
    reveal_strlit("color");
    reveal_strlit("ansi");
    reveal_strlit("cygwin");
    reveal_strlit("linux");
    assert(level::lower("color"@) =~= "color"@);
    assert(level::lower("ansi"@) =~= "ansi"@);
    assert(level::lower("cygwin"@) =~= "cygwin"@);
    assert(level::lower("linux"@) =~= "linux"@);
    lower_joins(before + word, after);
    lower_joins(before, word);
    let t = level::lower(term);
    let n = before.len() as int;
    assert(t.subrange(n, n + word.len()) =~= word);
    assert(chars::occurs_at(t, word, n));
    suffixes_mean_256(term);
}

/// A level that is set stays as it is up to truecolor, which is the highest.
pub proof fn levels_end_at_truecolor(a: level::ColorLevel)
    ensures
        a <= 3 ==> level::clamp_level(a) == a,
        a > 3 ==> level::clamp_level(a) == 3,
{
}

/// A flag of one letter that is not ASCII takes two dashes, like a longer one.
pub proof fn other_letters_take_two_dashes(args: Seq<Seq<char>>, letter: char)
    requires
        letter >= '\u{80}',
    ensures
        level::flag_given(args, seq![letter]) == given(args, seq!['-', '-', letter]),
{
    reveal_strlit("--");
    assert("--"@ =~= seq!['-', '-']);
    assert("--"@ + seq![letter] =~= seq!['-', '-', letter]);
}

/// An empty `TMUX`, or one that is not Unicode, tells of no tmux.
pub proof fn an_empty_tmux_is_none(
    env: EnvMap,
    args: Seq<Seq<char>>,
    tty: bool,
    windows: bool,
)
    requires
        env::var(env, "TMUX"@) is None,
    ensures
        level::detected_level(env.insert("TMUX"@, Some(Seq::empty())), args, tty, windows)
            == level::detected_level(env, args, tty, windows),
        level::detected_level(env.insert("TMUX"@, None), args, tty, windows)
            == level::detected_level(env, args, tty, windows),
{
    tmux_is_read_once(env, env.insert("TMUX"@, Some(Seq::empty())), args, tty, windows);
    tmux_is_read_once(env, env.insert("TMUX"@, None), args, tty, windows);
}

/// A TeamCity version without a dot, or with nothing but digits behind the dot
/// of a 9, is not known to show colors.
pub proof fn teamcity_versions_need_their_dots(
    env: EnvMap,
    args: Seq<Seq<char>>,
    version: Seq<char>,
    minor: nat,
)
    requires
        nothing_said(env, args),
        env::var(env, "CI"@) is None,
        env::var(env, "TERM"@) != Some("dumb"@),
        env::var(env, "TEAMCITY_VERSION"@) == Some(version),
        !version.contains('.') || version == "9."@ + chars::decimal(minor),
    ensures
        level::detected_level(env, args, true, false) == 0,
{
    flags_are_arguments(args);
    reveal_strlit("9.");
    reveal_strlit("9");
    let n = version.len() as int;
    if version.contains('.') {
        let digits = chars::decimal(minor);
        decimal_is_digits(minor);
        assert(version[1] == '.');
        assert(version[0] == '9');
        chars::find_from_is(version, '.', 0, 1);
        assert(version.take(1) =~= "9"@);
        assert forall|i: int| 2 <= i < n implies version[i] != '.' by {
            assert(version[i] == digits[i - 2]);
            assert(chars::digit(digits[i - 2]));
        }
        no_dot_from(version, 2);
    } else {
        assert forall|i: int| 0 <= i < n implies version[i] != '.' by {
            assert(version.contains(version[i]));
        }
        no_dot_from(version, 0);
        assert(version.take(n) =~= version);
    }
}

/// Where no dot is, none is found.
proof fn no_dot_from(s: Seq<char>, from: int)
    requires
        forall|i: int| from <= i < s.len() ==> s[i] != '.',
    ensures
        chars::find_from(s, '.', from) == s.len(),
    decreases s.len() - from,
{
    if 0 <= from < s.len() {
        no_dot_from(s, from + 1);
    }
}

} // verus!
