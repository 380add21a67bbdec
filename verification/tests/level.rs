//! Color-level detection.
use iocraft::chalk::level::{
    detect_with_env, env_force_color, has_flag, js_parse_int, supports_color_base,
    teamcity_supports_color,
};
use iocraft::chalk::{
    set_stderr_level, set_stdout_level, stderr_level, stdout_level, Chalk, Levels,
};
use iocraft::env::Env;

fn env(pairs: &[(&str, &str)]) -> Env {
    let mut env = Env::new();
    for (name, value) in pairs {
        env.set(name, value);
    }
    env
}

fn strings(args: &[&str]) -> Vec<String> {
    args.iter().map(|s| s.to_string()).collect()
}

fn level(pairs: &[(&str, &str)], args: &[&str], tty: bool) -> u8 {
    detect_with_env(&env(pairs), &strings(args), tty, false)
}

#[test]
fn no_color_is_ignored_matching_chalk_v6_supports_color() {
    assert_eq!(
        level(&[("NO_COLOR", "1"), ("TERM", "xterm-256color")], &[], true),
        2
    );
    assert_eq!(
        level(&[("NO_COLOR", "1"), ("COLORTERM", "truecolor")], &[], true),
        3
    );
    assert_eq!(
        level(&[("NO_COLOR", "1"), ("FORCE_COLOR", "3")], &[], false),
        3
    );
}

#[test]
fn force_color_overrides_everything() {
    assert_eq!(level(&[("FORCE_COLOR", "0")], &[], true), 0);
    assert_eq!(level(&[("FORCE_COLOR", "3")], &[], false), 3);
    assert_eq!(level(&[("FORCE_COLOR", "")], &[], false), 1);
    assert_eq!(level(&[("FORCE_COLOR", "true")], &[], false), 1);
    assert_eq!(level(&[("FORCE_COLOR", "false")], &[], true), 0);
    assert_eq!(level(&[("FORCE_COLOR", "9")], &[], false), 3);
    assert_eq!(
        level(
            &[("FORCE_COLOR", "banana"), ("TERM", "xterm-256color")],
            &[],
            true
        ),
        2
    );
    assert_eq!(
        level(
            &[("FORCE_COLOR", "banana"), ("TERM", "xterm-256color")],
            &[],
            false
        ),
        0
    );
}

#[test]
fn cli_flags_match_has_flag_semantics() {
    assert_eq!(level(&[], &["--color=truecolor"], false), 3);
    assert_eq!(level(&[], &["--color=256"], false), 2);
    assert_eq!(
        level(&[("TERM", "xterm-256color")], &["--no-color"], true),
        0
    );
    assert_eq!(level(&[], &["--", "--color=truecolor"], false), 0);
}

#[test]
fn non_tty_defaults_to_zero_without_force() {
    assert_eq!(level(&[("TERM", "xterm-256color")], &[], false), 0);
}

#[test]
fn term_detection_matches_chalk_oracle() {
    assert_eq!(level(&[("TERM", "dumb")], &[], true), 0);
    assert_eq!(level(&[("COLORTERM", "truecolor")], &[], true), 3);
    assert_eq!(level(&[("TERM", "xterm-kitty")], &[], true), 3);
    assert_eq!(level(&[("TERM", "xterm-ghostty")], &[], true), 3);
    assert_eq!(level(&[("TERM", "wezterm")], &[], true), 3);
    assert_eq!(
        level(
            &[
                ("TERM_PROGRAM", "iTerm.app"),
                ("TERM_PROGRAM_VERSION", "3.5.9")
            ],
            &[],
            true
        ),
        3
    );
    assert_eq!(
        level(
            &[
                ("TERM_PROGRAM", "iTerm.app"),
                ("TERM_PROGRAM_VERSION", "2.1")
            ],
            &[],
            true
        ),
        2
    );
    assert_eq!(level(&[("TERM_PROGRAM", "Apple_Terminal")], &[], true), 2);
    assert_eq!(level(&[("TERM", "xterm-256color")], &[], true), 2);
    assert_eq!(level(&[("TERM", "screen-256")], &[], true), 2);
    assert_eq!(level(&[("TERM", "xterm")], &[], true), 1);
    assert_eq!(level(&[("TERM", "vt220")], &[], true), 1);
    assert_eq!(level(&[("COLORTERM", "1")], &[], true), 1);
    assert_eq!(level(&[], &[], true), 0);
}

#[test]
fn ci_detection() {
    assert_eq!(level(&[("CI", "1"), ("GITHUB_ACTIONS", "1")], &[], true), 3);
    assert_eq!(level(&[("CI", "1"), ("TRAVIS", "1")], &[], true), 1);
    assert_eq!(level(&[("CI", "1"), ("CI_NAME", "codeship")], &[], true), 1);
    assert_eq!(level(&[("CI", "1")], &[], true), 0);
    assert_eq!(
        level(&[("TF_BUILD", "1"), ("AGENT_NAME", "x")], &[], false),
        1
    );
    assert_eq!(
        level(&[("CI", "1"), ("GITHUB_ACTIONS", "1")], &[], false),
        0
    );
}

#[test]
fn teamcity_version_gate() {
    assert_eq!(level(&[("TEAMCITY_VERSION", "9.1.5")], &[], true), 1);
    assert_eq!(level(&[("TEAMCITY_VERSION", "9.0.3")], &[], true), 0);
    assert_eq!(level(&[("TEAMCITY_VERSION", "2023.11")], &[], true), 1);
    assert_eq!(level(&[("TEAMCITY_VERSION", "8.1")], &[], true), 0);
}

#[test]
fn vscode_boost_requires_exactly_level_two() {
    assert_eq!(
        level(
            &[("TERM", "xterm-256color"), ("TERM_PROGRAM", "vscode")],
            &[],
            true
        ),
        3
    );
    assert_eq!(
        level(
            &[("FORCE_COLOR", "0"), ("TERM_PROGRAM", "vscode")],
            &[],
            true
        ),
        0
    );
}

#[test]
fn tmux_clamps_truecolor_after_boost() {
    assert_eq!(
        level(
            &[
                ("COLORTERM", "truecolor"),
                ("TMUX", "/tmp/tmux-1000/default,123,0")
            ],
            &[],
            true
        ),
        2
    );
    assert_eq!(
        level(
            &[
                ("COLORTERM", "truecolor"),
                ("TMUX", "/tmp/x"),
                ("CLAUDE_CODE_TMUX_TRUECOLOR", "1")
            ],
            &[],
            true
        ),
        3
    );
    assert_eq!(
        level(
            &[
                ("TERM", "xterm-256color"),
                ("TERM_PROGRAM", "vscode"),
                ("TMUX", "/tmp/x")
            ],
            &[],
            true
        ),
        2
    );
}

#[test]
fn flags_take_one_dash_or_two() {
    let args = strings(&["-c", "--color", "--", "--late"]);
    assert!(has_flag(&args, "c"));
    assert!(has_flag(&args, "color"));
    assert!(has_flag(&args, "--color"));
    assert!(!has_flag(&args, "late"));
    assert!(!has_flag(&args, "colors"));
}

#[test]
fn numbers_are_read_up_to_the_first_other_character() {
    assert_eq!(js_parse_int("  42px"), Some(42));
    assert_eq!(js_parse_int("\u{feff}-7"), Some(-7));
    assert_eq!(js_parse_int("+3.9"), Some(3));
    assert_eq!(js_parse_int("px"), None);
    assert_eq!(js_parse_int(""), None);
    assert_eq!(js_parse_int("-"), None);
    assert_eq!(js_parse_int("99999999999999999999"), Some(i64::MAX));
    assert_eq!(js_parse_int("-99999999999999999999"), Some(i64::MIN));
    assert_eq!(js_parse_int("\u{feff}\u{2028}\u{3000}7"), Some(7));
    assert_eq!(js_parse_int("\u{85}7"), None);
}

#[test]
fn forced_levels_are_read_from_the_environment() {
    assert_eq!(env_force_color(&env(&[])), None);
    assert_eq!(env_force_color(&env(&[("FORCE_COLOR", "2")])), Some(2));
    assert_eq!(env_force_color(&env(&[("FORCE_COLOR", "99999999999999999999")])), Some(3));
    assert_eq!(env_force_color(&env(&[("FORCE_COLOR", "-1")])), None);
    assert_eq!(env_force_color(&env(&[("FORCE_COLOR", "banana")])), None);
}

#[test]
fn teamcity_versions_with_colors() {
    assert!(teamcity_supports_color("9.01."));
    assert!(teamcity_supports_color("9.99999999999999999999.2"));
    assert!(teamcity_supports_color("10.0"));
    assert!(teamcity_supports_color("2023."));
    assert!(!teamcity_supports_color("9.00.1"));
    assert!(!teamcity_supports_color("9.1"));
    assert!(!teamcity_supports_color("2023"));
    assert!(!teamcity_supports_color("9"));
    assert!(!teamcity_supports_color("9..1"));
    assert!(!teamcity_supports_color("9.x.1"));
    assert!(!teamcity_supports_color("9.+1.1"));
    assert!(!teamcity_supports_color("2x.1"));
    assert!(!teamcity_supports_color(""));
}

#[test]
fn windows_terminals_have_truecolor() {
    let none = Vec::new();
    assert_eq!(supports_color_base(&Env::new(), &none, true, None, true), 3);
    assert_eq!(supports_color_base(&Env::new(), &none, false, None, true), 0);
    let dumb = env(&[("TERM", "dumb")]);
    assert_eq!(supports_color_base(&dumb, &none, true, None, true), 0);
    assert_eq!(supports_color_base(&dumb, &none, true, Some(1), true), 1);
}

#[test]
fn variables_that_are_not_unicode_are_not_read() {
    let mut vars = Env::new();
    vars.set_non_unicode("COLORTERM");
    vars.set_non_unicode("FORCE_COLOR");
    assert_eq!(detect_with_env(&vars, &Vec::new(), true, false), 0);
}

#[test]
fn streams_have_levels_of_their_own() {
    let vars = env(&[("TERM", "xterm-256color")]);
    let mut levels = Levels::detect(&vars, &Vec::new(), true, false, false);
    assert_eq!(stdout_level(&levels), 2);
    assert_eq!(stderr_level(&levels), 0);
    set_stderr_level(&mut levels, 200);
    set_stdout_level(&mut levels, 1);
    assert_eq!(stdout_level(&levels), 1);
    assert_eq!(stderr_level(&levels), 3);
    assert_eq!(Chalk::new(&levels).level(), 1);
    assert_eq!(Chalk::stderr(&levels).level(), 3);
}
