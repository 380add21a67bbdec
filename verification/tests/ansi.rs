//! Escape sequences.
use iocraft::ansi::ColorChannel::{Background, Foreground, Underline};
use iocraft::ansi::{
    ansi16_code, base36_u32, current_multiplexer_passthrough, erase_to_eol, hyperlink_close,
    hyperlink_open, osc52_clipboard, osc52_clipboard_for_multiplexer, osc52_clipboard_sequence,
    osc52_clipboard_sequence_for_multiplexer, osc52_clipboard_sequence_with_kitty, osc8_id,
    osc_sequence, render_color_level, sanitize_hyperlink_href, sanitize_osc_payload, sgr_attr,
    sgr_bg, sgr_color, sgr_fg, sgr_reset, sgr_underline_color, styles_enabled,
    supports_hyperlinks, supports_hyperlinks_base_stdout, supports_hyperlinks_with_env,
    terminal_title, wrap_for_current_multiplexer_sequence, wrap_for_multiplexer_sequence,
    Attribute, ColorChannel, MultiplexerPassthrough,
};
use iocraft::base64::base64_encode;
use iocraft::chalk::{set_stdout_level, Chalk, Levels};
use iocraft::env::Env;
use iocraft::style::Color;

fn env(pairs: &[(&str, &str)]) -> Env {
    let mut env = Env::new();
    for (name, value) in pairs {
        env.set(name, value);
    }
    env
}

fn supports_hyperlinks_env(pairs: &[(&str, &str)], stdout_supported: bool) -> bool {
    supports_hyperlinks_with_env(&env(pairs), stdout_supported)
}

fn sgr_bytes(color: Color, channel: ColorChannel, level: u8) -> String {
    let mut out = String::new();
    sgr_color(&mut out, color, channel, level);
    out
}

#[test]
fn supports_hyperlinks_matches_cc_extra_terminal_allowlist() {
    assert!(supports_hyperlinks_env(&[], true));
    assert!(supports_hyperlinks_env(
        &[("TERM_PROGRAM", "ghostty")],
        false
    ));
    assert!(supports_hyperlinks_env(&[("TERM_PROGRAM", "kitty")], false));
    assert!(supports_hyperlinks_env(&[("LC_TERMINAL", "iTerm2")], false));
    assert!(supports_hyperlinks_env(&[("TERM", "xterm-kitty")], false));
    assert!(!supports_hyperlinks_env(&[("TERM_PROGRAM", "dumb")], false));
}

#[test]
fn color_encoding_matches_chalk_model_selection() {
    let orange = Color::Rgb {
        r: 215,
        g: 119,
        b: 87,
    };
    assert_eq!(sgr_bytes(orange, Foreground, 3), "\x1b[38;2;215;119;87m");
    assert_eq!(sgr_bytes(orange, Background, 3), "\x1b[48;2;215;119;87m");
    assert_eq!(sgr_bytes(orange, Foreground, 2), "\x1b[38;5;174m");
    assert_eq!(sgr_bytes(orange, Background, 2), "\x1b[48;5;174m");
    assert_eq!(sgr_bytes(orange, Foreground, 1), "\x1b[31m");
    assert_eq!(sgr_bytes(orange, Background, 1), "\x1b[41m");
}

#[test]
fn named_colors_encode_as_chalk_bare_codes() {
    let cases = [
        (Color::Black, 30, 40, 0),
        (Color::DarkRed, 31, 41, 1),
        (Color::DarkGreen, 32, 42, 2),
        (Color::DarkYellow, 33, 43, 3),
        (Color::DarkBlue, 34, 44, 4),
        (Color::DarkMagenta, 35, 45, 5),
        (Color::DarkCyan, 36, 46, 6),
        (Color::Grey, 37, 47, 7),
        (Color::DarkGrey, 90, 100, 8),
        (Color::Red, 91, 101, 9),
        (Color::Green, 92, 102, 10),
        (Color::Yellow, 93, 103, 11),
        (Color::Blue, 94, 104, 12),
        (Color::Magenta, 95, 105, 13),
        (Color::Cyan, 96, 106, 14),
        (Color::White, 97, 107, 15),
    ];
    for (color, foreground, background, palette) in cases {
        for level in 0..=3 {
            for (channel, expected) in [
                (Foreground, format!("\x1b[{foreground}m")),
                (Background, format!("\x1b[{background}m")),
                (Underline, format!("\x1b[58;5;{palette}m")),
            ] {
                assert_eq!(
                    sgr_bytes(color, channel, level),
                    if level == 0 { "" } else { &expected },
                    "{color:?}, {channel:?}, level {level}"
                );
            }
        }
    }
}

#[test]
fn ansi256_values_collapse_only_below_level_two() {
    assert_eq!(
        sgr_bytes(Color::AnsiValue(255), Foreground, 2),
        "\x1b[38;5;255m"
    );
    assert_eq!(
        sgr_bytes(Color::AnsiValue(255), Foreground, 1),
        "\x1b[37m"
    );
}

#[test]
fn underline_colors_use_chalk_v6_palette_form() {
    let orange = Color::Rgb {
        r: 215,
        g: 119,
        b: 87,
    };
    assert_eq!(
        sgr_bytes(Color::DarkRed, Underline, 3),
        "\x1b[58;5;1m"
    );
    assert_eq!(sgr_bytes(Color::Red, Underline, 3), "\x1b[58;5;9m");
    assert_eq!(sgr_bytes(orange, Underline, 3), "\x1b[58;2;215;119;87m");
    assert_eq!(sgr_bytes(orange, Underline, 2), "\x1b[58;5;174m");
}

#[test]
fn reset_uses_channel_close_codes_and_level_zero_suppresses_colors() {
    for level in 0..=3 {
        for (channel, expected) in [
            (Foreground, "\x1b[39m"),
            (Background, "\x1b[49m"),
            (Underline, "\x1b[59m"),
        ] {
            assert_eq!(
                sgr_bytes(Color::Reset, channel, level),
                if level == 0 { "" } else { expected }
            );
        }
    }
    let orange = Color::Rgb {
        r: 215,
        g: 119,
        b: 87,
    };
    assert_eq!(sgr_bytes(orange, Foreground, 0), "");
    assert_eq!(sgr_bytes(Color::Reset, Background, 0), "");
}

#[test]
fn all_palette_entries_match_bun_downgrade_oracle() {
    const ANSI16: [u8; 256] = [
        30, 31, 32, 33, 34, 35, 36, 37, 90, 91, 92, 93, 94, 95, 96, 97, 30, 30, 30, 34, 34, 94,
        30, 30, 30, 34, 34, 94, 30, 30, 30, 34, 34, 94, 32, 32, 32, 36, 36, 96, 32, 32, 32, 36,
        36, 96, 92, 92, 92, 96, 96, 96, 30, 30, 30, 34, 34, 94, 30, 30, 30, 34, 34, 94, 30, 30,
        30, 34, 34, 94, 32, 32, 32, 36, 36, 96, 32, 32, 32, 36, 36, 96, 92, 92, 92, 96, 96, 96,
        30, 30, 30, 34, 34, 94, 30, 30, 30, 34, 34, 94, 30, 30, 30, 34, 34, 94, 32, 32, 32, 36,
        36, 96, 32, 32, 32, 36, 36, 96, 92, 92, 92, 96, 96, 96, 31, 31, 31, 35, 35, 95, 31, 31,
        31, 35, 35, 95, 31, 31, 31, 35, 35, 95, 33, 33, 33, 37, 37, 97, 33, 33, 33, 37, 37, 97,
        93, 93, 93, 97, 97, 97, 31, 31, 31, 35, 35, 95, 31, 31, 31, 35, 35, 95, 31, 31, 31, 35,
        35, 95, 33, 33, 33, 37, 37, 97, 33, 33, 33, 37, 37, 97, 93, 93, 93, 97, 97, 97, 91, 91,
        91, 95, 95, 95, 91, 91, 91, 95, 95, 95, 91, 91, 91, 95, 95, 95, 93, 93, 93, 97, 97, 97,
        93, 93, 93, 97, 97, 97, 93, 93, 93, 97, 97, 97, 30, 30, 30, 30, 30, 30, 30, 30, 30, 30,
        30, 30, 37, 37, 37, 37, 37, 37, 37, 37, 37, 37, 37, 37,
    ];
    for (index, basic) in ANSI16.into_iter().enumerate() {
        for level in 0..=3 {
            let color = Color::AnsiValue(index as u8);
            let palette = if level == 1 {
                if basic < 90 {
                    basic - 30
                } else {
                    basic - 90 + 8
                }
            } else {
                index as u8
            };
            for (channel, expected) in [
                (
                    Foreground,
                    if level == 1 {
                        format!("\x1b[{basic}m")
                    } else {
                        format!("\x1b[38;5;{index}m")
                    },
                ),
                (
                    Background,
                    if level == 1 {
                        format!("\x1b[{}m", basic + 10)
                    } else {
                        format!("\x1b[48;5;{index}m")
                    },
                ),
                (Underline, format!("\x1b[58;5;{palette}m")),
            ] {
                assert_eq!(
                    sgr_bytes(color, channel, level),
                    if level == 0 { "" } else { &expected },
                    "palette {index}, {channel:?}, level {level}"
                );
            }
        }
    }
}

#[test]
fn rgb_boundaries_match_bun_downgrade_oracle() {
    let cases = [
        (0, 0, 0, 16, 30),
        (7, 7, 7, 16, 30),
        (8, 8, 8, 232, 30),
        (127, 127, 127, 244, 37),
        (128, 128, 128, 244, 37),
        (248, 248, 248, 255, 37),
        (249, 249, 249, 231, 97),
        (255, 255, 255, 231, 97),
        (255, 0, 0, 196, 91),
        (0, 255, 0, 46, 92),
        (0, 0, 255, 21, 94),
        (255, 255, 0, 226, 93),
        (0, 255, 255, 51, 96),
        (255, 0, 255, 201, 95),
        (215, 119, 87, 174, 31),
        (25, 76, 127, 24, 30),
        (26, 77, 128, 67, 34),
    ];
    for (r, g, b, palette, basic) in cases {
        let color = Color::Rgb { r, g, b };
        for level in 0..=3 {
            for (channel, prefix) in [(Foreground, 38), (Background, 48), (Underline, 58)] {
                let expected = match level {
                    0 => String::new(),
                    3 => format!("\x1b[{prefix};2;{r};{g};{b}m"),
                    2 => format!("\x1b[{prefix};5;{palette}m"),
                    _ if channel == Underline => {
                        let index = if basic < 90 {
                            basic - 30
                        } else {
                            basic - 90 + 8
                        };
                        format!("\x1b[58;5;{index}m")
                    }
                    _ => format!(
                        "\x1b[{}m",
                        basic + if channel == Background { 10 } else { 0 }
                    ),
                };
                assert_eq!(
                    sgr_bytes(color, channel, level),
                    expected,
                    "{color:?}, {channel:?}, level {level}"
                );
            }
        }
    }
}

#[test]
fn osc8_id_matches_cc_ink_hash_and_sanitizes_href() {
    assert_eq!(osc8_id("https://example.com"), "ags5vy");

    let mut output = String::new();
    hyperlink_open(&mut output, "https://safe.example/\x1b]0;owned\x07");
    assert_eq!(
        output,
        "\x1b]8;id=6cevo;https://safe.example/]0;owned\x1b\\"
    );
    assert!(!output.contains("\x1b]0;owned"));
}

#[test]
fn osc52_clipboard_sequence_base64_encodes_utf8_text() {
    assert_eq!(osc52_clipboard_sequence(""), "\x1b]52;c;\x07");
    assert_eq!(osc52_clipboard_sequence("f"), "\x1b]52;c;Zg==\x07");
    assert_eq!(osc52_clipboard_sequence("fo"), "\x1b]52;c;Zm8=\x07");
    assert_eq!(osc52_clipboard_sequence("foo"), "\x1b]52;c;Zm9v\x07");
    assert_eq!(
        osc52_clipboard_sequence("中文"),
        "\x1b]52;c;5Lit5paH\x07"
    );
}

#[test]
fn multiplexer_passthrough_wraps_clipboard_sequences() {
    let raw = "\x1b]52;c;Y29weQ==\x07";
    assert_eq!(
        wrap_for_multiplexer_sequence(raw, MultiplexerPassthrough::Tmux),
        "\x1bPtmux;\x1b\x1b]52;c;Y29weQ==\x07\x1b\\"
    );
    assert_eq!(
        wrap_for_multiplexer_sequence(raw, MultiplexerPassthrough::Screen),
        "\x1bP\x1b]52;c;Y29weQ==\x07\x1b\\"
    );
    assert_eq!(
        osc52_clipboard_sequence_for_multiplexer(
            "copy",
            MultiplexerPassthrough::Tmux,
        ),
        "\x1bPtmux;\x1b\x1b]52;c;Y29weQ==\x07\x1b\\"
    );
}

#[test]
fn terminal_title_filters_control_chars() {
    let mut output = String::new();
    terminal_title(&mut output, "safe\x1b]2;owned\x07");
    assert_eq!(output, "\x1b]0;safe]2;owned\x07");
    assert!(!output.contains("\x1b]2;owned"));
}

fn written(write: impl Fn(&mut String)) -> String {
    let mut out = String::from("<");
    write(&mut out);
    out
}

#[test]
fn fixed_sequences_are_appended() {
    assert_eq!(written(sgr_reset), "<\x1b[0m");
    assert_eq!(written(erase_to_eol), "<\x1b[K");
    assert_eq!(written(hyperlink_close), "<\x1b]8;;\x1b\\");
    assert_eq!(written(|w| osc52_clipboard(w, "f")), "<\x1b]52;c;Zg==\x07");
    assert_eq!(
        written(|w| osc52_clipboard_for_multiplexer(w, "f", MultiplexerPassthrough::Screen)),
        "<\x1bP\x1b]52;c;Zg==\x07\x1b\\"
    );
}

#[test]
fn attributes_have_their_parameters() {
    let cases = [
        (Attribute::Reset, "0"),
        (Attribute::Bold, "1"),
        (Attribute::Dim, "2"),
        (Attribute::Italic, "3"),
        (Attribute::Underlined, "4"),
        (Attribute::DoubleUnderlined, "4:2"),
        (Attribute::Undercurled, "4:3"),
        (Attribute::Underdotted, "4:4"),
        (Attribute::Underdashed, "4:5"),
        (Attribute::SlowBlink, "5"),
        (Attribute::RapidBlink, "6"),
        (Attribute::Reverse, "7"),
        (Attribute::Hidden, "8"),
        (Attribute::CrossedOut, "9"),
        (Attribute::Fraktur, "20"),
        (Attribute::NoBold, "21"),
        (Attribute::NormalIntensity, "22"),
        (Attribute::NoItalic, "23"),
        (Attribute::NoUnderline, "24"),
        (Attribute::NoBlink, "25"),
        (Attribute::NoReverse, "27"),
        (Attribute::NoHidden, "28"),
        (Attribute::NotCrossedOut, "29"),
        (Attribute::Framed, "51"),
        (Attribute::Encircled, "52"),
        (Attribute::OverLined, "53"),
        (Attribute::NotFramedOrEncircled, "54"),
        (Attribute::NotOverLined, "55"),
    ];
    for (attribute, parameter) in cases {
        assert_eq!(
            written(|w| sgr_attr(w, attribute)),
            format!("<\x1b[{parameter}m")
        );
    }
}

#[test]
fn attributes_follow_the_order_of_the_terminal_library() {
    let names: Vec<String> = crossterm::style::Attribute::iterator()
        .map(|attribute| format!("{attribute:?}"))
        .collect();
    assert_eq!(names.len(), 28);
    assert_eq!(names[Attribute::Reset.index()], format!("{:?}", Attribute::Reset));
    assert_eq!(names[Attribute::Underdashed.index()], format!("{:?}", Attribute::Underdashed));
    assert_eq!(names[Attribute::CrossedOut.index()], format!("{:?}", Attribute::CrossedOut));
    assert_eq!(names[Attribute::NotOverLined.index()], format!("{:?}", Attribute::NotOverLined));
}

#[test]
fn channels_have_their_own_writers() {
    assert_eq!(written(|w| sgr_fg(w, Color::Red, 1)), "<\x1b[91m");
    assert_eq!(written(|w| sgr_bg(w, Color::Red, 1)), "<\x1b[101m");
    assert_eq!(written(|w| sgr_underline_color(w, Color::Red, 1)), "<\x1b[58;5;9m");
    assert_eq!(written(|w| sgr_fg(w, Color::Red, 0)), "<");
    assert_eq!(ansi16_code(Color::Grey), Some(37));
    assert_eq!(ansi16_code(Color::Reset), None);
    assert_eq!(ansi16_code(Color::AnsiValue(1)), None);
}

#[test]
fn colors_are_those_of_the_styler() {
    for level in 1..=3 {
        let sequence = sgr_bytes(Color::Rgb { r: 1, g: 200, b: 77 }, Foreground, level);
        assert_eq!(
            Chalk::with_level(level).rgb(1, 200, 77).apply("x"),
            format!("{sequence}x\x1b[39m")
        );
        let sequence = sgr_bytes(Color::AnsiValue(99), Underline, level);
        assert_eq!(
            Chalk::with_level(level).underline_ansi256(99).apply("x"),
            format!("{sequence}x\x1b[59m")
        );
    }
}

#[test]
fn output_off_the_terminal_keeps_full_fidelity() {
    let mut levels = Levels::detect(&Env::new(), &Vec::new(), true, true, false);
    assert_eq!(render_color_level(&levels, true), 0);
    assert_eq!(render_color_level(&levels, false), 3);
    assert!(!styles_enabled(&levels, true));
    assert!(styles_enabled(&levels, false));
    set_stdout_level(&mut levels, 2);
    assert_eq!(render_color_level(&levels, true), 2);
    assert!(styles_enabled(&levels, true));
}

#[test]
fn sanitizers_drop_control_characters() {
    assert_eq!(sanitize_hyperlink_href("a\tb\u{7f}c\u{9b}d é"), "abcd é");
    assert_eq!(sanitize_osc_payload("a\tb\n\x1b\x07c\u{9c}"), "a\tb\nc");
    let once = sanitize_osc_payload("x\x1b]0;y\x07");
    assert_eq!(sanitize_osc_payload(&once), once);
}

#[test]
fn identifiers_are_in_base_36() {
    assert_eq!(base36_u32(0), "0");
    assert_eq!(base36_u32(35), "z");
    assert_eq!(base36_u32(36), "10");
    assert_eq!(base36_u32(u32::MAX), "1z141z3");
    assert_eq!(osc8_id(""), "0");
    assert_eq!(osc8_id("a"), "2p");
}

#[test]
fn stdout_support_for_hyperlinks() {
    let base = |pairs: &[(&str, &str)], tty: bool| supports_hyperlinks_base_stdout(&env(pairs), tty);
    assert!(base(&[("FORCE_HYPERLINK", "1")], false));
    assert!(base(&[("FORCE_HYPERLINK", "")], false));
    assert!(!base(&[("FORCE_HYPERLINK", "0")], false));
    assert!(base(&[("NETLIFY", "true")], false));
    assert!(!base(&[("NETLIFY", "")], false));
    assert!(base(&[("WT_SESSION", "")], true));
    assert!(!base(&[("WT_SESSION", "x")], false));
    for term in ["iTerm.app", "WezTerm", "vscode", "ghostty", "zed"] {
        assert!(base(&[("TERM_PROGRAM", term)], true));
        assert!(!base(&[("TERM_PROGRAM", term)], false));
    }
    assert!(base(&[("TERM", "alacritty")], true));
    assert!(base(&[("TERM", "xterm-kitty")], true));
    assert!(!base(&[("TERM", "xterm")], true));
    assert!(base(&[("VTE_VERSION", "5000")], true));
    assert!(base(&[("VTE_VERSION", "+6003")], true));
    assert!(!base(&[("VTE_VERSION", "4999")], true));
    assert!(!base(&[("VTE_VERSION", "4294967296")], true));
    assert!(!base(&[("VTE_VERSION", "6003x")], true));
    assert!(!base(&[("VTE_VERSION", "")], true));
    let mut other = Env::new();
    other.set_non_unicode("WT_SESSION");
    assert!(supports_hyperlinks_base_stdout(&other, true));
}

#[test]
fn hyperlinks_are_shown_where_either_probe_says_so() {
    assert!(supports_hyperlinks(&env(&[("TERM_PROGRAM", "vscode")]), true));
    assert!(!supports_hyperlinks(&env(&[("TERM_PROGRAM", "vscode")]), false));
    assert!(supports_hyperlinks(&env(&[("TERM_PROGRAM", "Hyper")]), false));
}

#[test]
fn multiplexers_are_read_from_the_environment() {
    assert_eq!(
        current_multiplexer_passthrough(&env(&[("TMUX", "x"), ("STY", "y")])),
        MultiplexerPassthrough::Tmux
    );
    assert_eq!(
        current_multiplexer_passthrough(&env(&[("TMUX", ""), ("STY", "y")])),
        MultiplexerPassthrough::Screen
    );
    assert_eq!(current_multiplexer_passthrough(&env(&[])), MultiplexerPassthrough::Direct);
    assert_eq!(
        wrap_for_current_multiplexer_sequence("\x1b]9;x\x07", &env(&[("TMUX", "x")])),
        "\x1bPtmux;\x1b\x1b]9;x\x07\x1b\\"
    );
    assert_eq!(
        wrap_for_multiplexer_sequence("\x1b[0m", MultiplexerPassthrough::Direct),
        "\x1b[0m"
    );
}

#[test]
fn commands_end_with_a_bell_except_on_kitty() {
    let parts = vec!["9".to_string(), "4".to_string(), "x".to_string()];
    assert_eq!(osc_sequence(&parts, &env(&[])), "\x1b]9;4;x\x07");
    assert_eq!(osc_sequence(&parts, &env(&[("TERM", "xterm-kitty")])), "\x1b]9;4;x\x1b\\");
    assert_eq!(osc_sequence(&parts, &env(&[("KITTY_WINDOW_ID", "")])), "\x1b]9;4;x\x1b\\");
    assert_eq!(osc_sequence(&Vec::new(), &env(&[])), "\x1b]\x07");
    assert_eq!(osc52_clipboard_sequence_with_kitty("f", true), "\x1b]52;c;Zg==\x1b\\");
}

#[test]
fn base64_uses_the_whole_alphabet() {
    assert_eq!(base64_encode(&[0, 16, 131, 16, 81, 135]), "ABCDEFGH");
    assert_eq!(base64_encode(&[251, 239, 190]), "++++");
    assert_eq!(base64_encode(&[255, 255, 255, 255]), "/////w==");
    assert_eq!(base64_encode(&[]), "");
}
