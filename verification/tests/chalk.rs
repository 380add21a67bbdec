//! String styling.
use iocraft::chalk::{
    blue, bold, cyan, dim, encase_line_breaks, gray, green, inverse, italic, magenta, red,
    set_stdout_level, strikethrough, underline, yellow, Chalk, Levels, NamedColor,
};
use iocraft::env::Env;
use iocraft::strip_ansi::strip_ansi;

fn c() -> Chalk {
    Chalk::with_level(3)
}

#[test]
fn style_string() {
    assert_eq!(c().underline().apply("foo"), "\u{1b}[4mfoo\u{1b}[24m");
    assert_eq!(c().red().apply("foo"), "\u{1b}[31mfoo\u{1b}[39m");
    assert_eq!(
        c().bg_color(NamedColor::Red).apply("foo"),
        "\u{1b}[41mfoo\u{1b}[49m"
    );
}

#[test]
fn multiple_styles_at_once() {
    assert_eq!(
        c().red()
            .bg_color(NamedColor::Green)
            .underline()
            .apply("foo"),
        "\u{1b}[31m\u{1b}[42m\u{1b}[4mfoo\u{1b}[24m\u{1b}[49m\u{1b}[39m"
    );
    assert_eq!(
        c().underline()
            .red()
            .bg_color(NamedColor::Green)
            .apply("foo"),
        "\u{1b}[4m\u{1b}[31m\u{1b}[42mfoo\u{1b}[49m\u{1b}[39m\u{1b}[24m"
    );
}

#[test]
fn nesting_styles() {
    let inner = c().underline().bg_color(NamedColor::Blue).apply("bar");
    assert_eq!(
        c().red().apply(&format!("foo{inner}!")),
        "\u{1b}[31mfoo\u{1b}[4m\u{1b}[44mbar\u{1b}[49m\u{1b}[24m!\u{1b}[39m"
    );
}

#[test]
fn nesting_same_type() {
    let inner = c().green().apply("c");
    let nested = c().yellow().apply(&format!("b{inner}b"));
    assert_eq!(
        c().red().apply(&format!("a{nested}c")),
        "\u{1b}[31ma\u{1b}[33mb\u{1b}[32mc\u{1b}[39m\u{1b}[31m\u{1b}[33mb\u{1b}[39m\u{1b}[31mc\u{1b}[39m"
    );
}

#[test]
fn reset_all_styles() {
    let styled = c()
        .red()
        .bg_color(NamedColor::Green)
        .underline()
        .apply("foo");
    assert_eq!(
        c().reset().apply(&format!("{styled}foo")),
        "\u{1b}[0m\u{1b}[31m\u{1b}[42m\u{1b}[4mfoo\u{1b}[24m\u{1b}[49m\u{1b}[39mfoo\u{1b}[0m"
    );
}

#[test]
fn gray_is_black_bright() {
    assert_eq!(c().gray().apply("foo"), "\u{1b}[90mfoo\u{1b}[39m");
    assert_eq!(
        c().color(NamedColor::BlackBright).apply("foo"),
        "\u{1b}[90mfoo\u{1b}[39m"
    );
}

#[test]
fn empty_input_yields_empty() {
    assert_eq!(c().red().apply(""), "");
    assert_eq!(c().red().blue().black().apply(""), "");
}

#[test]
fn linebreaks_open_and_close_colors() {
    assert_eq!(
        c().gray().apply("hello\nworld"),
        "\u{1b}[90mhello\u{1b}[39m\n\u{1b}[90mworld\u{1b}[39m"
    );
    assert_eq!(
        c().gray().apply("hello\r\nworld"),
        "\u{1b}[90mhello\u{1b}[39m\r\n\u{1b}[90mworld\u{1b}[39m"
    );
}

#[test]
fn rgb_to_16_on_level_one() {
    assert_eq!(
        Chalk::with_level(1).rgb(255, 0, 0).apply("hello"),
        "\u{1b}[91mhello\u{1b}[39m"
    );
    assert_eq!(
        Chalk::with_level(1).bg_rgb(255, 0, 0).apply("hello"),
        "\u{1b}[101mhello\u{1b}[49m"
    );
    assert_eq!(
        Chalk::with_level(1).hex("#FF0000").apply("hello"),
        "\u{1b}[91mhello\u{1b}[39m"
    );
    assert_eq!(
        Chalk::with_level(1).bg_hex("#FF0000").apply("hello"),
        "\u{1b}[101mhello\u{1b}[49m"
    );
}

#[test]
fn rgb_to_256_and_truecolor() {
    assert_eq!(
        Chalk::with_level(2).rgb(255, 0, 0).apply("hello"),
        "\u{1b}[38;5;196mhello\u{1b}[39m"
    );
    assert_eq!(
        Chalk::with_level(2).bg_rgb(255, 0, 0).apply("hello"),
        "\u{1b}[48;5;196mhello\u{1b}[49m"
    );
    assert_eq!(
        Chalk::with_level(3).rgb(255, 0, 0).apply("hello"),
        "\u{1b}[38;2;255;0;0mhello\u{1b}[39m"
    );
    assert_eq!(
        Chalk::with_level(3).bg_rgb(255, 0, 0).apply("hello"),
        "\u{1b}[48;2;255;0;0mhello\u{1b}[49m"
    );
    assert_eq!(
        Chalk::with_level(2).hex("#FF0000").apply("hello"),
        "\u{1b}[38;5;196mhello\u{1b}[39m"
    );
    assert_eq!(
        Chalk::with_level(2).bg_hex("#FF0000").apply("hello"),
        "\u{1b}[48;5;196mhello\u{1b}[49m"
    );
    assert_eq!(
        Chalk::with_level(3).bg_hex("#FF0000").apply("hello"),
        "\u{1b}[48;2;255;0;0mhello\u{1b}[49m"
    );
}

#[test]
fn ansi256_to_16_on_level_one() {
    let l1 = || Chalk::with_level(1);
    assert_eq!(
        l1().ansi256(196).apply("hello"),
        "\u{1b}[91mhello\u{1b}[39m"
    );
    assert_eq!(
        l1().bg_ansi256(196).apply("hello"),
        "\u{1b}[101mhello\u{1b}[49m"
    );
    assert_eq!(l1().ansi256(2).apply("hello"), "\u{1b}[32mhello\u{1b}[39m");
    assert_eq!(
        l1().bg_ansi256(2).apply("hello"),
        "\u{1b}[42mhello\u{1b}[49m"
    );
    assert_eq!(l1().ansi256(8).apply("hello"), "\u{1b}[90mhello\u{1b}[39m");
    assert_eq!(
        l1().ansi256(232).apply("hello"),
        "\u{1b}[30mhello\u{1b}[39m"
    );
    assert_eq!(
        l1().ansi256(255).apply("hello"),
        "\u{1b}[37mhello\u{1b}[39m"
    );
}

#[test]
fn ansi256_kept_at_higher_levels() {
    for level in [2u8, 3] {
        assert_eq!(
            Chalk::with_level(level).ansi256(196).apply("hello"),
            "\u{1b}[38;5;196mhello\u{1b}[39m"
        );
        assert_eq!(
            Chalk::with_level(level).bg_ansi256(196).apply("hello"),
            "\u{1b}[48;5;196mhello\u{1b}[49m"
        );
    }
}

#[test]
fn level_zero_emits_nothing() {
    let l0 = || Chalk::with_level(0);
    assert_eq!(l0().hex("#FF0000").apply("hello"), "hello");
    assert_eq!(l0().bg_hex("#FF0000").apply("hello"), "hello");
    assert_eq!(l0().ansi256(196).apply("hello"), "hello");
    assert_eq!(l0().bg_ansi256(196).apply("hello"), "hello");
    assert_eq!(l0().underline_hex("#FF0000").apply("hello"), "hello");
    assert_eq!(l0().underline_ansi256(196).apply("hello"), "hello");
    assert_eq!(
        l0().underline_color(NamedColor::Red).apply("hello"),
        "hello"
    );
    assert_eq!(l0().underline_curly().apply("hello"), "hello");
}

#[test]
fn extended_underline_styles() {
    assert_eq!(
        c().underline_double().apply("foo"),
        "\u{1b}[4:2mfoo\u{1b}[24m"
    );
    assert_eq!(
        c().underline_curly().apply("foo"),
        "\u{1b}[4:3mfoo\u{1b}[24m"
    );
    assert_eq!(
        c().underline_dotted().apply("foo"),
        "\u{1b}[4:4mfoo\u{1b}[24m"
    );
    assert_eq!(
        c().underline_dashed().apply("foo"),
        "\u{1b}[4:5mfoo\u{1b}[24m"
    );
}

#[test]
fn nesting_underline_styles() {
    let inner = c().underline_curly().apply("a");
    assert_eq!(
        c().underline().apply(&format!("{inner}b")),
        "\u{1b}[4m\u{1b}[4:3ma\u{1b}[24m\u{1b}[4mb\u{1b}[24m"
    );
    let inner = c().underline().apply("a");
    assert_eq!(
        c().underline_curly().apply(&format!("{inner}b")),
        "\u{1b}[4:3m\u{1b}[4ma\u{1b}[24m\u{1b}[4:3mb\u{1b}[24m"
    );
}

#[test]
fn underline_colors() {
    assert_eq!(
        c().underline_color(NamedColor::Red).apply("foo"),
        "\u{1b}[58;5;1mfoo\u{1b}[59m"
    );
    assert_eq!(
        c().underline_color(NamedColor::BlackBright).apply("foo"),
        "\u{1b}[58;5;8mfoo\u{1b}[59m"
    );
    assert_eq!(
        c().red()
            .underline_color(NamedColor::Red)
            .underline_curly()
            .apply("foo"),
        "\u{1b}[31m\u{1b}[58;5;1m\u{1b}[4:3mfoo\u{1b}[24m\u{1b}[59m\u{1b}[39m"
    );
}

#[test]
fn nesting_underline_colors() {
    let inner = c().underline_color(NamedColor::Red).apply("a");
    assert_eq!(
        c().underline_color(NamedColor::Blue)
            .apply(&format!("{inner}b")),
        "\u{1b}[58;5;4m\u{1b}[58;5;1ma\u{1b}[59m\u{1b}[58;5;4mb\u{1b}[59m"
    );
}

#[test]
fn downsample_underline_colors() {
    assert_eq!(
        Chalk::with_level(3).underline_rgb(255, 0, 0).apply("hello"),
        "\u{1b}[58;2;255;0;0mhello\u{1b}[59m"
    );
    assert_eq!(
        Chalk::with_level(2).underline_rgb(255, 0, 0).apply("hello"),
        "\u{1b}[58;5;196mhello\u{1b}[59m"
    );
    assert_eq!(
        Chalk::with_level(1).underline_rgb(255, 0, 0).apply("hello"),
        "\u{1b}[58;5;9mhello\u{1b}[59m"
    );
    assert_eq!(
        Chalk::with_level(3).underline_hex("#FF0000").apply("hello"),
        "\u{1b}[58;2;255;0;0mhello\u{1b}[59m"
    );
    assert_eq!(
        Chalk::with_level(2).underline_hex("#FF0000").apply("hello"),
        "\u{1b}[58;5;196mhello\u{1b}[59m"
    );
    assert_eq!(
        Chalk::with_level(1).underline_hex("#FF0000").apply("hello"),
        "\u{1b}[58;5;9mhello\u{1b}[59m"
    );
    assert_eq!(
        Chalk::with_level(3).underline_ansi256(196).apply("hello"),
        "\u{1b}[58;5;196mhello\u{1b}[59m"
    );
    assert_eq!(
        Chalk::with_level(2).underline_ansi256(196).apply("hello"),
        "\u{1b}[58;5;196mhello\u{1b}[59m"
    );
    assert_eq!(
        Chalk::with_level(1).underline_ansi256(196).apply("hello"),
        "\u{1b}[58;5;9mhello\u{1b}[59m"
    );
    assert_eq!(
        Chalk::with_level(1).underline_ansi256(2).apply("hello"),
        "\u{1b}[58;5;2mhello\u{1b}[59m"
    );
    assert_eq!(
        Chalk::with_level(1).underline_ansi256(232).apply("hello"),
        "\u{1b}[58;5;0mhello\u{1b}[59m"
    );
    assert_eq!(
        Chalk::with_level(1)
            .underline_color(NamedColor::Red)
            .apply("hello"),
        "\u{1b}[58;5;1mhello\u{1b}[59m"
    );
    assert_eq!(
        Chalk::with_level(2)
            .underline_color(NamedColor::Red)
            .apply("hello"),
        "\u{1b}[58;5;1mhello\u{1b}[59m"
    );
}

#[test]
fn stderr_instance_respects_level() {
    let chalk_stderr = Chalk::with_level(3);
    assert_eq!(
        chalk_stderr.red().bold().apply("foo"),
        "\u{1b}[31m\u{1b}[1mfoo\u{1b}[22m\u{1b}[39m"
    );
}


#[test]
fn visible_normal_output_when_colored() {
    assert_eq!(
        Chalk::with_level(3).visible().red().apply("foo"),
        "\u{1b}[31mfoo\u{1b}[39m"
    );
    assert_eq!(
        Chalk::with_level(3).red().visible().apply("foo"),
        "\u{1b}[31mfoo\u{1b}[39m"
    );
}

#[test]
fn visible_empty_when_disabled() {
    assert_eq!(Chalk::with_level(0).visible().red().apply("foo"), "");
    assert_eq!(Chalk::with_level(0).red().visible().apply("foo"), "");
    assert_eq!(Chalk::with_level(3).visible().apply("foo"), "foo");
    assert_eq!(Chalk::with_level(0).visible().apply("foo"), "");
}


#[test]
fn isolated_instances() {
    assert_eq!(Chalk::with_level(0).red().apply("foo"), "foo");
    assert_eq!(
        Chalk::with_level(1).red().apply("foo"),
        "\u{1b}[31mfoo\u{1b}[39m"
    );
    assert_eq!(
        Chalk::with_level(2).red().apply("foo"),
        "\u{1b}[31mfoo\u{1b}[39m"
    );
}

#[test]
fn level_clamps_above_three() {
    assert_eq!(Chalk::with_level(10).level(), 3);
}

#[test]
fn model_styles_follow_level() {
    assert_eq!(
        Chalk::with_level(3).rgb(255, 0, 0).apply("foo"),
        "\u{1b}[38;2;255;0;0mfoo\u{1b}[39m"
    );
    assert_eq!(
        Chalk::with_level(1).rgb(255, 0, 0).apply("foo"),
        "\u{1b}[91mfoo\u{1b}[39m"
    );
    assert_eq!(Chalk::with_level(0).rgb(255, 0, 0).apply("foo"), "foo");
    assert_eq!(
        Chalk::with_level(3).bold().rgb(255, 0, 0).apply("foo"),
        "\u{1b}[1m\u{1b}[38;2;255;0;0mfoo\u{1b}[39m\u{1b}[22m"
    );
    assert_eq!(
        Chalk::with_level(1).bold().rgb(255, 0, 0).apply("foo"),
        "\u{1b}[1m\u{1b}[91mfoo\u{1b}[39m\u{1b}[22m"
    );
}


#[test]
fn helper_functions_pass_through_without_styles() {
    let levels = Levels::detect(&Env::new(), &Vec::new(), false, false, false);
    assert!(bold(&levels, "x").contains('x'));
    assert!(yellow(&levels, "y").contains('y'));
}

fn plain(text: &str) -> String {
    strip_ansi(text)
}

#[test]
fn styling_keeps_the_text() {
    let inner = c().red().underline_curly().apply("b\nc");
    let nested = c().bold().hex("#123").apply(&format!("a{inner}d\r\n"));
    assert_eq!(plain(&nested), "ab\ncd\r\n");
}

#[test]
fn lines_are_styled_apart() {
    let style = || c().bold().red();
    assert_eq!(
        style().apply("a\nb"),
        format!("{}\n{}", style().apply("a"), style().apply("b"))
    );
}

#[test]
fn carriage_returns_stay_with_their_line_feed() {
    assert_eq!(encase_line_breaks("a\r\r\nb\rc\n", "<", ">"), "a\r<\r\n>b\rc<\n>");
    assert_eq!(encase_line_breaks("", "<", ">"), "");
}

#[test]
fn every_modifier_has_its_codes() {
    assert_eq!(c().dim().apply("x"), "\u{1b}[2mx\u{1b}[22m");
    assert_eq!(c().italic().apply("x"), "\u{1b}[3mx\u{1b}[23m");
    assert_eq!(c().overline().apply("x"), "\u{1b}[53mx\u{1b}[55m");
    assert_eq!(c().inverse().apply("x"), "\u{1b}[7mx\u{1b}[27m");
    assert_eq!(c().hidden().apply("x"), "\u{1b}[8mx\u{1b}[28m");
    assert_eq!(c().strikethrough().apply("x"), "\u{1b}[9mx\u{1b}[29m");
}

#[test]
fn every_named_color_has_its_code() {
    assert_eq!(c().black().apply("x"), "\u{1b}[30mx\u{1b}[39m");
    assert_eq!(c().green().apply("x"), "\u{1b}[32mx\u{1b}[39m");
    assert_eq!(c().yellow().apply("x"), "\u{1b}[33mx\u{1b}[39m");
    assert_eq!(c().blue().apply("x"), "\u{1b}[34mx\u{1b}[39m");
    assert_eq!(c().magenta().apply("x"), "\u{1b}[35mx\u{1b}[39m");
    assert_eq!(c().cyan().apply("x"), "\u{1b}[36mx\u{1b}[39m");
    assert_eq!(c().white().apply("x"), "\u{1b}[37mx\u{1b}[39m");
}

#[test]
fn helpers_use_the_level_of_standard_output() {
    let mut levels = Levels::detect(&Env::new(), &Vec::new(), false, false, false);
    assert_eq!(bold(&levels, "x"), "x");
    set_stdout_level(&mut levels, 1);
    assert_eq!(bold(&levels, "x"), "\u{1b}[1mx\u{1b}[22m");
    assert_eq!(dim(&levels, "x"), "\u{1b}[2mx\u{1b}[22m");
    assert_eq!(italic(&levels, "x"), "\u{1b}[3mx\u{1b}[23m");
    assert_eq!(underline(&levels, "x"), "\u{1b}[4mx\u{1b}[24m");
    assert_eq!(inverse(&levels, "x"), "\u{1b}[7mx\u{1b}[27m");
    assert_eq!(strikethrough(&levels, "x"), "\u{1b}[9mx\u{1b}[29m");
    assert_eq!(red(&levels, "x"), "\u{1b}[31mx\u{1b}[39m");
    assert_eq!(green(&levels, "x"), "\u{1b}[32mx\u{1b}[39m");
    assert_eq!(yellow(&levels, "x"), "\u{1b}[33mx\u{1b}[39m");
    assert_eq!(blue(&levels, "x"), "\u{1b}[34mx\u{1b}[39m");
    assert_eq!(cyan(&levels, "x"), "\u{1b}[36mx\u{1b}[39m");
    assert_eq!(magenta(&levels, "x"), "\u{1b}[35mx\u{1b}[39m");
    assert_eq!(gray(&levels, "x"), "\u{1b}[90mx\u{1b}[39m");
}

#[test]
fn a_clone_styles_alike() {
    let style = c().bold().visible().red();
    assert_eq!(style.clone(), style);
    assert_eq!(style.clone().apply("x"), style.apply("x"));
}
