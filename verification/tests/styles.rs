//! Color conversions.
use iocraft::chalk::{ansi256_to_ansi, hex_to_rgb, rgb_to_ansi, rgb_to_ansi256};

#[test]
fn rgb_to_ansi256_matches_color_convert_oracle() {
    assert_eq!(rgb_to_ansi256(0, 0, 0), 16);
    assert_eq!(rgb_to_ansi256(255, 255, 255), 231);
    assert_eq!(rgb_to_ansi256(128, 128, 128), 244);
    assert_eq!(rgb_to_ansi256(255, 0, 0), 196);
    assert_eq!(rgb_to_ansi256(0, 255, 0), 46);
    assert_eq!(rgb_to_ansi256(0, 0, 255), 21);
    assert_eq!(rgb_to_ansi256(215, 119, 87), 174);
}

#[test]
fn ansi256_to_ansi_matches_oracle() {
    assert_eq!(ansi256_to_ansi(1), 31);
    assert_eq!(ansi256_to_ansi(9), 91);
    assert_eq!(ansi256_to_ansi(196), 91);
    assert_eq!(ansi256_to_ansi(16), 30);
    assert_eq!(ansi256_to_ansi(232), 30);
    assert_eq!(ansi256_to_ansi(255), 37);
    assert_eq!(ansi256_to_ansi(231), 97);
    assert_eq!(ansi256_to_ansi(240), 30);
}

#[test]
fn hex_parsing_matches_oracle() {
    assert_eq!(hex_to_rgb("#ff0000"), (255, 0, 0));
    assert_eq!(hex_to_rgb("00ff00"), (0, 255, 0));
    assert_eq!(hex_to_rgb("#f0a"), (255, 0, 170));
    assert_eq!(hex_to_rgb("nope"), (0, 0, 0));
    assert_eq!(hex_to_rgb("0xFF00FF"), (255, 0, 255));
    assert_eq!(hex_to_rgb("#abcdef12"), (171, 205, 239));
    assert_eq!(hex_to_rgb("zzab12cd34"), (171, 18, 205));
    assert_eq!(hex_to_rgb("12x345"), (51, 68, 85));
    assert_eq!(hex_to_rgb("ab"), (0, 0, 0));
}

#[test]
fn truecolors_collapse_by_way_of_the_palette() {
    for (r, g, b) in [(215, 119, 87), (0, 0, 0), (8, 8, 8), (249, 249, 249), (1, 2, 250)] {
        assert_eq!(rgb_to_ansi(r, g, b), ansi256_to_ansi(rgb_to_ansi256(r, g, b)));
    }
    assert_eq!(rgb_to_ansi(255, 0, 0), 91);
    assert_eq!(rgb_to_ansi(8, 8, 8), 30);
}

#[test]
fn conversions_stay_in_their_palettes() {
    for r in 0..=255u8 {
        for (g, b) in [(r, r), (0, 255), (100, r)] {
            assert!(rgb_to_ansi256(r, g, b) >= 16);
        }
        let code = ansi256_to_ansi(r);
        assert!((30..=37).contains(&code) || (90..=97).contains(&code));
    }
    assert_eq!(rgb_to_ansi256(8, 8, 8), 232);
    assert_eq!(rgb_to_ansi256(248, 248, 248), 255);
}

#[test]
fn hexadecimal_runs_are_found_among_other_characters() {
    assert_eq!(hex_to_rgb("é#A1b2C3é"), (0xa1, 0xb2, 0xc3));
    assert_eq!(hex_to_rgb("abcde"), (0xaa, 0xbb, 0xcc));
    assert_eq!(hex_to_rgb(""), (0, 0, 0));
    assert_eq!(hex_to_rgb("xfffffx"), (0xff, 0xff, 0xff));
}
