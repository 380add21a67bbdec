//! Terminal string styling with color-level detection and automatic
//! color-space downgrade.
//!
//! A [`Chalk`] collects styles, and [`Chalk::apply`] puts them round a text:
//!
//! ```text
//! Chalk::with_level(3).bold().yellow().apply("warning")
//!     == "\u{1b}[1m\u{1b}[33mwarning\u{1b}[39m\u{1b}[22m"
//! Chalk::with_level(0).bold().apply("plain") == "plain"
//! ```
pub mod laws;
pub mod level;
pub mod styles;

pub use crate::chalk::level::{
    set_stderr_level, set_stdout_level, stderr_level, stdout_level, ColorLevel, Levels,
};
pub use crate::chalk::styles::{
    ansi256_to_ansi, hex_to_rgb, rgb_to_ansi, rgb_to_ansi256, NamedColor,
};

use crate::chars;
use crate::chars::{chars_of, push_char, replace_part};
use crate::chalk::styles::{
    wrap_ansi16, wrap_ansi16m, wrap_ansi256, wrap_underline_ansi, ANSI_BACKGROUND_OFFSET,
    ANSI_UNDERLINE_OFFSET, BG_CLOSE, FG_CLOSE, UNDERLINE_CLOSE,
};
use vstd::prelude::*;

verus! {

/// One styling layer: the escape sequences that open and close it.
#[derive(Debug, PartialEq, Eq)]
struct Layer {
    open: String,
    close: String,
}

/// What a layer stands for.
#[verifier::ext_equal]
pub struct LayerView {
    pub open: Seq<char>,
    pub close: Seq<char>,
}

impl View for Layer {
    type V = LayerView;

    closed spec fn view(&self) -> LayerView {
        LayerView { open: self.open@, close: self.close@ }
    }
}

/// What a styler stands for: its level, its layers from the outermost in, and
/// whether the text is dropped where there are no colors.
#[verifier::ext_equal]
pub struct ChalkView {
    pub level: ColorLevel,
    pub layers: Seq<LayerView>,
    pub visible_only: bool,
}

impl ChalkView {
    /// The styler with one more layer inside the others.
    pub open spec fn with(self, open: Seq<char>, close: Seq<char>) -> ChalkView {
        ChalkView { layers: self.layers.push(LayerView { open, close }), ..self }
    }

    /// The styler with one more layer of two codes.
    pub open spec fn with_codes(self, open: u8, close: u8) -> ChalkView {
        self.with(styles::sgr_code(open as int), styles::sgr_code(close as int))
    }

    /// The styler with one more foreground color.
    pub open spec fn with_fg(self, open: Seq<char>) -> ChalkView {
        self.with(open, styles::sgr_code(FG_CLOSE as int))
    }

    /// The styler with one more background color.
    pub open spec fn with_bg(self, open: Seq<char>) -> ChalkView {
        self.with(open, styles::sgr_code(BG_CLOSE as int))
    }

    /// The styler with one more underline color.
    pub open spec fn with_underline(self, open: Seq<char>) -> ChalkView {
        self.with(open, styles::sgr_code(UNDERLINE_CLOSE as int))
    }
}

/// The opening sequence of a truecolor at `level`: the color itself, or the
/// nearest that the level has.
pub open spec fn rgb_open(level: ColorLevel, r: u8, g: u8, b: u8, offset: u8) -> Seq<char> {
    if level == 3 {
        styles::sgr_rgb(38 + offset, r, g, b)
    } else if level == 2 {
        styles::sgr_palette(38 + offset, styles::nearest_256(r, g, b))
    } else {
        styles::sgr_code(styles::code_of_256(styles::nearest_256(r, g, b)) + offset)
    }
}

/// The opening sequence of a 256-color at `level`.
pub open spec fn ansi256_open(level: ColorLevel, code: u8, offset: u8) -> Seq<char> {
    if level >= 2 {
        styles::sgr_palette(38 + offset, code)
    } else {
        styles::sgr_code(styles::code_of_256(code) + offset)
    }
}

/// The opening sequence of a truecolor underline at `level`.
pub open spec fn underline_rgb_open(level: ColorLevel, r: u8, g: u8, b: u8) -> Seq<char> {
    if level == 3 {
        styles::sgr_rgb(58, r, g, b)
    } else if level == 2 {
        styles::sgr_palette(58, styles::nearest_256(r, g, b))
    } else {
        styles::sgr_underline(styles::code_of_256(styles::nearest_256(r, g, b)))
    }
}

/// The opening sequence of a 256-color underline at `level`.
pub open spec fn underline_ansi256_open(level: ColorLevel, code: u8) -> Seq<char> {
    if level >= 2 {
        styles::sgr_palette(58, code)
    } else {
        styles::sgr_underline(styles::code_of_256(code))
    }
}

/// What opens all the layers, from the outermost in.
pub open spec fn open_all(layers: Seq<LayerView>) -> Seq<char>
    decreases layers.len(),
{
    if layers.len() == 0 {
        Seq::empty()
    } else {
        open_all(layers.drop_last()) + layers.last().open
    }
}

/// What closes all the layers, from the innermost out.
pub open spec fn close_all(layers: Seq<LayerView>) -> Seq<char>
    decreases layers.len(),
{
    if layers.len() == 0 {
        Seq::empty()
    } else {
        layers.last().close + close_all(layers.drop_last())
    }
}

/// `s` with each closing sequence in it followed by the opening sequence of
/// its layer, the innermost layer first.
pub open spec fn reopened(s: Seq<char>, layers: Seq<LayerView>) -> Seq<char>
    decreases layers.len(),
{
    if layers.len() == 0 {
        s
    } else {
        let layer = layers.last();
        reopened(
            chars::replace_all(s, layer.close, layer.close + layer.open),
            layers.drop_last(),
        )
    }
}

/// `s` with each line break, a carriage return before it included, put
/// between `close` and `open`.
pub open spec fn encased(s: Seq<char>, close: Seq<char>, open: Seq<char>) -> Seq<char>
    decreases s.len(),
{
    if s.len() == 0 {
        Seq::empty()
    } else if s[0] == '\n' {
        close + seq!['\n'] + open + encased(s.skip(1), close, open)
    } else if s[0] == '\r' && s.len() > 1 && s[1] == '\n' {
        close + seq!['\r', '\n'] + open + encased(s.skip(2), close, open)
    } else {
        seq![s[0]] + encased(s.skip(1), close, open)
    }
}

/// What a styler makes of a text. Without colors the text stays as it is, or
/// is dropped where it is to be visible with colors only. An empty text, or
/// one without styles, stays as it is.
pub open spec fn styled(chalk: ChalkView, input: Seq<char>) -> Seq<char> {
    if chalk.level == 0 {
        if chalk.visible_only {
            Seq::empty()
        } else {
            input
        }
    } else if input.len() == 0 || chalk.layers.len() == 0 {
        input
    } else {
        let open = open_all(chalk.layers);
        let close = close_all(chalk.layers);
        open + encased(reopened(input, chalk.layers), close, open) + close
    }
}

/// The views of a list of layers.
spec fn layer_views(layers: Seq<Layer>) -> Seq<LayerView> {
    layers.map_values(|layer: Layer| layer@)
}

/// A chainable terminal string styler.
///
/// Each styling method returns the styler with one more layer, and
/// [`Chalk::apply`] wraps a text in them. At level 0 a text passes through as
/// it is. A styler keeps the level that it was made with.
#[derive(Debug, PartialEq, Eq)]
pub struct Chalk {
    level: ColorLevel,
    layers: Vec<Layer>,
    /// Whether a text disappears, in place of passing through, at level 0.
    visible_only: bool,
}

impl View for Chalk {
    type V = ChalkView;

    closed spec fn view(&self) -> ChalkView {
        ChalkView {
            level: self.level,
            layers: layer_views(self.layers@),
            visible_only: self.visible_only,
        }
    }
}

impl Clone for Chalk {
    fn clone(&self) -> (r: Chalk)
        ensures
            r@ == self@,
    {
        proof {
            use_type_invariant(self);
        }
        let mut layers: Vec<Layer> = Vec::new();
        let mut i: usize = 0;
        while i < self.layers.len()
            invariant
                i <= self.layers@.len(),
                layer_views(layers@) =~= layer_views(self.layers@).take(i as int),
            decreases self.layers@.len() - i,
        {
            let layer = Layer {
                open: self.layers[i].open.clone(),
                close: self.layers[i].close.clone(),
            };
            let ghost before = layer_views(layers@);
            layers.push(layer);
            assert(layer_views(layers@) =~= before.push(self.layers@[i as int]@));
            i = i + 1;
        }
        assert(layer_views(layers@) =~= layer_views(self.layers@));
        Chalk { level: self.level, layers, visible_only: self.visible_only }
    }
}

impl Chalk {
    #[verifier::type_invariant]
    spec fn is_well_formed(self) -> bool {
        laws::well_formed(self@)
    }

    /// A styler at the level of standard output.
    pub fn new(levels: &Levels) -> (r: Chalk)
        ensures
            r@ == (ChalkView { level: levels.stdout(), layers: Seq::empty(), visible_only: false }),
            laws::well_formed(r@),
    {
        Chalk::with_level(stdout_level(levels))
    }

    /// A styler at the level of standard error.
    pub fn stderr(levels: &Levels) -> (r: Chalk)
        ensures
            r@ == (ChalkView { level: levels.stderr(), layers: Seq::empty(), visible_only: false }),
            laws::well_formed(r@),
    {
        Chalk::with_level(stderr_level(levels))
    }

    /// A styler at the given level. A level above 3 counts as 3.
    pub fn with_level(level: ColorLevel) -> (r: Chalk)
        ensures
            r@ == (ChalkView {
                level: level::clamp_level(level),
                layers: Seq::empty(),
                visible_only: false,
            }),
            laws::well_formed(r@),
    {
        let r = Chalk {
            level: if level > 3 {
                3
            } else {
                level
            },
            layers: Vec::new(),
            visible_only: false,
        };
        assert(r@.layers =~= Seq::empty());
        r
    }

    /// The level that the styler applies at.
    pub fn level(&self) -> (r: ColorLevel)
        ensures
            r == self@.level,
            laws::well_formed(self@),
    {
        proof {
            use_type_invariant(self);
        }
        self.level
    }

    /// Adds a layer inside the others.
    fn push_raw(self, open: String, close: String) -> (r: Chalk)
        requires
            laws::is_sgr(open@),
            laws::is_sgr(close@),
        ensures
            r@ == self@.with(open@, close@),
    {
        proof {
            use_type_invariant(&self);
        }
        let mut layers = self.layers;
        layers.push(Layer { open, close });
        assert(layer_views(layers@) =~= self@.with(open@, close@).layers);
        Chalk { layers, level: self.level, visible_only: self.visible_only }
    }

    /// Adds a layer of two codes.
    fn push_pair(self, open: u8, close: u8) -> (r: Chalk)
        ensures
            r@ == self@.with_codes(open, close),
    {
        proof {
            laws::code_is_sgr(open as int);
            laws::code_is_sgr(close as int);
        }
        self.push_raw(wrap_ansi16(open, 0), wrap_ansi16(close, 0))
    }

    /// Adds a foreground color.
    fn push_fg(self, open: String) -> (r: Chalk)
        requires
            laws::is_sgr(open@),
        ensures
            r@ == self@.with_fg(open@),
    {
        proof {
            laws::code_is_sgr(FG_CLOSE as int);
        }
        self.push_raw(open, wrap_ansi16(FG_CLOSE, 0))
    }

    /// Adds a background color.
    fn push_bg(self, open: String) -> (r: Chalk)
        requires
            laws::is_sgr(open@),
        ensures
            r@ == self@.with_bg(open@),
    {
        proof {
            laws::code_is_sgr(BG_CLOSE as int);
        }
        self.push_raw(open, wrap_ansi16(BG_CLOSE, 0))
    }

    /// Adds an underline color.
    fn push_underline(self, open: String) -> (r: Chalk)
        requires
            laws::is_sgr(open@),
        ensures
            r@ == self@.with_underline(open@),
    {
        proof {
            laws::code_is_sgr(UNDERLINE_CLOSE as int);
        }
        self.push_raw(open, wrap_ansi16(UNDERLINE_CLOSE, 0))
    }

    /// Codes 1 and 22.
    pub fn bold(self) -> (r: Chalk)
        ensures
            r@ == self@.with_codes(1, 22),
    {
        self.push_pair(1, 22)
    }

    /// Codes 2 and 22.
    pub fn dim(self) -> (r: Chalk)
        ensures
            r@ == self@.with_codes(2, 22),
    {
        self.push_pair(2, 22)
    }

    /// Codes 3 and 23.
    pub fn italic(self) -> (r: Chalk)
        ensures
            r@ == self@.with_codes(3, 23),
    {
        self.push_pair(3, 23)
    }

    /// Codes 4 and 24.
    pub fn underline(self) -> (r: Chalk)
        ensures
            r@ == self@.with_codes(4, 24),
    {
        self.push_pair(4, 24)
    }

    /// Codes 53 and 55.
    pub fn overline(self) -> (r: Chalk)
        ensures
            r@ == self@.with_codes(53, 55),
    {
        self.push_pair(53, 55)
    }

    /// Codes 7 and 27.
    pub fn inverse(self) -> (r: Chalk)
        ensures
            r@ == self@.with_codes(7, 27),
    {
        self.push_pair(7, 27)
    }

    /// Codes 8 and 28.
    pub fn hidden(self) -> (r: Chalk)
        ensures
            r@ == self@.with_codes(8, 28),
    {
        self.push_pair(8, 28)
    }

    /// Codes 9 and 29.
    pub fn strikethrough(self) -> (r: Chalk)
        ensures
            r@ == self@.with_codes(9, 29),
    {
        self.push_pair(9, 29)
    }

    /// Codes 0 and 0.
    pub fn reset(self) -> (r: Chalk)
        ensures
            r@ == self@.with_codes(0, 0),
    {
        self.push_pair(0, 0)
    }

    /// Marks the text as visible with colors only: at level 0 it disappears.
    pub fn visible(self) -> (r: Chalk)
        ensures
            r@ == (ChalkView { visible_only: true, ..self@ }),
    {
        proof {
            use_type_invariant(&self);
        }
        Chalk { layers: self.layers, level: self.level, visible_only: true }
    }

    /// A double underline.
    pub fn underline_double(self) -> (r: Chalk)
        ensures
            r@ == self@.with("\u{1b}[4:2m"@, "\u{1b}[24m"@),
    {
        proof {
            reveal_strlit("\u{1b}[4:2m");
            reveal_strlit("\u{1b}[24m");
        }
        self.push_raw("\u{1b}[4:2m".to_owned(), "\u{1b}[24m".to_owned())
    }

    /// A curly underline.
    pub fn underline_curly(self) -> (r: Chalk)
        ensures
            r@ == self@.with("\u{1b}[4:3m"@, "\u{1b}[24m"@),
    {
        proof {
            reveal_strlit("\u{1b}[4:3m");
            reveal_strlit("\u{1b}[24m");
        }
        self.push_raw("\u{1b}[4:3m".to_owned(), "\u{1b}[24m".to_owned())
    }

    /// A dotted underline.
    pub fn underline_dotted(self) -> (r: Chalk)
        ensures
            r@ == self@.with("\u{1b}[4:4m"@, "\u{1b}[24m"@),
    {
        proof {
            reveal_strlit("\u{1b}[4:4m");
            reveal_strlit("\u{1b}[24m");
        }
        self.push_raw("\u{1b}[4:4m".to_owned(), "\u{1b}[24m".to_owned())
    }

    /// A dashed underline.
    pub fn underline_dashed(self) -> (r: Chalk)
        ensures
            r@ == self@.with("\u{1b}[4:5m"@, "\u{1b}[24m"@),
    {
        proof {
            reveal_strlit("\u{1b}[4:5m");
            reveal_strlit("\u{1b}[24m");
        }
        self.push_raw("\u{1b}[4:5m".to_owned(), "\u{1b}[24m".to_owned())
    }

    /// A named underline color. It has no basic form, so it is the same at
    /// every level that has colors.
    pub fn underline_color(self, color: NamedColor) -> (r: Chalk)
        ensures
            r@ == self@.with_underline(styles::sgr_palette(58, styles::palette_index(color))),
    {
        proof {
            laws::palette_is_sgr(58, styles::palette_index(color));
        }
        self.push_underline(wrap_underline_ansi(color.fg_open()))
    }

    /// A truecolor underline, downgraded below level 3.
    pub fn underline_rgb(self, r: u8, g: u8, b: u8) -> (c: Chalk)
        ensures
            c@ == self@.with_underline(underline_rgb_open(self@.level, r, g, b)),
    {
        proof {
            let index = styles::nearest_256(r, g, b);
            laws::rgb_is_sgr(58, r, g, b);
            laws::palette_is_sgr(58, index);
            laws::underline_is_sgr(styles::code_of_256(index));
        }
        let open = match self.level {
            3 => wrap_ansi16m(r, g, b, ANSI_UNDERLINE_OFFSET),
            2 => wrap_ansi256(rgb_to_ansi256(r, g, b), ANSI_UNDERLINE_OFFSET),
            _ => wrap_underline_ansi(rgb_to_ansi(r, g, b)),
        };
        self.push_underline(open)
    }

    /// A hexadecimal underline color, downgraded below level 3.
    pub fn underline_hex(self, hex: &str) -> (c: Chalk)
        ensures
            c@ == ({
                let (r, g, b) = styles::hex_color(hex@);
                self@.with_underline(underline_rgb_open(self@.level, r, g, b))
            }),
    {
        let (r, g, b) = hex_to_rgb(hex);
        self.underline_rgb(r, g, b)
    }

    /// A 256-color underline, downgraded below level 2.
    pub fn underline_ansi256(self, code: u8) -> (c: Chalk)
        ensures
            c@ == self@.with_underline(underline_ansi256_open(self@.level, code)),
    {
        proof {
            laws::palette_is_sgr(58, code);
            laws::underline_is_sgr(styles::code_of_256(code));
        }
        let open = if self.level >= 2 {
            wrap_ansi256(code, ANSI_UNDERLINE_OFFSET)
        } else {
            wrap_underline_ansi(ansi256_to_ansi(code))
        };
        self.push_underline(open)
    }

    /// A named foreground color.
    pub fn color(self, color: NamedColor) -> (r: Chalk)
        ensures
            r@ == self@.with_fg(
                styles::sgr_code(styles::foreground_code(styles::palette_index(color)) as int),
            ),
    {
        proof {
            laws::code_is_sgr(styles::foreground_code(styles::palette_index(color)) as int);
        }
        self.push_fg(wrap_ansi16(color.fg_open(), 0))
    }

    /// A named background color.
    pub fn bg_color(self, color: NamedColor) -> (r: Chalk)
        ensures
            r@ == self@.with_bg(
                styles::sgr_code(styles::foreground_code(styles::palette_index(color)) + 10),
            ),
    {
        proof {
            laws::code_is_sgr(styles::foreground_code(styles::palette_index(color)) + 10);
        }
        self.push_bg(wrap_ansi16(color.fg_open(), ANSI_BACKGROUND_OFFSET))
    }

    /// A black foreground.
    pub fn black(self) -> (r: Chalk)
        ensures
            r@ == self@.with_codes(30, FG_CLOSE),
    {
        self.color(NamedColor::Black)
    }

    /// A red foreground.
    pub fn red(self) -> (r: Chalk)
        ensures
            r@ == self@.with_codes(31, FG_CLOSE),
    {
        self.color(NamedColor::Red)
    }

    /// A green foreground.
    pub fn green(self) -> (r: Chalk)
        ensures
            r@ == self@.with_codes(32, FG_CLOSE),
    {
        self.color(NamedColor::Green)
    }

    /// A yellow foreground.
    pub fn yellow(self) -> (r: Chalk)
        ensures
            r@ == self@.with_codes(33, FG_CLOSE),
    {
        self.color(NamedColor::Yellow)
    }

    /// A blue foreground.
    pub fn blue(self) -> (r: Chalk)
        ensures
            r@ == self@.with_codes(34, FG_CLOSE),
    {
        self.color(NamedColor::Blue)
    }

    /// A magenta foreground.
    pub fn magenta(self) -> (r: Chalk)
        ensures
            r@ == self@.with_codes(35, FG_CLOSE),
    {
        self.color(NamedColor::Magenta)
    }

    /// A cyan foreground.
    pub fn cyan(self) -> (r: Chalk)
        ensures
            r@ == self@.with_codes(36, FG_CLOSE),
    {
        self.color(NamedColor::Cyan)
    }

    /// A white foreground.
    pub fn white(self) -> (r: Chalk)
        ensures
            r@ == self@.with_codes(37, FG_CLOSE),
    {
        self.color(NamedColor::White)
    }

    /// A bright black foreground.
    pub fn gray(self) -> (r: Chalk)
        ensures
            r@ == self@.with_codes(90, FG_CLOSE),
    {
        self.color(NamedColor::BlackBright)
    }

    /// A truecolor foreground, downgraded below level 3.
    pub fn rgb(self, r: u8, g: u8, b: u8) -> (c: Chalk)
        ensures
            c@ == self@.with_fg(rgb_open(self@.level, r, g, b, 0)),
    {
        let open = Chalk::model_rgb(self.level, r, g, b, 0);
        self.push_fg(open)
    }

    /// A truecolor background, downgraded below level 3.
    pub fn bg_rgb(self, r: u8, g: u8, b: u8) -> (c: Chalk)
        ensures
            c@ == self@.with_bg(rgb_open(self@.level, r, g, b, ANSI_BACKGROUND_OFFSET)),
    {
        let open = Chalk::model_rgb(self.level, r, g, b, ANSI_BACKGROUND_OFFSET);
        self.push_bg(open)
    }

    /// A hexadecimal foreground (`#rrggbb` or `#rgb`), downgraded below level
    /// 3.
    pub fn hex(self, hex: &str) -> (c: Chalk)
        ensures
            c@ == ({
                let (r, g, b) = styles::hex_color(hex@);
                self@.with_fg(rgb_open(self@.level, r, g, b, 0))
            }),
    {
        let (r, g, b) = hex_to_rgb(hex);
        self.rgb(r, g, b)
    }

    /// A hexadecimal background, downgraded below level 3.
    pub fn bg_hex(self, hex: &str) -> (c: Chalk)
        ensures
            c@ == ({
                let (r, g, b) = styles::hex_color(hex@);
                self@.with_bg(rgb_open(self@.level, r, g, b, ANSI_BACKGROUND_OFFSET))
            }),
    {
        let (r, g, b) = hex_to_rgb(hex);
        self.bg_rgb(r, g, b)
    }

    /// A 256-color foreground, downgraded below level 2.
    pub fn ansi256(self, code: u8) -> (c: Chalk)
        ensures
            c@ == self@.with_fg(ansi256_open(self@.level, code, 0)),
    {
        let open = Chalk::model_ansi256(self.level, code, 0);
        self.push_fg(open)
    }

    /// A 256-color background, downgraded below level 2.
    pub fn bg_ansi256(self, code: u8) -> (c: Chalk)
        ensures
            c@ == self@.with_bg(ansi256_open(self@.level, code, ANSI_BACKGROUND_OFFSET)),
    {
        let open = Chalk::model_ansi256(self.level, code, ANSI_BACKGROUND_OFFSET);
        self.push_bg(open)
    }

    /// The opening sequence of a truecolor at a level.
    fn model_rgb(level: ColorLevel, r: u8, g: u8, b: u8, offset: u8) -> (s: String)
        requires
            offset <= 100,
        ensures
            s@ == rgb_open(level, r, g, b, offset),
            laws::is_sgr(s@),
    {
        proof {
            let index = styles::nearest_256(r, g, b);
            laws::rgb_is_sgr(38 + offset, r, g, b);
            laws::palette_is_sgr(38 + offset, index);
            laws::code_is_sgr(styles::code_of_256(index) + offset);
        }
        match level {
            3 => wrap_ansi16m(r, g, b, offset),
            2 => wrap_ansi256(rgb_to_ansi256(r, g, b), offset),
            _ => wrap_ansi16(rgb_to_ansi(r, g, b), offset),
        }
    }

    /// The opening sequence of a 256-color at a level.
    fn model_ansi256(level: ColorLevel, code: u8, offset: u8) -> (s: String)
        requires
            offset <= 100,
        ensures
            s@ == ansi256_open(level, code, offset),
            laws::is_sgr(s@),
    {
        proof {
            laws::palette_is_sgr(38 + offset, code);
            laws::code_is_sgr(styles::code_of_256(code) + offset);
        }
        if level >= 2 {
            wrap_ansi256(code, offset)
        } else {
            wrap_ansi16(ansi256_to_ansi(code), offset)
        }
    }

    /// The opening sequences of all the layers.
    fn join_open(&self) -> (r: String)
        ensures
            r@ == open_all(self@.layers),
    {
        let mut out = String::new();
        let mut i: usize = 0;
        while i < self.layers.len()
            invariant
                i <= self.layers@.len(),
                out@ == open_all(layer_views(self.layers@).take(i as int)),
            decreases self.layers@.len() - i,
        {
            out.append(self.layers[i].open.as_str());
            i = i + 1;
            proof {
                let t = layer_views(self.layers@).take(i as int);
                assert(t.drop_last() =~= layer_views(self.layers@).take(i - 1));
            }
        }
        assert(layer_views(self.layers@).take(i as int) =~= self@.layers);
        out
    }

    /// The closing sequences of all the layers.
    fn join_close(&self) -> (r: String)
        ensures
            r@ == close_all(self@.layers),
    {
        let mut out = String::new();
        let mut n: usize = self.layers.len();
        assert(layer_views(self.layers@).take(n as int) =~= self@.layers);
        while n > 0
            invariant
                n <= self.layers@.len(),
                out@ + close_all(layer_views(self.layers@).take(n as int)) == close_all(
                    self@.layers,
                ),
            decreases n,
        {
            proof {
                let t = layer_views(self.layers@).take(n as int);
                assert(t.drop_last() =~= layer_views(self.layers@).take(n - 1));
                assert(out@ + (t.last().close + close_all(t.drop_last())) =~= (out@
                    + t.last().close) + close_all(t.drop_last()));
            }
            n = n - 1;
            out.append(self.layers[n].close.as_str());
        }
        assert(out@ =~= close_all(self@.layers));
        out
    }

    /// Follows each closing sequence in a text by what opens its layer again.
    fn reopen(&self, input: &str) -> (r: String)
        ensures
            r@ == reopened(input@, self@.layers),
    {
        let mut string = input.to_owned();
        let mut n: usize = self.layers.len();
        assert(layer_views(self.layers@).take(n as int) =~= self@.layers);
        while n > 0
            invariant
                n <= self.layers@.len(),
                reopened(string@, layer_views(self.layers@).take(n as int)) == reopened(
                    input@,
                    self@.layers,
                ),
            decreases n,
        {
            proof {
                let t = layer_views(self.layers@).take(n as int);
                assert(t.drop_last() =~= layer_views(self.layers@).take(n - 1));
            }
            n = n - 1;
            let mut again = self.layers[n].close.clone();
            again.append(self.layers[n].open.as_str());
            string = replace_part(
                &chars_of(string.as_str()),
                &chars_of(self.layers[n].close.as_str()),
                again.as_str(),
            );
        }
        string
    }

    /// Styles a text.
    ///
    /// At level 0, or where there is nothing to style, the text stays as it
    /// is. Closing sequences inside the text are followed by what opens their
    /// layer again, so that a styled part does not end the style round it.
    /// The styles are closed before each line break and opened after it.
    pub fn apply(&self, input: &str) -> (r: String)
        ensures
            r@ == styled(self@, input@),
            laws::well_formed(self@),
    {
        proof {
            use_type_invariant(self);
        }
        if self.level == 0 {
            return if self.visible_only {
                let empty = String::new();
                assert(empty@ =~= Seq::empty());
                empty
            } else {
                input.to_owned()
            };
        }
        if input.is_empty() || self.layers.len() == 0 {
            return input.to_owned();
        }
        let open = self.join_open();
        let close = self.join_close();
        let string = self.reopen(input);
        let body = encase_line_breaks(string.as_str(), close.as_str(), open.as_str());
        let mut out = open;
        out.append(body.as_str());
        out.append(close.as_str());
        out
    }
}

/// Closes the style before each line break of a text and opens it after.
pub fn encase_line_breaks(input: &str, close: &str, open: &str) -> (r: String)
    ensures
        r@ == encased(input@, close@, open@),
{
    let s = chars_of(input);
    let mut out = String::new();
    let mut i: usize = 0;
    assert(s@.skip(0) =~= s@);
    while i < s.len()
        invariant
            s@ == input@,
            i <= s@.len(),
            out@ + encased(s@.skip(i as int), close@, open@) == encased(input@, close@, open@),
        decreases s@.len() - i,
    {
        let ghost before = out@;
        let ghost rest = s@.skip(i as int);
        if s[i] == '\n' {
            out.append(close);
            push_char(&mut out, '\n');
            out.append(open);
            i = i + 1;
            assert(rest.skip(1) =~= s@.skip(i as int));
        } else if s[i] == '\r' && s.len() - i > 1 && s[i + 1] == '\n' {
            out.append(close);
            push_char(&mut out, '\r');
            push_char(&mut out, '\n');
            out.append(open);
            i = i + 2;
            assert(rest.skip(2) =~= s@.skip(i as int));
        } else {
            push_char(&mut out, s[i]);
            i = i + 1;
            assert(rest.skip(1) =~= s@.skip(i as int));
        }
        assert(before + encased(rest, close@, open@) =~= out@ + encased(
            s@.skip(i as int),
            close@,
            open@,
        ));
    }
    assert(out@ =~= encased(input@, close@, open@));
    out
}

/// The styler without styles at the level of standard output.
pub open spec fn stdout_plain(levels: &Levels) -> ChalkView {
    ChalkView { level: levels.stdout(), layers: Seq::empty(), visible_only: false }
}

/// Styles a text for standard output with [`Chalk::bold`] alone.
pub fn bold(levels: &Levels, text: &str) -> (r: String)
    ensures
        r@ == styled(stdout_plain(levels).with_codes(1, 22), text@),
{
    Chalk::new(levels).bold().apply(text)
}

/// Styles a text for standard output with [`Chalk::dim`] alone.
pub fn dim(levels: &Levels, text: &str) -> (r: String)
    ensures
        r@ == styled(stdout_plain(levels).with_codes(2, 22), text@),
{
    Chalk::new(levels).dim().apply(text)
}

/// Styles a text for standard output with [`Chalk::italic`] alone.
pub fn italic(levels: &Levels, text: &str) -> (r: String)
    ensures
        r@ == styled(stdout_plain(levels).with_codes(3, 23), text@),
{
    Chalk::new(levels).italic().apply(text)
}

/// Styles a text for standard output with [`Chalk::underline`] alone.
pub fn underline(levels: &Levels, text: &str) -> (r: String)
    ensures
        r@ == styled(stdout_plain(levels).with_codes(4, 24), text@),
{
    Chalk::new(levels).underline().apply(text)
}

/// Styles a text for standard output with [`Chalk::inverse`] alone.
pub fn inverse(levels: &Levels, text: &str) -> (r: String)
    ensures
        r@ == styled(stdout_plain(levels).with_codes(7, 27), text@),
{
    Chalk::new(levels).inverse().apply(text)
}

/// Styles a text for standard output with [`Chalk::strikethrough`] alone.
pub fn strikethrough(levels: &Levels, text: &str) -> (r: String)
    ensures
        r@ == styled(stdout_plain(levels).with_codes(9, 29), text@),
{
    Chalk::new(levels).strikethrough().apply(text)
}

/// Styles a text for standard output with [`Chalk::red`] alone.
pub fn red(levels: &Levels, text: &str) -> (r: String)
    ensures
        r@ == styled(stdout_plain(levels).with_codes(31, FG_CLOSE), text@),
{
    Chalk::new(levels).red().apply(text)
}

/// Styles a text for standard output with [`Chalk::green`] alone.
pub fn green(levels: &Levels, text: &str) -> (r: String)
    ensures
        r@ == styled(stdout_plain(levels).with_codes(32, FG_CLOSE), text@),
{
    Chalk::new(levels).green().apply(text)
}

/// Styles a text for standard output with [`Chalk::yellow`] alone.
pub fn yellow(levels: &Levels, text: &str) -> (r: String)
    ensures
        r@ == styled(stdout_plain(levels).with_codes(33, FG_CLOSE), text@),
{
    Chalk::new(levels).yellow().apply(text)
}

/// Styles a text for standard output with [`Chalk::blue`] alone.
pub fn blue(levels: &Levels, text: &str) -> (r: String)
    ensures
        r@ == styled(stdout_plain(levels).with_codes(34, FG_CLOSE), text@),
{
    Chalk::new(levels).blue().apply(text)
}

/// Styles a text for standard output with [`Chalk::cyan`] alone.
pub fn cyan(levels: &Levels, text: &str) -> (r: String)
    ensures
        r@ == styled(stdout_plain(levels).with_codes(36, FG_CLOSE), text@),
{
    Chalk::new(levels).cyan().apply(text)
}

/// Styles a text for standard output with [`Chalk::magenta`] alone.
pub fn magenta(levels: &Levels, text: &str) -> (r: String)
    ensures
        r@ == styled(stdout_plain(levels).with_codes(35, FG_CLOSE), text@),
{
    Chalk::new(levels).magenta().apply(text)
}

/// Styles a text for standard output with [`Chalk::gray`] alone.
pub fn gray(levels: &Levels, text: &str) -> (r: String)
    ensures
        r@ == styled(stdout_plain(levels).with_codes(90, FG_CLOSE), text@),
{
    Chalk::new(levels).gray().apply(text)
}

} // verus!
