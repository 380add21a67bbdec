//! Terminal text: string styling, escape sequences, text layout and output
//! above a live display.
//!
//! The library computes and never touches a terminal. What it has to know of
//! the process, such as the environment variables or whether a stream is a
//! terminal, comes in as plain values, and what is to be done goes out as plain
//! values: strings to write, commands to run, strokes to draw.
//!
//! - [`chalk`] styles strings and detects how many colors a stream can be given.
//! - [`ansi`] builds the escape sequences of styles, colors, hyperlinks, titles
//!   and the clipboard.
//! - [`display`] measures texts, and [`segmented_string`] wraps them.
//! - [`text`] and [`link`] are the text components.
//! - [`output`] and [`clipboard`] decide what a terminal is to be given, and
//!   what is to be run.
//!
//! What holds beyond the contract of a single function stands in the `laws`
//! modules and beside the functions it speaks of.
pub mod ansi;
pub mod base64;
pub mod chalk;
pub mod chars;
pub mod clipboard;
pub mod display;
pub mod env;
pub mod link;
pub mod output;
pub mod segmented_string;
pub mod strip_ansi;
pub mod style;
pub mod text;
