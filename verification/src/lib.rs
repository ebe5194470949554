//! A terminal code-chunk printer: renders line-numbered, ANSI-styled
//! excerpts of a source file to a byte buffer.
//!
//! Given a file's contents, a set of matched line numbers and a set of
//! contiguous chunk ranges, the printer emits a header, the chunk bodies with
//! a line-number gutter, separators between chunks and a footer. Tab
//! expansion, East-Asian-aware width accounting, line wrapping and
//! matched-line background highlighting are all verified against an exact
//! model of the emitted character stream.
//!
//! No syntax definitions are bundled: the highlighter resolves a syntax
//! name for each path but tokenizes every line as one plain-text token in
//! the theme's default style, so the rendered body is uniformly styled per
//! line. The drawer is parametric in the tokenization, so a caller with a
//! real tokenizer can drive [`drawer::Drawer::draw_line`] directly.

pub mod canvas;
pub mod drawer;
pub mod highlight;
pub mod laws;
pub mod lines;
pub mod print;
pub mod printer;
pub mod themes;
