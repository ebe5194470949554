//! The line highlighter: a single advancing state that either skips a line
//! or tokenizes it.
//!
//! No syntax definitions are bundled, so whatever syntax name a file
//! resolves to, every line is one plain-text token in the theme's default
//! style; the state records the syntax name and the history of consumed
//! lines, and skipping and highlighting advance it identically.

use crate::canvas::parts_view;
use crate::themes::{Color, FontStyle, Style, Theme};
use vstd::prelude::*;

verus! {

/// The style of untokenized text under a theme: the theme foreground and
/// background, or a white foreground and a pass-through background where
/// the theme leaves them open, with no font attributes.
pub open spec fn spec_default_style(t: Theme) -> Style {
    Style {
        foreground: match t.foreground {
            Some(c) => c,
            None => Color { r: 255, g: 255, b: 255, a: 255 },
        },
        background: match t.background {
            Some(c) => c,
            None => Color { r: 0, g: 0, b: 0, a: 1 },
        },
        font_style: FontStyle { bold: false, underline: false, italic: false },
    }
}

/// The plain-text tokenization of a line: one token carrying the whole
/// line.
pub open spec fn spec_highlight(style: Style, line: Seq<char>) -> Seq<(Style, Seq<char>)> {
    seq![(style, line)]
}

/// The concatenation of the token texts of a tokenized line.
pub open spec fn concat_texts(parts: Seq<(Style, Seq<char>)>) -> Seq<char>
    decreases parts.len(),
{
    if parts.len() == 0 {
        Seq::empty()
    } else {
        concat_texts(parts.drop_last()) + parts.last().1
    }
}

/// Copy the characters of a vector from `from` on.
pub fn vec_suffix(v: &Vec<char>, from: usize) -> (r: Vec<char>)
    requires
        from <= v@.len(),
    ensures
        r@ == v@.subrange(from as int, v@.len() as int),
{
    let mut r: Vec<char> = Vec::new();
    let mut i: usize = from;
    while i < v.len()
        invariant
            from <= i <= v@.len(),
            r@ == v@.subrange(from as int, i as int),
        decreases v@.len() - i,
    {
        r.push(v[i]);
        i = i + 1;
        assert(r@ =~= v@.subrange(from as int, i as int));
    }
    r
}

/// Wraps a parser and a highlighter in a single advancing state.
pub struct LineHighlighter {
    /// The name of the syntax the lines are parsed under. With no syntax
    /// definitions bundled, every grammar tokenizes as plain text.
    pub syntax: String,
    /// The style every plain-text token takes.
    pub style: Style,
    /// The lines consumed so far, in order.
    pub history: Ghost<Seq<Seq<char>>>,
}

impl LineHighlighter {
    pub fn new(syntax: String, theme: &Theme) -> (r: LineHighlighter)
        ensures
            r.syntax == syntax,
            r.style == spec_default_style(*theme),
            r.history@ == Seq::<Seq<char>>::empty(),
    {
        let foreground = match theme.foreground {
            Some(c) => c,
            None => Color { r: 255, g: 255, b: 255, a: 255 },
        };
        let background = match theme.background {
            Some(c) => c,
            None => Color { r: 0, g: 0, b: 0, a: 1 },
        };
        LineHighlighter {
            syntax,
            style: Style {
                foreground,
                background,
                font_style: FontStyle { bold: false, underline: false, italic: false },
            },
            history: Ghost(Seq::empty()),
        }
    }

    /// Advance the state over a line and discard its tokens.
    pub fn skip_line(&mut self, line: &Vec<char>)
        ensures
            final(self).syntax == old(self).syntax,
            final(self).style == old(self).style,
            final(self).history@ == old(self).history@.push(line@),
    {
        self.history = Ghost(self.history@.push(line@));
    }

    /// Advance the state over a line and return its tokenization. The
    /// token texts concatenate to the line itself, and the state advances
    /// exactly as `skip_line` does.
    pub fn highlight(&mut self, line: &Vec<char>) -> (parts: Vec<(Style, Vec<char>)>)
        ensures
            final(self).syntax == old(self).syntax,
            final(self).style == old(self).style,
            final(self).history@ == old(self).history@.push(line@),
            parts_view(parts@) == spec_highlight(old(self).style, line@),
            concat_texts(parts_view(parts@)) == line@,
    {
        let mut parts: Vec<(Style, Vec<char>)> = Vec::new();
        parts.push((self.style, vec_suffix(line, 0)));
        self.history = Ghost(self.history@.push(line@));
        proof {
            assert(line@.subrange(0, line@.len() as int) =~= line@);
            let pv = parts_view(parts@);
            assert(pv =~= spec_highlight(self.style, line@));
            assert(pv.drop_last() =~= Seq::<(Style, Seq<char>)>::empty());
            assert(concat_texts(pv.drop_last()) =~= Seq::<char>::empty());
            assert(pv.last().1 == line@);
            assert(concat_texts(pv) == concat_texts(pv.drop_last()) + pv.last().1);
            assert(concat_texts(pv) =~= line@);
        }
        parts
    }
}

} // verus!
