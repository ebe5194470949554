//! Laws of the library, proved once and for all inputs.

use crate::canvas::{
    csi_reset, spec_draw_texts, spec_draw_texts_from, spec_fill_spaces, CanvasCfg, TextRes,
};
use crate::drawer::DrawerCfg;
use crate::highlight::{concat_texts, spec_highlight, LineHighlighter};
use crate::print::{dedup_first, lemma_dedup_contains};
use crate::themes::{fallback_names, primary_names, Style};
use vstd::prelude::*;

verus! {

/// A sequence ends with another.
pub open spec fn ends_with(s: Seq<char>, suffix: Seq<char>) -> bool {
    s.len() >= suffix.len() && s.skip(s.len() - suffix.len()) == suffix
}

proof fn lemma_ends_with_append(a: Seq<char>, b: Seq<char>, suffix: Seq<char>)
    requires
        ends_with(b, suffix),
    ensures
        ends_with(a + b, suffix),
{
    assert((a + b).skip((a + b).len() - suffix.len()) =~= b.skip(b.len() - suffix.len()));
}

#[verifier::rlimit(100)]
proof fn lemma_texts_from_ends_reset(
    cfg: CanvasCfg,
    parts: Seq<(Style, Seq<char>)>,
    i: nat,
    width: nat,
    matched: bool,
    max_width: nat,
)
    ensures
        ends_with(spec_draw_texts_from(cfg, parts, i, width, matched, max_width).0, csi_reset()),
    decreases parts.len() - i,
{
    reveal(spec_draw_texts_from);
    if i >= parts.len() {
        if matched || cfg.background {
            assert(ends_with(spec_fill_spaces(width as int, max_width as int), csi_reset())) by {
                assert(spec_fill_spaces(width as int, max_width as int).skip(
                    spec_fill_spaces(width as int, max_width as int).len() - csi_reset().len(),
                ) =~= csi_reset());
            }
            lemma_ends_with_append(
                if width == 0 && !matched {
                    crate::canvas::sgr_default_bg(cfg)
                } else {
                    Seq::<char>::empty()
                },
                spec_fill_spaces(width as int, max_width as int),
                csi_reset(),
            );
        } else {
            assert(ends_with(csi_reset(), csi_reset())) by {
                assert(csi_reset().skip(0) =~= csi_reset());
            }
            lemma_ends_with_append(
                if width == 0 && !matched {
                    crate::canvas::sgr_default_bg(cfg)
                } else {
                    Seq::<char>::empty()
                },
                csi_reset(),
                csi_reset(),
            );
        }
    } else {
        let style = parts[i as int].0;
        let text = parts[i as int].1;
        let dt = crate::canvas::spec_draw_text(text, 0, 0, (max_width - width) as nat, cfg.tab_width);
        match dt.1 {
            TextRes::Fit(w) => {
                lemma_texts_from_ends_reset(
                    cfg,
                    parts,
                    (i + 1) as nat,
                    (width + w) as nat,
                    matched,
                    max_width,
                );
                lemma_ends_with_append(
                    crate::canvas::spec_part_prefix(cfg, style, matched) + dt.0
                        + crate::canvas::sgr_unset_font(style.font_style),
                    spec_draw_texts_from(
                        cfg,
                        parts,
                        (i + 1) as nat,
                        (width + w) as nat,
                        matched,
                        max_width,
                    ).0,
                    csi_reset(),
                );
                assert(spec_draw_texts_from(cfg, parts, i, width, matched, max_width).0 =~= (
                crate::canvas::spec_part_prefix(cfg, style, matched) + dt.0
                    + crate::canvas::sgr_unset_font(style.font_style)) + spec_draw_texts_from(
                    cfg,
                    parts,
                    (i + 1) as nat,
                    (width + w) as nat,
                    matched,
                    max_width,
                ).0);
            },
            TextRes::Brk(k) => {
                assert(ends_with(csi_reset(), csi_reset())) by {
                    assert(csi_reset().skip(0) =~= csi_reset());
                }
                lemma_ends_with_append(
                    crate::canvas::spec_part_prefix(cfg, style, matched) + dt.0,
                    csi_reset(),
                    csi_reset(),
                );
                assert(spec_draw_texts_from(cfg, parts, i, width, matched, max_width).0 =~= (
                crate::canvas::spec_part_prefix(cfg, style, matched) + dt.0) + csi_reset());
            },
        }
    }
}

/// Escape balance: every screen line a body line produces — the completed
/// line and every wrapped piece alike — closes all its styles: its
/// emission ends with the reset sequence, and the drawer writes the
/// newline directly after it.
pub proof fn lemma_escape_balance(
    cfg: CanvasCfg,
    parts: Seq<(Style, Seq<char>)>,
    from: nat,
    matched: bool,
    max_width: nat,
)
    ensures
        ends_with(spec_draw_texts(cfg, parts, from, matched, max_width).0, csi_reset()),
{
    lemma_texts_from_ends_reset(cfg, parts, from, 0, matched, max_width);
    lemma_ends_with_append(
        if matched {
            match cfg.match_color {
                Some(c) => crate::canvas::sgr_color(c, cfg.true_color, true),
                None => Seq::<char>::empty(),
            }
        } else {
            Seq::<char>::empty()
        },
        spec_draw_texts_from(cfg, parts, from, 0, matched, max_width).0,
        csi_reset(),
    );
}

/// Escape balance for the separator between two chunks: the line closes
/// its style right before its terminating newline.
pub proof fn lemma_separator_escape_balance(d: DrawerCfg)
    ensures
        ends_with(crate::drawer::spec_separator_line(d), csi_reset() + seq!['\n']),
{
    reveal(crate::drawer::spec_separator_line);
    let s = crate::drawer::spec_separator_line(d);
    assert(s.skip(s.len() - (csi_reset() + seq!['\n']).len()) =~= csi_reset() + seq!['\n']);
}

/// Escape balance for the horizontal rules of the header and footer: each
/// closes its style right before its terminating newline.
pub proof fn lemma_rule_escape_balance(d: DrawerCfg, sep: char)
    ensures
        ends_with(crate::drawer::spec_horizontal_line(d, sep), csi_reset() + seq!['\n']),
{
    reveal(crate::drawer::spec_horizontal_line);
    let s = crate::drawer::spec_horizontal_line(d, sep);
    assert(s.skip(s.len() - (csi_reset() + seq!['\n']).len()) =~= csi_reset() + seq!['\n']);
}

/// Byte conservation: the tokenization of a line carries the line itself;
/// the concatenation of the token texts is the line.
pub proof fn lemma_byte_conservation(style: Style, line: Seq<char>)
    ensures
        concat_texts(spec_highlight(style, line)) == line,
{
    let pv = spec_highlight(style, line);
    assert(pv.drop_last() =~= Seq::<(Style, Seq<char>)>::empty());
    assert(concat_texts(pv.drop_last()) =~= Seq::<char>::empty());
    assert(concat_texts(pv) =~= line);
}

/// The highlighter state after skipping a line: the style is untouched and
/// the line joins the history.
pub open spec fn state_after_skip(h: LineHighlighter, line: Seq<char>) -> (Style, Seq<Seq<char>>) {
    (h.style, h.history@.push(line))
}

/// The highlighter state after highlighting a line.
pub open spec fn state_after_highlight(h: LineHighlighter, line: Seq<char>) -> (
    Style,
    Seq<Seq<char>>,
) {
    (h.style, h.history@.push(line))
}

/// State monotonicity: skipping a line has exactly the side effects on the
/// highlighter that highlighting it and discarding the output has, and the
/// tokenization of any later line depends only on the style the state
/// carries; so replacing every skip by highlight-and-discard leaves every
/// subsequent tokenization unchanged.
pub proof fn lemma_state_monotonicity(h: LineHighlighter, line: Seq<char>, later: Seq<char>)
    ensures
        state_after_skip(h, line) == state_after_highlight(h, line),
        spec_highlight(state_after_skip(h, line).0, later) == spec_highlight(
            state_after_highlight(h, line).0,
            later,
        ),
{
}

// ---------------------------------------------------------------------------
// Width correctness
// ---------------------------------------------------------------------------
/// The index of the first `m` at or after `i`, or the length if there is
/// none: where the first CSI sequence ends.
pub open spec fn first_m(s: Seq<char>, i: int) -> int
    decreases s.len() - i,
{
    if i < 0 || i >= s.len() {
        s.len() as int
    } else if s[i] == 'm' {
        i
    } else {
        first_m(s, i + 1)
    }
}

proof fn lemma_first_m_bounds(s: Seq<char>, i: int)
    requires
        0 <= i <= s.len(),
    ensures
        i <= first_m(s, i) <= s.len(),
    decreases s.len() - i,
{
    if i < s.len() && s[i] != 'm' {
        lemma_first_m_bounds(s, i + 1);
    }
}

proof fn lemma_first_m_at(s: Seq<char>, i: int, j: int)
    requires
        0 <= i <= j < s.len(),
        s[j] == 'm',
        forall|k: int| i <= k < j ==> s[k] != 'm',
    ensures
        first_m(s, i) == j,
    decreases j - i,
{
    if i < j {
        lemma_first_m_at(s, i + 1, j);
    }
}

/// The columns a character stream occupies on the terminal: CSI sequences
/// occupy none, every other character its displayed width.
pub open spec fn cols(s: Seq<char>) -> nat
    decreases s.len(),
    via cols_decreases
{
    if s.len() == 0 {
        0
    } else if s[0] == '\u{1b}' {
        let j = first_m(s, 0);
        if j < s.len() {
            cols(s.skip(j + 1))
        } else {
            0
        }
    } else {
        crate::canvas::eff_width(s[0]) + cols(s.skip(1))
    }
}

#[via_fn]
proof fn cols_decreases(s: Seq<char>) {
    if s.len() > 0 && s[0] == '\u{1b}' {
        lemma_first_m_bounds(s, 0);
    }
}

/// The columns of escape-free text: the sum of the characters' widths.
pub open spec fn text_cols(t: Seq<char>) -> nat
    decreases t.len(),
{
    if t.len() == 0 {
        0
    } else {
        crate::canvas::eff_width(t[0]) + text_cols(t.skip(1))
    }
}

/// No escape byte occurs in the text.
pub open spec fn esc_free(s: Seq<char>) -> bool {
    forall|k: int| 0 <= k < s.len() ==> s[k] != '\u{1b}'
}

/// No `m` occurs in the text (it cannot end a CSI sequence early).
pub open spec fn m_free(s: Seq<char>) -> bool {
    forall|k: int| 0 <= k < s.len() ==> s[k] != 'm'
}

proof fn lemma_text_cols_append(a: Seq<char>, b: Seq<char>)
    ensures
        text_cols(a + b) == text_cols(a) + text_cols(b),
    decreases a.len(),
{
    if a.len() == 0 {
        assert(a + b =~= b);
    } else {
        assert((a + b).skip(1) =~= a.skip(1) + b);
        lemma_text_cols_append(a.skip(1), b);
    }
}

proof fn lemma_cols_text(t: Seq<char>, rest: Seq<char>)
    requires
        esc_free(t),
    ensures
        cols(t + rest) == text_cols(t) + cols(rest),
    decreases t.len(),
{
    if t.len() == 0 {
        assert(t + rest =~= rest);
    } else {
        assert((t + rest).skip(1) =~= t.skip(1) + rest);
        lemma_cols_text(t.skip(1), rest);
    }
}

proof fn lemma_cols_csi(b: Seq<char>, rest: Seq<char>)
    requires
        m_free(b),
    ensures
        cols(crate::canvas::csi(b) + rest) == cols(rest),
{
    let s = crate::canvas::csi(b) + rest;
    assert(s[0] == '\u{1b}');
    assert(s[2 + b.len() as int] == 'm');
    assert forall|k: int| 0 <= k < 2 + b.len() implies s[k] != 'm' by {
        if k >= 2 {
            assert(s[k] == b[k - 2]);
        }
    }
    lemma_first_m_at(s, 0, 2 + b.len() as int);
    assert(s.skip(3 + b.len() as int) =~= rest);
}

proof fn lemma_dec_digits_m_free(n: nat)
    ensures
        m_free(crate::canvas::dec_digits(n)),
    decreases n,
{
    if n >= 10 {
        lemma_dec_digits_m_free(n / 10);
        assert forall|k: int|
            0 <= k < crate::canvas::dec_digits(n).len() implies crate::canvas::dec_digits(n)[k]
            != 'm' by {
            if k < crate::canvas::dec_digits(n / 10).len() {
                assert(crate::canvas::dec_digits(n)[k] == crate::canvas::dec_digits(n / 10)[k]);
            }
        }
    }
}

proof fn lemma_m_free_append(a: Seq<char>, b: Seq<char>)
    requires
        m_free(a),
        m_free(b),
    ensures
        m_free(a + b),
{
    assert forall|k: int| 0 <= k < (a + b).len() implies (a + b)[k] != 'm' by {
        if k < a.len() {
            assert((a + b)[k] == a[k]);
        } else {
            assert((a + b)[k] == b[k - a.len()]);
        }
    }
}

#[verifier::rlimit(100)]
proof fn lemma_cols_sgr(c: crate::themes::Color, tc: bool, bg: bool, rest: Seq<char>)
    ensures
        cols(crate::canvas::sgr_color(c, tc, bg) + rest) == cols(rest),
{
    let channel: Seq<char> = if bg {
        seq!['4', '8']
    } else {
        seq!['3', '8']
    };
    let base: nat = if bg {
        40
    } else {
        30
    };
    assert(m_free(channel));
    assert(m_free(seq![';', '5', ';']));
    assert(m_free(seq![';']));
    assert(m_free(seq!['3', '8', ';', '2', ';']));
    if c.a == 0 && c.r <= 7 {
        lemma_dec_digits_m_free((c.r + base) as nat);
        lemma_cols_csi(crate::canvas::dec_digits((c.r + base) as nat), rest);
    } else if c.a == 0 {
        lemma_dec_digits_m_free(c.r as nat);
        lemma_m_free_append(channel, seq![';', '5', ';']);
        lemma_m_free_append(channel + seq![';', '5', ';'], crate::canvas::dec_digits(c.r as nat));
        lemma_cols_csi(channel + seq![';', '5', ';'] + crate::canvas::dec_digits(c.r as nat), rest);
    } else if c.a == 1 {
        assert(crate::canvas::sgr_color(c, tc, bg) + rest =~= rest);
    } else if tc {
        lemma_dec_digits_m_free(c.r as nat);
        lemma_dec_digits_m_free(c.g as nat);
        lemma_dec_digits_m_free(c.b as nat);
        let body = channel + seq![';', '2', ';'] + crate::canvas::dec_digits(c.r as nat) + seq![';']
            + crate::canvas::dec_digits(c.g as nat) + seq![';'] + crate::canvas::dec_digits(
            c.b as nat,
        );
        lemma_m_free_append(channel, seq![';', '2', ';']);
        lemma_m_free_append(channel + seq![';', '2', ';'], crate::canvas::dec_digits(c.r as nat));
        lemma_m_free_append(
            channel + seq![';', '2', ';'] + crate::canvas::dec_digits(c.r as nat),
            seq![';'],
        );
        lemma_m_free_append(
            channel + seq![';', '2', ';'] + crate::canvas::dec_digits(c.r as nat) + seq![';'],
            crate::canvas::dec_digits(c.g as nat),
        );
        lemma_m_free_append(
            channel + seq![';', '2', ';'] + crate::canvas::dec_digits(c.r as nat) + seq![';']
                + crate::canvas::dec_digits(c.g as nat),
            seq![';'],
        );
        lemma_m_free_append(
            channel + seq![';', '2', ';'] + crate::canvas::dec_digits(c.r as nat) + seq![';']
                + crate::canvas::dec_digits(c.g as nat) + seq![';'],
            crate::canvas::dec_digits(c.b as nat),
        );
        lemma_cols_csi(body, rest);
    } else {
        lemma_dec_digits_m_free(crate::canvas::ansi256_of(c.r, c.g, c.b) as nat);
        lemma_m_free_append(channel, seq![';', '5', ';']);
        lemma_m_free_append(
            channel + seq![';', '5', ';'],
            crate::canvas::dec_digits(crate::canvas::ansi256_of(c.r, c.g, c.b) as nat),
        );
        lemma_cols_csi(
            channel + seq![';', '5', ';'] + crate::canvas::dec_digits(
                crate::canvas::ansi256_of(c.r, c.g, c.b) as nat,
            ),
            rest,
        );
    }
}

proof fn lemma_cols_reset(rest: Seq<char>)
    ensures
        cols(csi_reset() + rest) == cols(rest),
{
    assert(m_free(seq!['0']));
    lemma_cols_csi(seq!['0'], rest);
}

proof fn lemma_cols_default_bg(cfg: CanvasCfg, rest: Seq<char>)
    ensures
        cols(crate::canvas::sgr_default_bg(cfg) + rest) == cols(rest),
{
    if cfg.background {
        match cfg.theme_background {
            Some(c) => {
                lemma_cols_sgr(c, cfg.true_color, true, rest);
            },
            None => {
                assert(crate::canvas::sgr_default_bg(cfg) + rest =~= rest);
            },
        }
    } else {
        assert(crate::canvas::sgr_default_bg(cfg) + rest =~= rest);
    }
}

proof fn lemma_cols_set_font(f: crate::themes::FontStyle, rest: Seq<char>)
    ensures
        cols(crate::canvas::sgr_set_font(f) + rest) == cols(rest),
        cols(crate::canvas::sgr_unset_font(f) + rest) == cols(rest),
{
    assert(m_free(seq!['1']));
    assert(m_free(seq!['4']));
    assert(m_free(seq!['2', '2']));
    assert(m_free(seq!['2', '4']));
    if f.bold {
        if f.underline {
            lemma_cols_csi(seq!['4'], rest);
            assert(crate::canvas::sgr_set_font(f) + rest =~= crate::canvas::csi(seq!['1']) + (
            crate::canvas::csi(seq!['4']) + rest));
            lemma_cols_csi(seq!['1'], crate::canvas::csi(seq!['4']) + rest);
            lemma_cols_csi(seq!['2', '4'], rest);
            assert(crate::canvas::sgr_unset_font(f) + rest =~= crate::canvas::csi(seq!['2', '2'])
                + (crate::canvas::csi(seq!['2', '4']) + rest));
            lemma_cols_csi(seq!['2', '2'], crate::canvas::csi(seq!['2', '4']) + rest);
        } else {
            assert(crate::canvas::sgr_set_font(f) + rest =~= crate::canvas::csi(seq!['1']) + rest);
            lemma_cols_csi(seq!['1'], rest);
            assert(crate::canvas::sgr_unset_font(f) + rest =~= crate::canvas::csi(seq!['2', '2'])
                + rest);
            lemma_cols_csi(seq!['2', '2'], rest);
        }
    } else {
        if f.underline {
            assert(crate::canvas::sgr_set_font(f) + rest =~= crate::canvas::csi(seq!['4']) + rest);
            lemma_cols_csi(seq!['4'], rest);
            assert(crate::canvas::sgr_unset_font(f) + rest =~= crate::canvas::csi(seq!['2', '4'])
                + rest);
            lemma_cols_csi(seq!['2', '4'], rest);
        } else {
            assert(crate::canvas::sgr_set_font(f) + rest =~= rest);
            assert(crate::canvas::sgr_unset_font(f) + rest =~= rest);
        }
    }
}

proof fn lemma_text_cols_spaces(n: nat)
    requires
        crate::canvas::cjk_width_of(' ') == Some(1usize),
    ensures
        text_cols(crate::canvas::spaces(n)) == n,
    decreases n,
{
    if n > 0 {
        assert(crate::canvas::spaces(n).skip(1) =~= crate::canvas::spaces((n - 1) as nat));
        lemma_text_cols_spaces((n - 1) as nat);
    }
}

/// The text a token draws is escape-free and, when it all fits, occupies
/// exactly the columns the width accounting reports.
#[verifier::rlimit(100)]
proof fn lemma_draw_text_cols(text: Seq<char>, i: nat, width: nat, limit: nat, tab: nat)
    requires
        esc_free(text),
        width <= limit,
        crate::canvas::cjk_width_of(' ') == Some(1usize),
    ensures
        esc_free(crate::canvas::spec_draw_text(text, i, width, limit, tab).0),
        crate::canvas::spec_draw_text(text, i, width, limit, tab).1 matches TextRes::Fit(w)
            ==> width <= w <= limit && text_cols(
            crate::canvas::spec_draw_text(text, i, width, limit, tab).0,
        ) == w - width,
    decreases text.len() - i,
{
    let dt = crate::canvas::spec_draw_text(text, i, width, limit, tab);
    if i >= text.len() {
    } else {
        let c = text[i as int];
        if c == '\t' && tab > 0 {
            if width + tab > limit {
                assert forall|k: int| 0 <= k < dt.0.len() implies dt.0[k] != '\u{1b}' by {
                    assert(dt.0[k] == ' ');
                }
            } else {
                lemma_draw_text_cols(text, (i + 1) as nat, (width + tab) as nat, limit, tab);
                let r = crate::canvas::spec_draw_text(
                    text,
                    (i + 1) as nat,
                    (width + tab) as nat,
                    limit,
                    tab,
                );
                lemma_text_cols_append(crate::canvas::spaces(tab), r.0);
                lemma_text_cols_spaces(tab);
                assert forall|k: int| 0 <= k < dt.0.len() implies dt.0[k] != '\u{1b}' by {
                    if k < tab {
                        assert(dt.0[k] == ' ');
                    } else {
                        assert(dt.0[k] == r.0[k - tab]);
                    }
                }
            }
        } else {
            let w = crate::canvas::eff_width(c);
            if width + w > limit {
            } else {
                lemma_draw_text_cols(text, (i + 1) as nat, (width + w) as nat, limit, tab);
                let r = crate::canvas::spec_draw_text(
                    text,
                    (i + 1) as nat,
                    (width + w) as nat,
                    limit,
                    tab,
                );
                lemma_text_cols_append(seq![c], r.0);
                assert(seq![c].skip(1) =~= Seq::<char>::empty());
                assert(text_cols(Seq::<char>::empty()) == 0);
                assert(text_cols(seq![c]) == crate::canvas::eff_width(c));
                assert forall|k: int| 0 <= k < dt.0.len() implies dt.0[k] != '\u{1b}' by {
                    if k == 0 {
                        assert(dt.0[k] == c);
                    } else {
                        assert(dt.0[k] == r.0[k - 1]);
                    }
                }
            }
        }
    }
}

/// Every part text is escape-free from index `i` on.
pub open spec fn parts_esc_free(parts: Seq<(Style, Seq<char>)>, i: int) -> bool {
    forall|j: int| i <= j < parts.len() ==> esc_free((#[trigger] parts[j]).1)
}

#[verifier::rlimit(100)]
proof fn lemma_texts_done_cols(
    cfg: CanvasCfg,
    parts: Seq<(Style, Seq<char>)>,
    i: nat,
    width: nat,
    matched: bool,
    max_width: nat,
)
    requires
        matched || cfg.background,
        width <= max_width,
        parts_esc_free(parts, i as int),
        crate::canvas::cjk_width_of(' ') == Some(1usize),
        spec_draw_texts_from(cfg, parts, i, width, matched, max_width).1 == crate::canvas::TextsRes::Done,
    ensures
        cols(spec_draw_texts_from(cfg, parts, i, width, matched, max_width).0) == max_width
            - width,
    decreases parts.len() - i,
{
    reveal(spec_draw_texts_from);
    let full = spec_draw_texts_from(cfg, parts, i, width, matched, max_width);
    if i >= parts.len() {
        let fill = spec_fill_spaces(width as int, max_width as int);
        if width < max_width {
            assert(fill =~= crate::canvas::spaces((max_width - width) as nat) + csi_reset());
            assert(cols(csi_reset()) == 0) by {
                lemma_cols_reset(Seq::<char>::empty());
                assert(csi_reset() + Seq::<char>::empty() =~= csi_reset());
            }
            lemma_cols_text(crate::canvas::spaces((max_width - width) as nat), csi_reset());
            lemma_text_cols_spaces((max_width - width) as nat);
            assert(cols(fill) == max_width - width);
        } else {
            assert(fill =~= csi_reset());
            lemma_cols_reset(Seq::<char>::empty());
            assert(csi_reset() + Seq::<char>::empty() =~= csi_reset());
            assert(cols(fill) == 0);
        }
        if width == 0 && !matched {
            lemma_cols_default_bg(cfg, fill);
            assert(full.0 =~= crate::canvas::sgr_default_bg(cfg) + fill);
        } else {
            assert(full.0 =~= fill);
        }
    } else {
        let style = parts[i as int].0;
        let text = parts[i as int].1;
        let dt = crate::canvas::spec_draw_text(text, 0, 0, (max_width - width) as nat, cfg.tab_width);
        match dt.1 {
            TextRes::Fit(w) => {
                let r = spec_draw_texts_from(
                    cfg,
                    parts,
                    (i + 1) as nat,
                    (width + w) as nat,
                    matched,
                    max_width,
                );
                lemma_draw_text_cols(text, 0, 0, (max_width - width) as nat, cfg.tab_width);
                lemma_texts_done_cols(
                    cfg,
                    parts,
                    (i + 1) as nat,
                    (width + w) as nat,
                    matched,
                    max_width,
                );
                assert(full.0 =~= (if !matched && cfg.background {
                    crate::canvas::sgr_color(style.background, cfg.true_color, true)
                } else {
                    Seq::<char>::empty()
                }) + (crate::canvas::sgr_color(style.foreground, cfg.true_color, false) + (
                crate::canvas::sgr_set_font(style.font_style) + (dt.0 + (
                crate::canvas::sgr_unset_font(style.font_style) + r.0)))));
                lemma_cols_set_font(style.font_style, r.0);
                lemma_cols_text(dt.0, crate::canvas::sgr_unset_font(style.font_style) + r.0);
                lemma_cols_set_font(
                    style.font_style,
                    dt.0 + (crate::canvas::sgr_unset_font(style.font_style) + r.0),
                );
                lemma_cols_sgr(
                    style.foreground,
                    cfg.true_color,
                    false,
                    crate::canvas::sgr_set_font(style.font_style) + (dt.0 + (
                    crate::canvas::sgr_unset_font(style.font_style) + r.0)),
                );
                if !matched && cfg.background {
                    lemma_cols_sgr(
                        style.background,
                        cfg.true_color,
                        true,
                        crate::canvas::sgr_color(style.foreground, cfg.true_color, false) + (
                        crate::canvas::sgr_set_font(style.font_style) + (dt.0 + (
                        crate::canvas::sgr_unset_font(style.font_style) + r.0))),
                    );
                } else {
                    assert((if !matched && cfg.background {
                        crate::canvas::sgr_color(style.background, cfg.true_color, true)
                    } else {
                        Seq::<char>::empty()
                    }) + (crate::canvas::sgr_color(style.foreground, cfg.true_color, false) + (
                    crate::canvas::sgr_set_font(style.font_style) + (dt.0 + (
                    crate::canvas::sgr_unset_font(style.font_style) + r.0)))) =~= crate::canvas::sgr_color(
                        style.foreground,
                        cfg.true_color,
                        false,
                    ) + (crate::canvas::sgr_set_font(style.font_style) + (dt.0 + (
                    crate::canvas::sgr_unset_font(style.font_style) + r.0))));
                }
            },
            TextRes::Brk(k) => {
                assert(full.1 == crate::canvas::TextsRes::Wrap(k, i));
            },
        }
    }
}

/// Width correctness: in background or matched mode a completed body line
/// occupies exactly the full body width right of the gutter, a tab
/// counting `tab_width` columns, every other character its displayed
/// width (CJK-wide characters two columns), escape sequences none. It
/// holds of line texts without a raw escape byte, under the width table's
/// rule that a space is one column wide.
pub proof fn lemma_width_correctness(
    cfg: CanvasCfg,
    parts: Seq<(Style, Seq<char>)>,
    matched: bool,
    max_width: nat,
)
    requires
        matched || cfg.background,
        parts_esc_free(parts, 0),
        crate::canvas::cjk_width_of(' ') == Some(1usize),
        spec_draw_texts(cfg, parts, 0, matched, max_width).1 == crate::canvas::TextsRes::Done,
    ensures
        cols(spec_draw_texts(cfg, parts, 0, matched, max_width).0) == max_width,
{
    lemma_texts_done_cols(cfg, parts, 0, 0, matched, max_width);
    let body = spec_draw_texts_from(cfg, parts, 0, 0, matched, max_width);
    if matched {
        match cfg.match_color {
            Some(c) => {
                lemma_cols_sgr(c, cfg.true_color, true, body.0);
            },
            None => {
                assert(spec_draw_texts(cfg, parts, 0, matched, max_width).0 =~= body.0);
            },
        }
    } else {
        assert(spec_draw_texts(cfg, parts, 0, matched, max_width).0 =~= body.0);
    }
}

/// The text a character stream leaves on the screen: the stream with its
/// CSI sequences removed.
pub open spec fn strip_csi(s: Seq<char>) -> Seq<char>
    decreases s.len(),
    via strip_csi_decreases
{
    if s.len() == 0 {
        Seq::<char>::empty()
    } else if s[0] == '\u{1b}' {
        let j = first_m(s, 0);
        if j < s.len() {
            strip_csi(s.skip(j + 1))
        } else {
            Seq::<char>::empty()
        }
    } else {
        seq![s[0]] + strip_csi(s.skip(1))
    }
}

#[via_fn]
proof fn strip_csi_decreases(s: Seq<char>) {
    if s.len() > 0 && s[0] == '\u{1b}' {
        lemma_first_m_bounds(s, 0);
    }
}

proof fn lemma_strip_csi(b: Seq<char>, rest: Seq<char>)
    requires
        m_free(b),
    ensures
        strip_csi(crate::canvas::csi(b) + rest) == strip_csi(rest),
{
    let s = crate::canvas::csi(b) + rest;
    assert(s[0] == '\u{1b}');
    assert(s[2 + b.len() as int] == 'm');
    assert forall|k: int| 0 <= k < 2 + b.len() implies s[k] != 'm' by {
        if k >= 2 {
            assert(s[k] == b[k - 2]);
        }
    }
    lemma_first_m_at(s, 0, 2 + b.len() as int);
    assert(s.skip(3 + b.len() as int) =~= rest);
}

proof fn lemma_strip_text(t: Seq<char>, rest: Seq<char>)
    requires
        esc_free(t),
    ensures
        strip_csi(t + rest) == t + strip_csi(rest),
    decreases t.len(),
{
    if t.len() == 0 {
        assert(t + rest =~= rest);
        assert(t + strip_csi(rest) =~= strip_csi(rest));
    } else {
        assert((t + rest).skip(1) =~= t.skip(1) + rest);
        lemma_strip_text(t.skip(1), rest);
        assert(strip_csi(t + rest) =~= t + strip_csi(rest));
    }
}

/// The body of the CSI sequence a non-pass-through color emits.
pub open spec fn spec_sgr_body(c: crate::themes::Color, tc: bool, bg: bool) -> Seq<char> {
    let base: nat = if bg {
        40
    } else {
        30
    };
    let channel: Seq<char> = if bg {
        seq!['4', '8']
    } else {
        seq!['3', '8']
    };
    if c.a == 0 && c.r <= 7 {
        crate::canvas::dec_digits((c.r + base) as nat)
    } else if c.a == 0 {
        channel + seq![';', '5', ';'] + crate::canvas::dec_digits(c.r as nat)
    } else if tc {
        channel + seq![';', '2', ';'] + crate::canvas::dec_digits(c.r as nat) + seq![';']
            + crate::canvas::dec_digits(c.g as nat) + seq![';'] + crate::canvas::dec_digits(
            c.b as nat,
        )
    } else {
        channel + seq![';', '5', ';'] + crate::canvas::dec_digits(
            crate::canvas::ansi256_of(c.r, c.g, c.b) as nat,
        )
    }
}

/// A color emission is empty (pass-through) or one CSI sequence whose body
/// holds no `m`.
proof fn lemma_sgr_shape(c: crate::themes::Color, tc: bool, bg: bool)
    ensures
        c.a == 1 ==> crate::canvas::sgr_color(c, tc, bg) == Seq::<char>::empty(),
        c.a != 1 ==> crate::canvas::sgr_color(c, tc, bg) == crate::canvas::csi(
            spec_sgr_body(c, tc, bg),
        ) && m_free(spec_sgr_body(c, tc, bg)),
{
    let channel: Seq<char> = if bg {
        seq!['4', '8']
    } else {
        seq!['3', '8']
    };
    let base: nat = if bg {
        40
    } else {
        30
    };
    assert(m_free(channel));
    assert(m_free(seq![';', '5', ';']));
    assert(m_free(seq![';', '2', ';']));
    assert(m_free(seq![';']));
    if c.a == 0 && c.r <= 7 {
        lemma_dec_digits_m_free((c.r + base) as nat);
    } else if c.a == 0 {
        lemma_dec_digits_m_free(c.r as nat);
        lemma_m_free_append(channel, seq![';', '5', ';']);
        lemma_m_free_append(channel + seq![';', '5', ';'], crate::canvas::dec_digits(c.r as nat));
    } else if c.a == 1 {
    } else if tc {
        lemma_dec_digits_m_free(c.r as nat);
        lemma_dec_digits_m_free(c.g as nat);
        lemma_dec_digits_m_free(c.b as nat);
        lemma_m_free_append(channel, seq![';', '2', ';']);
        lemma_m_free_append(channel + seq![';', '2', ';'], crate::canvas::dec_digits(c.r as nat));
        lemma_m_free_append(
            channel + seq![';', '2', ';'] + crate::canvas::dec_digits(c.r as nat),
            seq![';'],
        );
        lemma_m_free_append(
            channel + seq![';', '2', ';'] + crate::canvas::dec_digits(c.r as nat) + seq![';'],
            crate::canvas::dec_digits(c.g as nat),
        );
        lemma_m_free_append(
            channel + seq![';', '2', ';'] + crate::canvas::dec_digits(c.r as nat) + seq![';']
                + crate::canvas::dec_digits(c.g as nat),
            seq![';'],
        );
        lemma_m_free_append(
            channel + seq![';', '2', ';'] + crate::canvas::dec_digits(c.r as nat) + seq![';']
                + crate::canvas::dec_digits(c.g as nat) + seq![';'],
            crate::canvas::dec_digits(c.b as nat),
        );
    } else {
        lemma_dec_digits_m_free(crate::canvas::ansi256_of(c.r, c.g, c.b) as nat);
        lemma_m_free_append(channel, seq![';', '5', ';']);
        lemma_m_free_append(
            channel + seq![';', '5', ';'],
            crate::canvas::dec_digits(crate::canvas::ansi256_of(c.r, c.g, c.b) as nat),
        );
    }
}

proof fn lemma_strip_sgr(c: crate::themes::Color, tc: bool, bg: bool, rest: Seq<char>)
    ensures
        strip_csi(crate::canvas::sgr_color(c, tc, bg) + rest) == strip_csi(rest),
{
    lemma_sgr_shape(c, tc, bg);
    if c.a == 1 {
        assert(crate::canvas::sgr_color(c, tc, bg) + rest =~= rest);
    } else {
        lemma_strip_csi(spec_sgr_body(c, tc, bg), rest);
    }
}

proof fn lemma_strip_default_bg(cfg: CanvasCfg, rest: Seq<char>)
    ensures
        strip_csi(crate::canvas::sgr_default_bg(cfg) + rest) == strip_csi(rest),
{
    if cfg.background {
        match cfg.theme_background {
            Some(c) => {
                lemma_strip_sgr(c, cfg.true_color, true, rest);
            },
            None => {
                assert(crate::canvas::sgr_default_bg(cfg) + rest =~= rest);
            },
        }
    } else {
        assert(crate::canvas::sgr_default_bg(cfg) + rest =~= rest);
    }
}

proof fn lemma_dec_digits_len(n: nat)
    ensures
        crate::canvas::dec_digits(n).len() == crate::drawer::spec_num_digits(n),
    decreases n,
{
    if n >= 10 {
        lemma_dec_digits_len(n / 10);
    }
}

proof fn lemma_dec_digits_esc_free(n: nat)
    ensures
        esc_free(crate::canvas::dec_digits(n)),
    decreases n,
{
    if n >= 10 {
        lemma_dec_digits_esc_free(n / 10);
        assert forall|k: int|
            0 <= k < crate::canvas::dec_digits(n).len() implies crate::canvas::dec_digits(n)[k]
            != '\u{1b}' by {
            if k < crate::canvas::dec_digits(n / 10).len() {
                assert(crate::canvas::dec_digits(n)[k] == crate::canvas::dec_digits(n / 10)[k]);
            }
        }
    }
}

/// The visible text of the line-number gutter: padding, the right-aligned
/// number, the bar in grid mode, a final margin.
pub open spec fn spec_gutter_text(d: DrawerCfg, lnum: nat) -> Seq<char> {
    crate::canvas::spaces((d.lnum_width - crate::drawer::spec_num_digits(lnum)) as nat) + seq![' ']
        + crate::canvas::dec_digits(lnum) + (if d.grid {
        seq![' ', '\u{2502}']
    } else {
        Seq::<char>::empty()
    }) + seq![' ']
}

/// Width correctness of the gutter: stripping the CSI sequences from the
/// line-number gutter leaves exactly its text, which occupies the gutter
/// width — one column per space, digit and bar glyph.
#[verifier::rlimit(100)]
pub proof fn lemma_gutter_residual(d: DrawerCfg, lnum: nat, matched: bool)
    requires
        crate::drawer::spec_num_digits(lnum) <= d.lnum_width,
    ensures
        strip_csi(crate::drawer::spec_line_number(d, lnum, matched)) == spec_gutter_text(d, lnum),
        spec_gutter_text(d, lnum).len() == d.gutter_width(),
{
    reveal(crate::drawer::spec_line_number);
    let fg = if matched {
        match d.theme.foreground {
            Some(c) => c,
            None => d.gutter_color,
        }
    } else {
        d.gutter_color
    };
    let pad = crate::canvas::spaces(
        (d.lnum_width - crate::drawer::spec_num_digits(lnum)) as nat,
    );
    let digits = crate::canvas::dec_digits(lnum);
    let l6a: Seq<char> = if d.grid && matched {
        crate::canvas::sgr_color(d.gutter_color, d.canvas.true_color, false)
    } else {
        Seq::<char>::empty()
    };
    let l6b: Seq<char> = if d.grid {
        seq![' ', '\u{2502}']
    } else {
        Seq::<char>::empty()
    };
    let tail = crate::canvas::sgr_default_bg(d.canvas) + seq![' '];
    let e = crate::canvas::sgr_color(fg, d.canvas.true_color, false) + (crate::canvas::sgr_default_bg(
        d.canvas,
    ) + (pad + (seq![' '] + (digits + (l6a + (l6b + tail))))));
    assert(crate::drawer::spec_line_number(d, lnum, matched) =~= e);
    lemma_dec_digits_esc_free(lnum);
    lemma_dec_digits_len(lnum);
    // innermost first: the trailing margin
    assert(seq![' '] + Seq::<char>::empty() =~= seq![' ']);
    assert(strip_csi(Seq::<char>::empty()) =~= Seq::<char>::empty());
    lemma_strip_text(seq![' '], Seq::<char>::empty());
    assert(strip_csi(seq![' ']) =~= seq![' ']);
    lemma_strip_default_bg(d.canvas, seq![' ']);
    assert(strip_csi(tail) =~= seq![' ']);
    if d.grid {
        lemma_strip_text(l6b, tail);
        assert(strip_csi(l6b + tail) =~= l6b + seq![' ']);
    } else {
        assert(l6b + tail =~= tail);
    }
    if d.grid && matched {
        lemma_strip_sgr(d.gutter_color, d.canvas.true_color, false, l6b + tail);
    } else {
        assert(l6a + (l6b + tail) =~= l6b + tail);
    }
    assert(strip_csi(l6a + (l6b + tail)) =~= l6b + seq![' ']);
    lemma_strip_text(digits, l6a + (l6b + tail));
    assert(strip_csi(digits + (l6a + (l6b + tail))) =~= digits + (l6b + seq![' ']));
    lemma_strip_text(seq![' '], digits + (l6a + (l6b + tail)));
    lemma_strip_text(pad, seq![' '] + (digits + (l6a + (l6b + tail))));
    assert(strip_csi(pad + (seq![' '] + (digits + (l6a + (l6b + tail))))) =~= pad + (seq![' '] + (
    digits + (l6b + seq![' ']))));
    lemma_strip_default_bg(d.canvas, pad + (seq![' '] + (digits + (l6a + (l6b + tail)))));
    lemma_strip_sgr(
        fg,
        d.canvas.true_color,
        false,
        crate::canvas::sgr_default_bg(d.canvas) + (pad + (seq![' '] + (digits + (l6a + (l6b
            + tail))))),
    );
    assert(strip_csi(e) =~= pad + (seq![' '] + (digits + (l6b + seq![' ']))));
    assert(spec_gutter_text(d, lnum) =~= pad + (seq![' '] + (digits + (l6b + seq![' ']))));
}

/// The names `list_themes` writes, in order.
pub open spec fn listed_theme_names() -> Seq<Seq<char>> {
    dedup_first(primary_names() + fallback_names())
}

proof fn lemma_dedup_distinct(s: Seq<Seq<char>>)
    ensures
        forall|i: int, j: int|
            0 <= i < j < dedup_first(s).len() ==> dedup_first(s)[i] != dedup_first(s)[j],
    decreases s.len(),
{
    if s.len() > 0 {
        lemma_dedup_distinct(s.drop_last());
        let d = dedup_first(s.drop_last());
        if !s.drop_last().contains(s.last()) {
            lemma_dedup_contains(s.drop_last(), s.last());
            let ds = dedup_first(s);
            assert(ds == d.push(s.last()));
            assert forall|i: int, j: int| 0 <= i < j < ds.len() implies ds[i] != ds[j] by {
                if j < d.len() {
                    assert(d[i] != d[j]);
                } else {
                    assert(ds[j] == s.last());
                    assert(ds[i] == d[i]);
                    if d[i] == s.last() {
                        assert(d.contains(s.last()));
                    }
                }
            }
        }
    }
}

proof fn lemma_dedup_concat(a: Seq<Seq<char>>, b: Seq<Seq<char>>)
    ensures
        dedup_first(a).len() <= dedup_first(a + b).len(),
        dedup_first(a + b).take(dedup_first(a).len() as int) == dedup_first(a),
        forall|k: int|
            dedup_first(a).len() <= k < dedup_first(a + b).len() ==> !a.contains(
                #[trigger] dedup_first(a + b)[k],
            ),
    decreases b.len(),
{
    if b.len() == 0 {
        assert(a + b =~= a);
        assert(dedup_first(a).take(dedup_first(a).len() as int) =~= dedup_first(a));
    } else {
        lemma_dedup_concat(a, b.drop_last());
        let s = a + b;
        assert(s.drop_last() =~= a + b.drop_last());
        let d = dedup_first(s.drop_last());
        if s.drop_last().contains(s.last()) {
            assert(dedup_first(s) == d);
        } else {
            assert(dedup_first(s) == d.push(s.last()));
            if a.contains(s.last()) {
                let i = choose|i: int| 0 <= i < a.len() && a[i] == s.last();
                assert(s.drop_last()[i] == s.last());
                assert(s.drop_last().contains(s.last()));
            }
            assert(d.push(s.last()).take(dedup_first(a).len() as int) =~= d.take(
                dedup_first(a).len() as int,
            ));
        }
    }
}

/// List-themes ordering: no theme name is listed twice, the names of the
/// primary set come first and keep their order, and every name after them
/// is from the fallback set only.
pub proof fn lemma_list_themes_order()
    ensures
        forall|i: int, j: int|
            0 <= i < j < listed_theme_names().len() ==> listed_theme_names()[i]
                != listed_theme_names()[j],
        listed_theme_names().take(dedup_first(primary_names()).len() as int) == dedup_first(
            primary_names(),
        ),
        forall|k: int|
            dedup_first(primary_names()).len() <= k < listed_theme_names().len()
                ==> !primary_names().contains(#[trigger] listed_theme_names()[k]),
{
    lemma_dedup_distinct(primary_names() + fallback_names());
    lemma_dedup_concat(primary_names(), fallback_names());
}

} // verus!
