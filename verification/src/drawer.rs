//! The drawer: composes gutter, header, footer, separators and body lines,
//! and drives the wrap loop.

use crate::canvas::{
    csi, csi_reset, parts_view, repeat_char, sgr_color, sgr_default_bg, spaces, spec_draw_texts,
    spec_fill_spaces, Canvas, CanvasCfg, TextsDrawn, TextsRes,
};
use crate::highlight::{spec_highlight, vec_suffix, LineHighlighter};
use crate::lines::{lossy_decode, spec_line_end, Line, LinesInclusive};
use crate::printer::{chunks_wf, File, PrinterOptions, TermColorSupport};
use crate::themes::{theme_wf, Color, Style, Theme};
use vstd::prelude::*;
use vstd::string::StrSliceExecFns;

verus! {

// ---------------------------------------------------------------------------
// Layout arithmetic
// ---------------------------------------------------------------------------
/// How many decimal digits a number has.
pub open spec fn spec_num_digits(n: nat) -> nat
    decreases n,
{
    if n < 10 {
        1
    } else {
        1 + spec_num_digits(n / 10)
    }
}

/// Ten to the `k`.
pub open spec fn pow10(k: nat) -> nat
    decreases k,
{
    if k == 0 {
        1
    } else {
        10 * pow10((k - 1) as nat)
    }
}

proof fn lemma_num_digits_le(n: nat, k: nat)
    requires
        k >= 1,
        n < pow10(k),
    ensures
        spec_num_digits(n) <= k,
    decreases k,
{
    if n >= 10 {
        assert(pow10(k) == 10 * pow10((k - 1) as nat));
        assert(n / 10 < pow10((k - 1) as nat)) by (nonlinear_arith)
            requires
                n < 10 * pow10((k - 1) as nat),
        ;
        lemma_num_digits_le(n / 10, (k - 1) as nat);
    }
}

/// More digits never come from a smaller number.
pub proof fn lemma_num_digits_mono(a: nat, b: nat)
    requires
        a <= b,
    ensures
        spec_num_digits(a) <= spec_num_digits(b),
    decreases b,
{
    if a >= 10 {
        assert(a / 10 <= b / 10) by (nonlinear_arith)
            requires
                a <= b,
        ;
        lemma_num_digits_mono(a / 10, b / 10);
    }
}

/// How many decimal digits a number has.
pub fn num_digits(n: u64) -> (r: usize)
    ensures
        r == spec_num_digits(n as nat),
        1 <= r <= 20,
    decreases n,
{
    proof {
        assert(pow10(20) == 100000000000000000000nat) by {
            reveal_with_fuel(pow10, 21);
        }
        lemma_num_digits_le(n as nat, 20);
    }
    if n < 10 {
        1
    } else {
        1 + num_digits(n / 10)
    }
}

/// The width of the line-number column: the digits of the last rendered
/// line number, at least 3 when a `...` separator may appear.
pub open spec fn spec_lnum_width(chunks: Seq<(u64, u64)>) -> nat {
    let last: nat = if chunks.len() == 0 {
        0
    } else {
        chunks.last().1 as nat
    };
    let d = spec_num_digits(last);
    if chunks.len() > 1 && d < 3 {
        3
    } else {
        d
    }
}

/// The gutter: the line-number column plus margins and the optional bar.
pub open spec fn spec_gutter_width(grid: bool, lnum_width: nat) -> nat {
    lnum_width + (if grid {
        4nat
    } else {
        2nat
    })
}

/// The gutter foreground: the theme's, or a mid gray.
pub open spec fn spec_gutter_color(t: Theme) -> Color {
    match t.gutter_foreground {
        Some(c) => c,
        None => Color { r: 128, g: 128, b: 128, a: 255 },
    }
}

/// The canvas configuration a drawer renders under.
pub open spec fn spec_canvas_cfg(opts: PrinterOptions, theme: Theme) -> CanvasCfg {
    CanvasCfg {
        tab_width: opts.tab_width as nat,
        true_color: opts.color_support == TermColorSupport::True,
        background: opts.background_color,
        theme_background: theme.background,
        match_color: match theme.line_highlight {
            Some(c) => Some(c),
            None => theme.background,
        },
    }
}

/// No chunk ends after a later chunk.
pub proof fn lemma_chunk_ends_mono(chunks: Seq<(u64, u64)>, i: int)
    requires
        chunks_wf(chunks),
        0 <= i < chunks.len(),
    ensures
        chunks[i].1 <= chunks.last().1,
    decreases chunks.len() - i,
{
    if i < chunks.len() - 1 {
        lemma_chunk_ends_mono(chunks, i + 1);
    }
}

// ---------------------------------------------------------------------------
// The drawer
// ---------------------------------------------------------------------------
/// The per-file layout state of the drawer.
pub struct DrawerCfg {
    pub theme: Theme,
    pub grid: bool,
    pub term_width: nat,
    pub lnum_width: nat,
    pub background: bool,
    pub gutter_color: Color,
    pub canvas: CanvasCfg,
}

impl DrawerCfg {
    pub open spec fn gutter_width(self) -> nat {
        spec_gutter_width(self.grid, self.lnum_width)
    }

    pub open spec fn body_width(self) -> nat {
        (self.term_width - self.gutter_width()) as nat
    }
}

/// Draws one file's output onto a canvas.
pub struct Drawer {
    pub theme: Theme,
    pub grid: bool,
    pub term_width: usize,
    pub lnum_width: usize,
    pub background: bool,
    pub gutter_color: Color,
    pub canvas: Canvas,
}

impl Drawer {
    /// The layout state, which drawing never changes.
    pub open spec fn dcfg(self) -> DrawerCfg {
        DrawerCfg {
            theme: self.theme,
            grid: self.grid,
            term_width: self.term_width as nat,
            lnum_width: self.lnum_width as nat,
            background: self.background,
            gutter_color: self.gutter_color,
            canvas: self.canvas.cfg(),
        }
    }

    /// The terminal is wide enough for the gutter and a minimal body, and
    /// the theme can color a matched line number.
    pub open spec fn wf(self) -> bool {
        &&& 1 <= self.lnum_width <= 20
        &&& self.dcfg().gutter_width() + 3 <= self.term_width <= 65535
        &&& theme_wf(self.theme)
    }

    /// A new drawer over an empty canvas, laid out for the given chunks.
    pub fn new(opts: &PrinterOptions, theme: &Theme, chunks: &Vec<(u64, u64)>) -> (r: Drawer)
        ensures
            r.theme == *theme,
            r.grid == opts.grid,
            r.term_width == opts.term_width as usize,
            r.lnum_width as nat == spec_lnum_width(chunks@),
            r.background == opts.background_color,
            r.gutter_color == spec_gutter_color(*theme),
            r.canvas.out@ == Seq::<char>::empty(),
            r.canvas.cfg() == spec_canvas_cfg(*opts, *theme),
            1 <= r.lnum_width <= 20,
    {
        let last_lnum: u64 = if chunks.len() > 0 {
            chunks[chunks.len() - 1].1
        } else {
            0
        };
        let mut lnum_width = num_digits(last_lnum);
        if chunks.len() > 1 && lnum_width < 3 {
            lnum_width = 3;
        }
        let gutter_color = match theme.gutter_foreground {
            Some(c) => c,
            None => Color { r: 128, g: 128, b: 128, a: 255 },
        };
        let match_color = match theme.line_highlight {
            Some(c) => Some(c),
            None => theme.background,
        };
        let canvas = Canvas {
            out: Vec::new(),
            tab_width: opts.tab_width,
            true_color: matches!(opts.color_support, TermColorSupport::True),
            background: opts.background_color,
            theme_background: theme.background,
            match_color,
        };
        Drawer {
            theme: *theme,
            grid: opts.grid,
            term_width: opts.term_width as usize,
            lnum_width,
            background: opts.background_color,
            gutter_color,
            canvas,
        }
    }

    /// The gutter width in columns.
    pub fn gutter_width(&self) -> (r: usize)
        requires
            self.lnum_width <= 20,
        ensures
            r as nat == self.dcfg().gutter_width(),
    {
        if self.grid {
            self.lnum_width + 4
        } else {
            self.lnum_width + 2
        }
    }

    /// Draw a horizontal rule with `sep` at the gutter boundary.
    #[verifier::rlimit(100)]
    pub fn draw_horizontal_line(&mut self, sep: char)
        requires
            old(self).wf(),
        ensures
            final(self).canvas.out@ == old(self).canvas.out@ + spec_horizontal_line(
                old(self).dcfg(),
                sep,
            ),
            final(self).dcfg() == old(self).dcfg(),
            final(self).wf(),
    {
        self.canvas.set_fg(self.gutter_color);
        self.canvas.set_default_bg();
        let gw = self.gutter_width();
        self.canvas.draw_repeat('─', gw - 2);
        self.canvas.out.push(sep);
        self.canvas.draw_repeat('─', self.term_width - gw + 1);
        self.canvas.reset_color();
        self.canvas.out.push('\n');
        assert(self.canvas.out@ =~= old(self).canvas.out@ + spec_horizontal_line(
            old(self).dcfg(),
            sep,
        )) by {
            reveal(spec_horizontal_line);
        }
    }

    /// Draw the line-number gutter of a body line. The colors stay open:
    /// the body text follows.
    #[verifier::rlimit(100)]
    pub fn draw_line_number(&mut self, lnum: u64, matched: bool)
        requires
            old(self).wf(),
            spec_num_digits(lnum as nat) <= old(self).lnum_width,
        ensures
            final(self).canvas.out@ == old(self).canvas.out@ + spec_line_number(
                old(self).dcfg(),
                lnum as nat,
                matched,
            ),
            final(self).dcfg() == old(self).dcfg(),
            final(self).wf(),
    {
        let fg = if matched {
            match self.theme.foreground {
                Some(c) => c,
                None => self.gutter_color,
            }
        } else {
            self.gutter_color
        };
        let ghost d = old(self).dcfg();
        let ghost o0 = self.canvas.out@;
        self.canvas.set_fg(fg);
        self.canvas.set_default_bg();
        let width = num_digits(lnum);
        self.canvas.draw_spaces(self.lnum_width - width);
        self.canvas.out.push(' ');
        self.canvas.push_number(lnum);
        let ghost o1 = self.canvas.out@;
        assert(o1 =~= o0 + (sgr_color(fg, d.canvas.true_color, false) + sgr_default_bg(d.canvas)
            + spaces((d.lnum_width - spec_num_digits(lnum as nat)) as nat) + seq![' ']
            + crate::canvas::dec_digits(lnum as nat)));
        if self.grid {
            if matched {
                self.canvas.set_fg(self.gutter_color);
            }
            self.canvas.out.push(' ');
            self.canvas.out.push('│');
        }
        let ghost o2 = self.canvas.out@;
        assert(o2 =~= o1 + (if d.grid {
            (if matched {
                sgr_color(d.gutter_color, d.canvas.true_color, false)
            } else {
                Seq::<char>::empty()
            }) + seq![' ', '│']
        } else {
            Seq::<char>::empty()
        }));
        self.canvas.set_default_bg();
        self.canvas.out.push(' ');
        assert(self.canvas.out@ =~= o2 + (sgr_default_bg(d.canvas) + seq![' ']));
        assert(self.canvas.out@ =~= o0 + spec_line_number(d, lnum as nat, matched)) by {
            reveal(spec_line_number);
        }
    }

    /// Draw the gutter of a wrapped continuation line.
    pub fn draw_wrapping_gutter(&mut self)
        requires
            old(self).wf(),
        ensures
            final(self).canvas.out@ == old(self).canvas.out@ + spec_wrap_gutter(old(self).dcfg()),
            final(self).dcfg() == old(self).dcfg(),
            final(self).wf(),
    {
        self.canvas.set_fg(self.gutter_color);
        self.canvas.set_default_bg();
        self.canvas.draw_spaces(self.lnum_width + 2);
        if self.grid {
            self.canvas.out.push('│');
            self.canvas.out.push(' ');
        }
        assert(self.canvas.out@ =~= old(self).canvas.out@ + spec_wrap_gutter(old(self).dcfg()))
            by {
            reveal(spec_wrap_gutter);
        }
    }

    /// Draw the `...` separator line between two chunks.
    #[verifier::rlimit(100)]
    pub fn draw_separator_line(&mut self)
        requires
            old(self).wf(),
            old(self).lnum_width >= 3,
        ensures
            final(self).canvas.out@ == old(self).canvas.out@ + spec_separator_line(
                old(self).dcfg(),
            ),
            final(self).dcfg() == old(self).dcfg(),
            final(self).wf(),
    {
        self.canvas.set_fg(self.gutter_color);
        self.canvas.set_default_bg();
        let left_margin = self.lnum_width + 1 - 3;
        self.canvas.draw_spaces(left_margin);
        let w: usize = if self.grid {
            self.canvas.out.push('.');
            self.canvas.out.push('.');
            self.canvas.out.push('.');
            self.canvas.out.push(' ');
            self.canvas.out.push('├');
            5
        } else {
            self.canvas.out.push('.');
            self.canvas.out.push('.');
            self.canvas.out.push('.');
            3
        };
        self.canvas.set_default_bg();
        self.canvas.draw_repeat('─', self.term_width - left_margin - w);
        self.canvas.reset_color();
        self.canvas.out.push('\n');
        assert(self.canvas.out@ =~= old(self).canvas.out@ + spec_separator_line(old(self).dcfg()))
            by {
            reveal(spec_separator_line);
        }
    }

    /// Draw the footer: a bottom rule, only in grid mode.
    pub fn draw_footer(&mut self)
        requires
            old(self).wf(),
        ensures
            final(self).canvas.out@ == old(self).canvas.out@ + spec_footer(old(self).dcfg()),
            final(self).dcfg() == old(self).dcfg(),
            final(self).wf(),
    {
        if self.grid {
            self.draw_horizontal_line('┴');
        }
        assert(self.canvas.out@ =~= old(self).canvas.out@ + spec_footer(old(self).dcfg()));
    }
}

/// What a horizontal rule emits.
#[verifier::opaque]
pub open spec fn spec_horizontal_line(d: DrawerCfg, sep: char) -> Seq<char> {
    sgr_color(d.gutter_color, d.canvas.true_color, false) + sgr_default_bg(d.canvas) + repeat_char(
        '─',
        (d.gutter_width() - 2) as nat,
    ) + seq![sep] + repeat_char('─', (d.term_width - d.gutter_width() + 1) as nat) + csi_reset()
        + seq!['\n']
}

/// What the line-number gutter emits: a matched line's number takes the
/// theme foreground, any other the gutter color.
#[verifier::opaque]
pub open spec fn spec_line_number(d: DrawerCfg, lnum: nat, matched: bool) -> Seq<char> {
    let fg = if matched {
        match d.theme.foreground {
            Some(c) => c,
            None => d.gutter_color,
        }
    } else {
        d.gutter_color
    };
    sgr_color(fg, d.canvas.true_color, false) + sgr_default_bg(d.canvas) + spaces(
        (d.lnum_width - spec_num_digits(lnum)) as nat,
    ) + seq![' '] + crate::canvas::dec_digits(lnum) + (if d.grid {
        (if matched {
            sgr_color(d.gutter_color, d.canvas.true_color, false)
        } else {
            Seq::<char>::empty()
        }) + seq![' ', '│']
    } else {
        Seq::<char>::empty()
    }) + sgr_default_bg(d.canvas) + seq![' ']
}

/// What the wrap gutter emits.
#[verifier::opaque]
pub open spec fn spec_wrap_gutter(d: DrawerCfg) -> Seq<char> {
    sgr_color(d.gutter_color, d.canvas.true_color, false) + sgr_default_bg(d.canvas) + spaces(
        (d.lnum_width + 2) as nat,
    ) + (if d.grid {
        seq!['│', ' ']
    } else {
        Seq::<char>::empty()
    })
}

/// What the separator line between two chunks emits. Like every other
/// line it closes its style before the newline.
#[verifier::opaque]
pub open spec fn spec_separator_line(d: DrawerCfg) -> Seq<char> {
    let left_margin = (d.lnum_width + 1 - 3) as nat;
    let w: nat = if d.grid {
        5
    } else {
        3
    };
    sgr_color(d.gutter_color, d.canvas.true_color, false) + sgr_default_bg(d.canvas) + spaces(
        left_margin,
    ) + (if d.grid {
        seq!['.', '.', '.', ' ', '├']
    } else {
        seq!['.', '.', '.']
    }) + sgr_default_bg(d.canvas) + repeat_char('─', (d.term_width - left_margin - w) as nat)
        + csi_reset() + seq!['\n']
}

/// What the footer emits.
pub open spec fn spec_footer(d: DrawerCfg) -> Seq<char> {
    if d.grid {
        spec_horizontal_line(d, '┴')
    } else {
        Seq::<char>::empty()
    }
}

// ---------------------------------------------------------------------------
// The wrap loop
// ---------------------------------------------------------------------------
/// How much of a line remains to draw from part `i` on: one step per part
/// plus one per character.
pub open spec fn parts_measure(parts: Seq<(Style, Seq<char>)>, i: int) -> nat
    decreases parts.len() - i,
{
    if i < 0 || i >= parts.len() {
        0
    } else {
        1 + parts[i].1.len() + parts_measure(parts, i + 1)
    }
}

proof fn lemma_measure_congruent(a: Seq<(Style, Seq<char>)>, b: Seq<(Style, Seq<char>)>, i: int)
    requires
        a.len() == b.len(),
        forall|k: int| i <= k < a.len() ==> a[k] == b[k],
    ensures
        parts_measure(a, i) == parts_measure(b, i),
    decreases a.len() - i,
{
    if 0 <= i < a.len() {
        lemma_measure_congruent(a, b, i + 1);
    }
}

proof fn lemma_measure_mono(parts: Seq<(Style, Seq<char>)>, i: int, j: int)
    requires
        0 <= i <= j <= parts.len(),
    ensures
        parts_measure(parts, i) >= parts_measure(parts, j) + (j - i),
    decreases j - i,
{
    if i < j {
        lemma_measure_mono(parts, i + 1, j);
    }
}

/// The state of the wrap loop after a break at character `k` of part
/// `idx`: when the rest of that part is empty the next round starts after
/// it, else the part is re-sliced to its rest.
pub open spec fn spec_wrap_step(parts: Seq<(Style, Seq<char>)>, k: nat, idx: nat) -> (
    Seq<(Style, Seq<char>)>,
    nat,
) {
    if idx < parts.len() && k < parts[idx as int].1.len() {
        (parts.update(idx as int, (parts[idx as int].0, parts[idx as int].1.skip(k as int))), idx)
    } else {
        (parts, (idx + 1) as nat)
    }
}

/// What drawing one body line's parts emits, wrap gutters and the final
/// newline included. The recursion stops early if a wrap makes no
/// progress; a drawer whose body is at least three columns wide never
/// reaches that case.
#[verifier::opaque]
pub open spec fn spec_wrap_loop(
    d: DrawerCfg,
    parts: Seq<(Style, Seq<char>)>,
    start: nat,
    matched: bool,
) -> Seq<char>
    decreases parts_measure(parts, start as int),
{
    let dt = spec_draw_texts(d.canvas, parts, start, matched, d.body_width());
    match dt.1 {
        TextsRes::Done => dt.0 + seq!['\n'],
        TextsRes::Wrap(k, idx) => {
            let stp = spec_wrap_step(parts, k, idx);
            if parts_measure(stp.0, stp.1 as int) < parts_measure(parts, start as int) {
                dt.0 + seq!['\n'] + spec_wrap_gutter(d) + spec_wrap_loop(d, stp.0, stp.1, matched)
            } else {
                dt.0 + seq!['\n'] + spec_wrap_gutter(d)
            }
        },
    }
}

/// The last part's trailing newline (and a carriage return before it)
/// removed: the highlighter needs the newline, the renderer must not
/// count it.
#[verifier::opaque]
pub open spec fn spec_trim(parts: Seq<(Style, Seq<char>)>) -> Seq<(Style, Seq<char>)> {
    if parts.len() == 0 {
        parts
    } else {
        let st = parts.last().0;
        let t = parts.last().1;
        let t1 = if t.len() > 0 && t.last() == '\n' {
            t.drop_last()
        } else {
            t
        };
        let t2 = if t.len() > 0 && t.last() == '\n' && t1.len() > 0 && t1.last() == '\r' {
            t1.drop_last()
        } else {
            t1
        };
        parts.update(parts.len() - 1, (st, t2))
    }
}

/// What one body line emits: the line-number gutter, then the trimmed
/// parts through the wrap loop.
#[verifier::opaque]
pub open spec fn spec_draw_line(
    d: DrawerCfg,
    parts: Seq<(Style, Seq<char>)>,
    lnum: nat,
    matched: bool,
) -> Seq<char> {
    spec_line_number(d, lnum, matched) + spec_wrap_loop(d, spec_trim(parts), 0, matched)
}

/// A wrap at character `k` of part `idx` made progress: what remains to
/// draw shrinks.
proof fn lemma_wrap_progress(parts: Seq<(Style, Seq<char>)>, k: nat, idx: nat, start: int)
    requires
        0 <= start <= idx < parts.len(),
        k <= parts[idx as int].1.len(),
        !(idx == start && k == 0),
    ensures
        parts_measure(spec_wrap_step(parts, k, idx).0, spec_wrap_step(parts, k, idx).1 as int)
            < parts_measure(parts, start),
{
    let stp = spec_wrap_step(parts, k, idx);
    assert(parts_measure(parts, idx as int) == 1 + parts[idx as int].1.len() + parts_measure(
        parts,
        idx as int + 1,
    ));
    lemma_measure_mono(parts, start, idx as int);
    if k < parts[idx as int].1.len() {
        lemma_measure_congruent(stp.0, parts, idx as int + 1);
        assert(parts_measure(stp.0, idx as int) == 1 + (parts[idx as int].1.len() - k)
            + parts_measure(parts, idx as int + 1));
    }
}

/// Advance the parts past a wrap: re-slice the broken part to its rest,
/// or step over it when the rest is empty.
fn wrap_advance(parts: &mut Vec<(Style, Vec<char>)>, k: usize, idx: usize) -> (start2: usize)
    requires
        idx < old(parts)@.len(),
        k <= old(parts)@[idx as int].1@.len(),
    ensures
        parts_view(final(parts)@) == spec_wrap_step(parts_view(old(parts)@), k as nat, idx as nat).0,
        start2 as nat == spec_wrap_step(parts_view(old(parts)@), k as nat, idx as nat).1,
        start2 <= final(parts)@.len(),
{
    let ghost pv = parts_view(parts@);
    if k < parts[idx].1.len() {
        let st = parts[idx].0;
        let rest = vec_suffix(&parts[idx].1, k);
        parts.set(idx, (st, rest));
        assert(parts_view(parts@) =~= spec_wrap_step(pv, k as nat, idx as nat).0);
        idx
    } else {
        assert(parts_view(parts@) =~= spec_wrap_step(pv, k as nat, idx as nat).0);
        let n = parts.len();
        assert(idx < n);
        idx + 1
    }
}

impl Drawer {
    /// Drive the wrap loop: draw the parts from `start`, and after each
    /// wrap emit a raw newline and the wrap gutter and resume with the
    /// rest; end the line with a newline.
    #[verifier::rlimit(100)]
    fn draw_line_rest(&mut self, parts: &mut Vec<(Style, Vec<char>)>, start: usize, matched: bool)
        requires
            old(self).wf(),
            start <= old(parts)@.len(),
        ensures
            final(self).canvas.out@ == old(self).canvas.out@ + spec_wrap_loop(
                old(self).dcfg(),
                parts_view(old(parts)@),
                start as nat,
                matched,
            ),
            final(self).dcfg() == old(self).dcfg(),
            final(self).wf(),
        decreases parts_measure(parts_view(parts@), start as int),
    {
        let ghost d = self.dcfg();
        let ghost pv = parts_view(parts@);
        let ghost o0 = self.canvas.out@;
        let bw = self.term_width - self.gutter_width();
        assert(bw as nat == d.body_width());
        let ghost dt = spec_draw_texts(d.canvas, pv, start as nat, matched, d.body_width());
        match self.canvas.draw_texts(parts, start, matched, bw) {
            TextsDrawn::Done => {
                self.canvas.out.push('\n');
                assert(self.canvas.out@ =~= o0 + spec_wrap_loop(d, pv, start as nat, matched)) by {
                    reveal(spec_wrap_loop);
                }
            },
            TextsDrawn::Wrap(k, idx) => {
                self.canvas.out.push('\n');
                self.draw_wrapping_gutter();
                assert(self.canvas.out@ =~= o0 + (dt.0 + seq!['\n'] + spec_wrap_gutter(d)));
                let ghost stp = spec_wrap_step(pv, k as nat, idx as nat);
                proof {
                    lemma_wrap_progress(pv, k as nat, idx as nat, start as int);
                }
                let start2 = wrap_advance(parts, k, idx);
                self.draw_line_rest(parts, start2, matched);
                assert(self.canvas.out@ =~= o0 + spec_wrap_loop(d, pv, start as nat, matched)) by {
                    reveal(spec_wrap_loop);
                }
            },
        }
    }

    /// Draw one body line: trim the trailing newline, draw the
    /// line-number gutter, then the parts through the wrap loop.
    pub fn draw_line(&mut self, parts: Vec<(Style, Vec<char>)>, lnum: u64, matched: bool)
        requires
            old(self).wf(),
            spec_num_digits(lnum as nat) <= old(self).lnum_width,
        ensures
            final(self).canvas.out@ == old(self).canvas.out@ + spec_draw_line(
                old(self).dcfg(),
                parts_view(parts@),
                lnum as nat,
                matched,
            ),
            final(self).dcfg() == old(self).dcfg(),
            final(self).wf(),
    {
        let ghost d = self.dcfg();
        let ghost pv0 = parts_view(parts@);
        let ghost o0 = self.canvas.out@;
        let mut parts = parts;
        if parts.len() > 0 {
            match parts.pop() {
                Some((st, mut text)) => {
                    if text.len() > 0 {
                        let c = text[text.len() - 1];
                        if c == '\n' {
                            let _nl = text.pop();
                            if text.len() > 0 {
                                let c2 = text[text.len() - 1];
                                if c2 == '\r' {
                                    let _cr = text.pop();
                                }
                            }
                        }
                    }
                    parts.push((st, text));
                },
                None => {},
            }
        }
        assert(parts_view(parts@) =~= spec_trim(pv0)) by {
            reveal(spec_trim);
        }
        self.draw_line_number(lnum, matched);
        self.draw_line_rest(&mut parts, 0, matched);
        assert(self.canvas.out@ =~= o0 + spec_draw_line(d, pv0, lnum as nat, matched)) by {
            reveal(spec_draw_line);
        }
    }
}


// ---------------------------------------------------------------------------
// Header and body
// ---------------------------------------------------------------------------
/// The displayed width in columns that `unicode_width` assigns to a string
/// in a CJK context.
pub uninterp spec fn cjk_str_width_of(s: Seq<char>) -> usize;

/// Relies on `unicode_width::UnicodeWidthStr::width_cjk`: the displayed
/// width of a string in columns, treating ambiguous-width characters as
/// wide; a function of the characters alone.
#[verifier::external_body]
pub(crate) fn str_width_cjk(s: &str) -> (r: usize)
    ensures
        r == cjk_str_width_of(s@),
{
    unicode_width::UnicodeWidthStr::width_cjk(s)
}

/// What the header emits: a top rule, the path in bold (padded to the full
/// width in background mode), and in grid mode a second rule with a tee at
/// the gutter boundary.
#[verifier::opaque]
pub open spec fn spec_header(d: DrawerCfg, path: Seq<char>) -> Seq<char> {
    spec_horizontal_line(d, '\u{2500}') + sgr_default_bg(d.canvas) + csi(seq!['1']) + seq![' ']
        + path + (if d.background {
        spec_fill_spaces(cjk_str_width_of(path) + 1, d.term_width as int)
    } else {
        csi_reset()
    }) + seq!['\n'] + (if d.grid {
        spec_horizontal_line(d, '\u{252c}')
    } else {
        Seq::<char>::empty()
    })
}

impl Drawer {
    /// Draw the header.
    #[verifier::rlimit(100)]
    pub fn draw_header(&mut self, path: &String)
        requires
            old(self).wf(),
        ensures
            final(self).canvas.out@ == old(self).canvas.out@ + spec_header(old(self).dcfg(), path@),
            final(self).dcfg() == old(self).dcfg(),
            final(self).wf(),
    {
        let ghost d = self.dcfg();
        let ghost o0 = self.canvas.out@;
        self.draw_horizontal_line('\u{2500}');
        self.canvas.set_default_bg();
        self.canvas.set_bold();
        self.canvas.out.push(' ');
        let ghost o1 = self.canvas.out@;
        assert(o1 =~= o0 + (spec_horizontal_line(d, '\u{2500}') + sgr_default_bg(d.canvas) + csi(
            seq!['1'],
        ) + seq![' ']));
        let s = path.as_str();
        let n = s.unicode_len();
        let mut i: usize = 0;
        while i < n
            invariant
                0 <= i <= n,
                n == s@.len(),
                s@ == path@,
                self.canvas.out@ == o1 + s@.take(i as int),
                self.canvas.cfg() == d.canvas,
                self.dcfg() == d,
                self.wf(),
            decreases n - i,
        {
            let c = s.get_char(i);
            self.canvas.out.push(c);
            i = i + 1;
            assert(self.canvas.out@ =~= o1 + s@.take(i as int));
        }
        assert(self.canvas.out@ =~= o1 + path@);
        let ghost o2 = self.canvas.out@;
        let w = str_width_cjk(s);
        if self.background {
            if w < self.term_width - 1 {
                self.canvas.draw_spaces(self.term_width - 1 - w);
            }
            self.canvas.reset_color();
            assert(self.canvas.out@ =~= o2 + spec_fill_spaces(
                cjk_str_width_of(path@) + 1,
                d.term_width as int,
            ));
        } else {
            self.canvas.reset_color();
        }
        self.canvas.out.push('\n');
        if self.grid {
            self.draw_horizontal_line('\u{252c}');
        }
        assert(self.canvas.out@ =~= o0 + spec_header(d, path@)) by {
            reveal(spec_header);
        }
    }
}

/// What one file body emits and which decoded lines the highlighter
/// consumes, walking the lines from byte offset `prev` (line number
/// `lnum`), the chunk cursor at `ci` and the matched-line cursor at `mi`.
/// Lines before the current chunk are consumed without output; lines of
/// the chunk are drawn; after the last line of the last chunk the body
/// ends, after the last line of another chunk a separator follows.
#[verifier::opaque]
pub open spec fn spec_draw_body(
    d: DrawerCfg,
    style: Style,
    buf: Seq<u8>,
    prev: int,
    lnum: nat,
    chunks: Seq<(u64, u64)>,
    ci: int,
    lnums: Seq<u64>,
    mi: int,
) -> (Seq<char>, Seq<Seq<char>>)
    decreases buf.len() - prev,
    via spec_draw_body_decreases
{
    if prev < 0 || prev >= buf.len() || ci < 0 || ci >= chunks.len() {
        (Seq::<char>::empty(), Seq::<Seq<char>>::empty())
    } else {
        let end = spec_line_end(buf, prev);
        let lchars = lossy_decode(buf.subrange(prev, end));
        let cs = chunks[ci].0;
        let ce = chunks[ci].1;
        if lnum < cs {
            let r = spec_draw_body(d, style, buf, end, lnum + 1, chunks, ci, lnums, mi);
            (r.0, seq![lchars] + r.1)
        } else if lnum <= ce {
            let matched = 0 <= mi < lnums.len() && lnums[mi] == lnum;
            let mi2 = if matched {
                mi + 1
            } else {
                mi
            };
            let line_out = spec_draw_line(d, spec_highlight(style, lchars), lnum, matched);
            if lnum == ce {
                if ci + 1 < chunks.len() {
                    let r = spec_draw_body(d, style, buf, end, lnum + 1, chunks, ci + 1, lnums, mi2);
                    (line_out + spec_separator_line(d) + r.0, seq![lchars] + r.1)
                } else {
                    (line_out, seq![lchars])
                }
            } else {
                let r = spec_draw_body(d, style, buf, end, lnum + 1, chunks, ci, lnums, mi2);
                (line_out + r.0, seq![lchars] + r.1)
            }
        } else {
            let r = spec_draw_body(d, style, buf, end, lnum + 1, chunks, ci, lnums, mi);
            (r.0, r.1)
        }
    }
}

#[via_fn]
proof fn spec_draw_body_decreases(
    d: DrawerCfg,
    style: Style,
    buf: Seq<u8>,
    prev: int,
    lnum: nat,
    chunks: Seq<(u64, u64)>,
    ci: int,
    lnums: Seq<u64>,
    mi: int,
) {
    if !(prev < 0 || prev >= buf.len() || ci < 0 || ci >= chunks.len()) {
        crate::lines::lemma_line_shape(buf, prev);
    }
}

/// Past the end of the buffer the body is empty, whatever the line
/// number.
proof fn lemma_body_empty(
    d: DrawerCfg,
    style: Style,
    buf: Seq<u8>,
    prev: int,
    a: nat,
    b: nat,
    chunks: Seq<(u64, u64)>,
    ci: int,
    lnums: Seq<u64>,
    mi: int,
)
    requires
        prev >= buf.len(),
    ensures
        spec_draw_body(d, style, buf, prev, a, chunks, ci, lnums, mi) == spec_draw_body(
            d,
            style,
            buf,
            prev,
            b,
            chunks,
            ci,
            lnums,
            mi,
        ),
{
    reveal(spec_draw_body);
}

/// The body at the end of the lines or past the last chunk is empty.
proof fn lemma_body_done(
    d: DrawerCfg,
    style: Style,
    buf: Seq<u8>,
    prev: int,
    lnum: nat,
    chunks: Seq<(u64, u64)>,
    ci: int,
    lnums: Seq<u64>,
    mi: int,
)
    requires
        prev >= buf.len() || ci >= chunks.len(),
    ensures
        spec_draw_body(d, style, buf, prev, lnum, chunks, ci, lnums, mi) == (
            Seq::<char>::empty(),
            Seq::<Seq<char>>::empty(),
        ),
{
    reveal(spec_draw_body);
}

/// One step of the body walk: a line before the current chunk is consumed
/// without output.
proof fn lemma_body_skip(
    d: DrawerCfg,
    style: Style,
    buf: Seq<u8>,
    prev: int,
    lnum: nat,
    chunks: Seq<(u64, u64)>,
    ci: int,
    lnums: Seq<u64>,
    mi: int,
)
    requires
        0 <= prev < buf.len(),
        0 <= ci < chunks.len(),
        lnum < chunks[ci].0,
    ensures
        spec_draw_body(d, style, buf, prev, lnum, chunks, ci, lnums, mi).0 == spec_draw_body(
            d,
            style,
            buf,
            spec_line_end(buf, prev),
            lnum + 1,
            chunks,
            ci,
            lnums,
            mi,
        ).0,
        spec_draw_body(d, style, buf, prev, lnum, chunks, ci, lnums, mi).1 == seq![
            lossy_decode(buf.subrange(prev, spec_line_end(buf, prev))),
        ] + spec_draw_body(d, style, buf, spec_line_end(buf, prev), lnum + 1, chunks, ci, lnums, mi).1,
{
    reveal(spec_draw_body);
}

/// One step of the body walk: a line inside the current chunk is drawn;
/// the last line of the last chunk ends the body, the last line of
/// another chunk is followed by a separator.
proof fn lemma_body_draw(
    d: DrawerCfg,
    style: Style,
    buf: Seq<u8>,
    prev: int,
    lnum: nat,
    chunks: Seq<(u64, u64)>,
    ci: int,
    lnums: Seq<u64>,
    mi: int,
    matched: bool,
    mi2: int,
)
    requires
        0 <= prev < buf.len(),
        0 <= ci < chunks.len(),
        chunks[ci].0 <= lnum <= chunks[ci].1,
        matched == (0 <= mi < lnums.len() && lnums[mi] == lnum),
        mi2 == if matched {
            mi + 1
        } else {
            mi
        },
    ensures
        ({
            let end = spec_line_end(buf, prev);
            let lchars = lossy_decode(buf.subrange(prev, end));
            let line_out = spec_draw_line(d, spec_highlight(style, lchars), lnum, matched);
            let full = spec_draw_body(d, style, buf, prev, lnum, chunks, ci, lnums, mi);
            if lnum == chunks[ci].1 {
                if ci + 1 < chunks.len() {
                    let r = spec_draw_body(d, style, buf, end, lnum + 1, chunks, ci + 1, lnums, mi2);
                    full == (line_out + spec_separator_line(d) + r.0, seq![lchars] + r.1)
                } else {
                    full == (line_out, seq![lchars])
                }
            } else {
                let r = spec_draw_body(d, style, buf, end, lnum + 1, chunks, ci, lnums, mi2);
                full == (line_out + r.0, seq![lchars] + r.1)
            }
        }),
{
    reveal(spec_draw_body);
}

/// One step of the body walk: a line past the current chunk is neither
/// drawn nor consumed (with well-formed chunks the cursor has already
/// moved past it, so this case is never reached).
proof fn lemma_body_beyond(
    d: DrawerCfg,
    style: Style,
    buf: Seq<u8>,
    prev: int,
    lnum: nat,
    chunks: Seq<(u64, u64)>,
    ci: int,
    lnums: Seq<u64>,
    mi: int,
)
    requires
        0 <= prev < buf.len(),
        0 <= ci < chunks.len(),
        chunks[ci].0 <= chunks[ci].1,
        lnum > chunks[ci].1,
    ensures
        spec_draw_body(d, style, buf, prev, lnum, chunks, ci, lnums, mi).0 == spec_draw_body(
            d,
            style,
            buf,
            spec_line_end(buf, prev),
            lnum + 1,
            chunks,
            ci,
            lnums,
            mi,
        ).0,
        spec_draw_body(d, style, buf, prev, lnum, chunks, ci, lnums, mi).1 == spec_draw_body(
            d,
            style,
            buf,
            spec_line_end(buf, prev),
            lnum + 1,
            chunks,
            ci,
            lnums,
            mi,
        ).1,
{
    reveal(spec_draw_body);
    let r = spec_draw_body(d, style, buf, spec_line_end(buf, prev), lnum + 1, chunks, ci, lnums, mi);
    assert(spec_draw_body(d, style, buf, prev, lnum, chunks, ci, lnums, mi) == (r.0, r.1));
}

impl Drawer {
    /// Walk the remaining lines: skip those before the current chunk,
    /// draw those inside it, and emit a separator between chunks.
    #[verifier::rlimit(100)]
    fn draw_body_rest(
        &mut self,
        hl: &mut LineHighlighter,
        lines: &mut LinesInclusive,
        chunks: &Vec<(u64, u64)>,
        lnums: &Vec<u64>,
        ci: usize,
        mi: usize,
    )
        requires
            old(self).wf(),
            old(lines).wf(),
            chunks_wf(chunks@),
            chunks@.len() > 0,
            spec_num_digits(chunks@.last().1 as nat) <= old(self).lnum_width,
            chunks@.len() > 1 ==> old(self).lnum_width >= 3,
            ci <= chunks@.len(),
            mi <= lnums@.len(),
        ensures
            final(self).canvas.out@ == old(self).canvas.out@ + spec_draw_body(
                old(self).dcfg(),
                old(hl).style,
                old(lines).buf@,
                old(lines).prev as int,
                old(lines).lnum as nat,
                chunks@,
                ci as int,
                lnums@,
                mi as int,
            ).0,
            final(hl).syntax == old(hl).syntax,
            final(hl).style == old(hl).style,
            final(hl).history@ == old(hl).history@ + spec_draw_body(
                old(self).dcfg(),
                old(hl).style,
                old(lines).buf@,
                old(lines).prev as int,
                old(lines).lnum as nat,
                chunks@,
                ci as int,
                lnums@,
                mi as int,
            ).1,
            final(self).dcfg() == old(self).dcfg(),
            final(self).wf(),
        decreases lines.buf@.len() - lines.prev, 0nat,
    {
        let ghost d = self.dcfg();
        let ghost style = hl.style;
        let ghost o0 = self.canvas.out@;
        let ghost h0 = hl.history@;
        let ghost buf = lines.buf@;
        let ghost prev0 = lines.prev as int;
        let ghost lnum0 = lines.lnum as nat;
        let ghost full = spec_draw_body(
            d,
            style,
            buf,
            prev0,
            lnum0,
            chunks@,
            ci as int,
            lnums@,
            mi as int,
        );
        if ci >= chunks.len() {
            proof {
                lemma_body_done(d, style, buf, prev0, lnum0, chunks@, ci as int, lnums@, mi as int);
            }
            assert(self.canvas.out@ =~= o0 + full.0);
            assert(hl.history@ =~= h0 + full.1);
            return ;
        }
        match lines.next() {
            None => {
                proof {
                    lemma_body_done(
                        d,
                        style,
                        buf,
                        prev0,
                        lnum0,
                        chunks@,
                        ci as int,
                        lnums@,
                        mi as int,
                    );
                }
                assert(self.canvas.out@ =~= o0 + full.0);
                assert(hl.history@ =~= h0 + full.1);
            },
            Some(line) => {
                proof {
                    crate::lines::lemma_line_shape(buf, prev0);
                }
                self.draw_body_line(hl, lines, chunks, lnums, ci, mi, line, Ghost(prev0));
            },
        }
    }

    /// Handle one line the iterator produced: feed it to the highlighter,
    /// and draw it when it lies in the current chunk.
    #[verifier::rlimit(100)]
    fn draw_body_line(
        &mut self,
        hl: &mut LineHighlighter,
        lines: &mut LinesInclusive,
        chunks: &Vec<(u64, u64)>,
        lnums: &Vec<u64>,
        ci: usize,
        mi: usize,
        line: Line,
        prev0: Ghost<int>,
    )
        requires
            old(self).wf(),
            old(lines).wf(),
            chunks_wf(chunks@),
            chunks@.len() > 0,
            spec_num_digits(chunks@.last().1 as nat) <= old(self).lnum_width,
            chunks@.len() > 1 ==> old(self).lnum_width >= 3,
            ci < chunks@.len(),
            mi <= lnums@.len(),
            0 <= prev0@ < old(lines).buf@.len(),
            old(lines).prev as int == spec_line_end(old(lines).buf@, prev0@),
            line.0@ == old(lines).buf@.subrange(prev0@, old(lines).prev as int),
            old(lines).prev < old(lines).buf@.len() ==> old(lines).lnum as nat == line.1 as nat + 1,
        ensures
            final(self).canvas.out@ == old(self).canvas.out@ + spec_draw_body(
                old(self).dcfg(),
                old(hl).style,
                old(lines).buf@,
                prev0@,
                line.1 as nat,
                chunks@,
                ci as int,
                lnums@,
                mi as int,
            ).0,
            final(hl).syntax == old(hl).syntax,
            final(hl).style == old(hl).style,
            final(hl).history@ == old(hl).history@ + spec_draw_body(
                old(self).dcfg(),
                old(hl).style,
                old(lines).buf@,
                prev0@,
                line.1 as nat,
                chunks@,
                ci as int,
                lnums@,
                mi as int,
            ).1,
            final(self).dcfg() == old(self).dcfg(),
            final(self).wf(),
        decreases lines.buf@.len() - lines.prev, 1nat,
    {
        let ghost d = self.dcfg();
        let ghost style = hl.style;
        let ghost o0 = self.canvas.out@;
        let ghost h0 = hl.history@;
        let ghost buf = lines.buf@;
        let ghost lnum0 = line.1 as nat;
        let ghost full = spec_draw_body(
            d,
            style,
            buf,
            prev0@,
            lnum0,
            chunks@,
            ci as int,
            lnums@,
            mi as int,
        );
        let Line(bytes, lnum) = line;
        let lchars = crate::lines::decode_lossy(bytes.as_slice());
        let ghost end = lines.prev as int;
        let ghost lnum1 = lines.lnum as nat;
        proof {
            crate::lines::lemma_line_shape(buf, prev0@);
        }
        assert(lchars@ == lossy_decode(buf.subrange(prev0@, end)));
        let nchunks = chunks.len();
        assert(ci < nchunks);
        let cs = chunks[ci].0;
        let ce = chunks[ci].1;
        if lnum < cs {
            hl.skip_line(&lchars);
            self.draw_body_rest(hl, lines, chunks, lnums, ci, mi);
            proof {
                lemma_body_skip(d, style, buf, prev0@, lnum0, chunks@, ci as int, lnums@, mi as int);
                if end >= buf.len() {
                    lemma_body_empty(
                        d,
                        style,
                        buf,
                        end,
                        lnum1,
                        lnum0 + 1,
                        chunks@,
                        ci as int,
                        lnums@,
                        mi as int,
                    );
                }
                assert(self.canvas.out@ =~= o0 + full.0);
                assert(hl.history@ =~= h0 + full.1);
            }
        } else if lnum <= ce {
            let matched = mi < lnums.len() && lnums[mi] == lnum;
            let mi2 = if matched {
                mi + 1
            } else {
                mi
            };
            let parts = hl.highlight(&lchars);
            proof {
                lemma_chunk_ends_mono(chunks@, ci as int);
                lemma_num_digits_mono(lnum as nat, chunks@.last().1 as nat);
            }
            self.draw_line(parts, lnum, matched);
            proof {
                lemma_body_draw(
                    d,
                    style,
                    buf,
                    prev0@,
                    lnum0,
                    chunks@,
                    ci as int,
                    lnums@,
                    mi as int,
                    matched,
                    mi2 as int,
                );
            }
            if lnum == ce {
                if ci + 1 < chunks.len() {
                    self.draw_separator_line();
                    self.draw_body_rest(hl, lines, chunks, lnums, ci + 1, mi2);
                    proof {
                        if end >= buf.len() {
                            lemma_body_empty(
                                d,
                                style,
                                buf,
                                end,
                                lnum1,
                                lnum0 + 1,
                                chunks@,
                                ci as int + 1,
                                lnums@,
                                mi2 as int,
                            );
                        }
                        assert(self.canvas.out@ =~= o0 + full.0);
                        assert(hl.history@ =~= h0 + full.1);
                    }
                } else {
                    assert(self.canvas.out@ =~= o0 + full.0);
                    assert(hl.history@ =~= h0 + full.1);
                }
            } else {
                self.draw_body_rest(hl, lines, chunks, lnums, ci, mi2);
                proof {
                    if end >= buf.len() {
                        lemma_body_empty(
                            d,
                            style,
                            buf,
                            end,
                            lnum1,
                            lnum0 + 1,
                            chunks@,
                            ci as int,
                            lnums@,
                            mi2 as int,
                        );
                    }
                    assert(self.canvas.out@ =~= o0 + full.0);
                    assert(hl.history@ =~= h0 + full.1);
                }
            }
        } else {
            self.draw_body_rest(hl, lines, chunks, lnums, ci, mi);
            proof {
                lemma_body_beyond(
                    d,
                    style,
                    buf,
                    prev0@,
                    lnum0,
                    chunks@,
                    ci as int,
                    lnums@,
                    mi as int,
                );
                if end >= buf.len() {
                    lemma_body_empty(
                        d,
                        style,
                        buf,
                        end,
                        lnum1,
                        lnum0 + 1,
                        chunks@,
                        ci as int,
                        lnums@,
                        mi as int,
                    );
                }
                assert(self.canvas.out@ =~= o0 + full.0);
                assert(hl.history@ =~= h0 + full.1);
            }
        }
    }


    /// Draw the body: every line before or inside a chunk is fed to the
    /// highlighter exactly once, in order; the chunk lines are drawn.
    pub fn draw_body(&mut self, file: &File, hl: &mut LineHighlighter)
        requires
            old(self).wf(),
            chunks_wf(file.chunks@),
            file.chunks@.len() > 0,
            spec_num_digits(file.chunks@.last().1 as nat) <= old(self).lnum_width,
            file.chunks@.len() > 1 ==> old(self).lnum_width >= 3,
        ensures
            final(self).canvas.out@ == old(self).canvas.out@ + spec_draw_body(
                old(self).dcfg(),
                old(hl).style,
                file.contents@,
                0,
                1,
                file.chunks@,
                0,
                file.line_numbers@,
                0,
            ).0,
            final(hl).syntax == old(hl).syntax,
            final(hl).style == old(hl).style,
            final(hl).history@ == old(hl).history@ + spec_draw_body(
                old(self).dcfg(),
                old(hl).style,
                file.contents@,
                0,
                1,
                file.chunks@,
                0,
                file.line_numbers@,
                0,
            ).1,
            final(self).dcfg() == old(self).dcfg(),
            final(self).wf(),
    {
        let mut lines = LinesInclusive::new(file.contents.as_slice());
        self.draw_body_rest(hl, &mut lines, &file.chunks, &file.line_numbers, 0, 0);
    }
}

} // verus!
