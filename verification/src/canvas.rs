//! The canvas: emits ANSI escape sequences and text into a character
//! buffer, with tab expansion, width accounting and one-pass line breaking.
//!
//! Every drawing function states exactly which characters it appends, via
//! spec functions that model the emitted stream.

use crate::themes::{Color, FontStyle, Style};
use vstd::prelude::*;

verus! {

// ---------------------------------------------------------------------------
// Outside calls
// ---------------------------------------------------------------------------
/// The displayed width in columns that `unicode_width` assigns to a
/// character in a CJK context: `None` for control characters.
pub uninterp spec fn cjk_width_of(c: char) -> Option<usize>;

/// Relies on `unicode_width::UnicodeWidthChar::width_cjk`: the displayed
/// width of the character in columns, treating ambiguous-width characters
/// as wide, or `None` for a control character. The crate's width tables
/// hold no value above 3, and give printable ASCII one column.
#[verifier::external_body]
pub(crate) fn char_width_cjk(c: char) -> (r: Option<usize>)
    ensures
        r == cjk_width_of(c),
        r matches Some(w) ==> w <= 3,
        (c as u32) >= 0x20 && (c as u32) < 0x7f ==> r == Some(1usize),
{
    unicode_width::UnicodeWidthChar::width_cjk(c)
}

/// The xterm-256 palette index that `rgb2ansi256` assigns to a 24-bit
/// color.
pub uninterp spec fn ansi256_of(r: u8, g: u8, b: u8) -> u8;

/// Relies on `rgb2ansi256::rgb_to_ansi256`: the nearest xterm-256 palette
/// index for an RGB color, a pure function of the three channels.
#[verifier::external_body]
pub(crate) fn ansi256_index(r: u8, g: u8, b: u8) -> (idx: u8)
    ensures
        idx == ansi256_of(r, g, b),
{
    rgb2ansi256::rgb_to_ansi256(r, g, b)
}

// ---------------------------------------------------------------------------
// The emitted stream, modelled
// ---------------------------------------------------------------------------
/// `n` copies of one character.
pub open spec fn repeat_char(c: char, n: nat) -> Seq<char> {
    Seq::new(n, |i: int| c)
}

/// `n` spaces.
pub open spec fn spaces(n: nat) -> Seq<char> {
    repeat_char(' ', n)
}

/// The decimal digit character for a value below ten.
pub open spec fn digit_char(d: int) -> char {
    if d == 0 {
        '0'
    } else if d == 1 {
        '1'
    } else if d == 2 {
        '2'
    } else if d == 3 {
        '3'
    } else if d == 4 {
        '4'
    } else if d == 5 {
        '5'
    } else if d == 6 {
        '6'
    } else if d == 7 {
        '7'
    } else if d == 8 {
        '8'
    } else {
        '9'
    }
}

/// The decimal digits of a number, most significant first.
pub open spec fn dec_digits(n: nat) -> Seq<char>
    decreases n,
{
    if n < 10 {
        seq![digit_char(n as int)]
    } else {
        dec_digits(n / 10) + seq![digit_char((n % 10) as int)]
    }
}

/// A CSI escape sequence with the given body and final byte `m`.
pub open spec fn csi(body: Seq<char>) -> Seq<char> {
    seq!['\u{1b}', '['] + body + seq!['m']
}

/// The reset sequence that returns the terminal to its default style.
pub open spec fn csi_reset() -> Seq<char> {
    csi(seq!['0'])
}

/// The color sequence for a color, on the foreground or the background
/// channel. The `a` byte selects the scheme; see [`Color`].
pub open spec fn sgr_color(c: Color, true_color: bool, bg: bool) -> Seq<char> {
    let base: nat = if bg {
        40
    } else {
        30
    };
    let channel: Seq<char> = if bg {
        seq!['4', '8']
    } else {
        seq!['3', '8']
    };
    if c.a == 0 && c.r <= 7 {
        csi(dec_digits((c.r + base) as nat))
    } else if c.a == 0 {
        csi(channel + seq![';', '5', ';'] + dec_digits(c.r as nat))
    } else if c.a == 1 {
        Seq::empty()
    } else if true_color {
        csi(
            channel + seq![';', '2', ';'] + dec_digits(c.r as nat) + seq![';'] + dec_digits(
                c.g as nat,
            ) + seq![';'] + dec_digits(c.b as nat),
        )
    } else {
        csi(channel + seq![';', '5', ';'] + dec_digits(ansi256_of(c.r, c.g, c.b) as nat))
    }
}

/// What setting a font style emits: bold, then underline.
pub open spec fn sgr_set_font(f: FontStyle) -> Seq<char> {
    (if f.bold {
        csi(seq!['1'])
    } else {
        Seq::<char>::empty()
    }) + (if f.underline {
        csi(seq!['4'])
    } else {
        Seq::<char>::empty()
    })
}

/// What unsetting a font style emits.
pub open spec fn sgr_unset_font(f: FontStyle) -> Seq<char> {
    (if f.bold {
        csi(seq!['2', '2'])
    } else {
        Seq::<char>::empty()
    }) + (if f.underline {
        csi(seq!['2', '4'])
    } else {
        Seq::<char>::empty()
    })
}

// ---------------------------------------------------------------------------
// The canvas
// ---------------------------------------------------------------------------
/// The configuration a canvas renders under; it never changes while
/// drawing.
pub struct CanvasCfg {
    pub tab_width: nat,
    pub true_color: bool,
    pub background: bool,
    pub theme_background: Option<Color>,
    pub match_color: Option<Color>,
}

/// What the default background emits: the theme background, only in
/// background-fill mode.
pub open spec fn sgr_default_bg(cfg: CanvasCfg) -> Seq<char> {
    if cfg.background {
        match cfg.theme_background {
            Some(c) => sgr_color(c, cfg.true_color, true),
            None => Seq::empty(),
        }
    } else {
        Seq::empty()
    }
}

/// A character buffer that ANSI-styled text is drawn into.
pub struct Canvas {
    pub out: Vec<char>,
    pub tab_width: usize,
    pub true_color: bool,
    pub background: bool,
    pub theme_background: Option<Color>,
    pub match_color: Option<Color>,
}

impl Canvas {
    /// The unchanging part of the canvas.
    pub open spec fn cfg(self) -> CanvasCfg {
        CanvasCfg {
            tab_width: self.tab_width as nat,
            true_color: self.true_color,
            background: self.background,
            theme_background: self.theme_background,
            match_color: self.match_color,
        }
    }

    /// Append the decimal digits of a number.
    pub fn push_number(&mut self, n: u64)
        ensures
            final(self).out@ == old(self).out@ + dec_digits(n as nat),
            final(self).cfg() == old(self).cfg(),
            final(self).tab_width == old(self).tab_width,
        decreases n,
    {
        if n < 10 {
            let d: u64 = n;
            let c = if d == 0 {
                '0'
            } else if d == 1 {
                '1'
            } else if d == 2 {
                '2'
            } else if d == 3 {
                '3'
            } else if d == 4 {
                '4'
            } else if d == 5 {
                '5'
            } else if d == 6 {
                '6'
            } else if d == 7 {
                '7'
            } else if d == 8 {
                '8'
            } else {
                '9'
            };
            self.out.push(c);
            assert(self.out@ =~= old(self).out@ + dec_digits(n as nat));
        } else {
            self.push_number(n / 10);
            let d: u64 = n % 10;
            let c = if d == 0 {
                '0'
            } else if d == 1 {
                '1'
            } else if d == 2 {
                '2'
            } else if d == 3 {
                '3'
            } else if d == 4 {
                '4'
            } else if d == 5 {
                '5'
            } else if d == 6 {
                '6'
            } else if d == 7 {
                '7'
            } else if d == 8 {
                '8'
            } else {
                '9'
            };
            self.out.push(c);
            assert(self.out@ =~= old(self).out@ + dec_digits(n as nat));
        }
    }

    /// Append `n` copies of one character.
    pub fn draw_repeat(&mut self, c: char, n: usize)
        ensures
            final(self).out@ == old(self).out@ + repeat_char(c, n as nat),
            final(self).cfg() == old(self).cfg(),
            final(self).tab_width == old(self).tab_width,
    {
        let mut i: usize = 0;
        while i < n
            invariant
                0 <= i <= n,
                self.out@ == old(self).out@ + repeat_char(c, i as nat),
                self.cfg() == old(self).cfg(),
                self.tab_width == old(self).tab_width,
            decreases n - i,
        {
            self.out.push(c);
            i = i + 1;
            assert(self.out@ =~= old(self).out@ + repeat_char(c, i as nat));
        }
    }

    /// Append `n` spaces.
    pub fn draw_spaces(&mut self, n: usize)
        ensures
            final(self).out@ == old(self).out@ + spaces(n as nat),
            final(self).cfg() == old(self).cfg(),
            final(self).tab_width == old(self).tab_width,
    {
        self.draw_repeat(' ', n);
    }

    /// Open an escape sequence: `ESC [`.
    fn push_csi_start(&mut self)
        ensures
            final(self).out@ == old(self).out@ + seq!['\u{1b}', '['],
            final(self).cfg() == old(self).cfg(),
            final(self).tab_width == old(self).tab_width,
    {
        self.out.push('\u{1b}');
        self.out.push('[');
        assert(self.out@ =~= old(self).out@ + seq!['\u{1b}', '[']);
    }

    /// Set the foreground or background color.
    #[verifier::rlimit(60)]
    pub fn set_color(&mut self, c: Color, bg: bool)
        ensures
            final(self).out@ == old(self).out@ + sgr_color(c, old(self).true_color, bg),
            final(self).cfg() == old(self).cfg(),
            final(self).tab_width == old(self).tab_width,
    {
        let base: u64 = if bg {
            40
        } else {
            30
        };
        if c.a == 0 && c.r <= 7 {
            self.push_csi_start();
            self.push_number(c.r as u64 + base);
            self.out.push('m');
        } else if c.a == 0 {
            self.push_csi_start();
            if bg {
                self.out.push('4');
            } else {
                self.out.push('3');
            }
            self.out.push('8');
            self.out.push(';');
            self.out.push('5');
            self.out.push(';');
            self.push_number(c.r as u64);
            self.out.push('m');
        } else if c.a == 1 {
            // Pass through: emit nothing.
        } else if self.true_color {
            self.push_csi_start();
            if bg {
                self.out.push('4');
            } else {
                self.out.push('3');
            }
            self.out.push('8');
            self.out.push(';');
            self.out.push('2');
            self.out.push(';');
            self.push_number(c.r as u64);
            self.out.push(';');
            self.push_number(c.g as u64);
            self.out.push(';');
            self.push_number(c.b as u64);
            self.out.push('m');
        } else {
            let idx = ansi256_index(c.r, c.g, c.b);
            self.push_csi_start();
            if bg {
                self.out.push('4');
            } else {
                self.out.push('3');
            }
            self.out.push('8');
            self.out.push(';');
            self.out.push('5');
            self.out.push(';');
            self.push_number(idx as u64);
            self.out.push('m');
        }
        assert(self.out@ =~= old(self).out@ + sgr_color(c, old(self).true_color, bg));
    }

    /// Set the background color.
    pub fn set_bg(&mut self, c: Color)
        ensures
            final(self).out@ == old(self).out@ + sgr_color(c, old(self).true_color, true),
            final(self).cfg() == old(self).cfg(),
            final(self).tab_width == old(self).tab_width,
    {
        self.set_color(c, true);
    }

    /// Set the foreground color.
    pub fn set_fg(&mut self, c: Color)
        ensures
            final(self).out@ == old(self).out@ + sgr_color(c, old(self).true_color, false),
            final(self).cfg() == old(self).cfg(),
            final(self).tab_width == old(self).tab_width,
    {
        self.set_color(c, false);
    }

    /// Set the theme background, only in background-fill mode.
    pub fn set_default_bg(&mut self)
        ensures
            final(self).out@ == old(self).out@ + sgr_default_bg(old(self).cfg()),
            final(self).cfg() == old(self).cfg(),
            final(self).tab_width == old(self).tab_width,
    {
        if self.background {
            if let Some(bg) = self.theme_background {
                self.set_bg(bg);
            }
        }
    }

    /// Turn bold on.
    pub fn set_bold(&mut self)
        ensures
            final(self).out@ == old(self).out@ + csi(seq!['1']),
            final(self).cfg() == old(self).cfg(),
            final(self).tab_width == old(self).tab_width,
    {
        self.push_csi_start();
        self.out.push('1');
        self.out.push('m');
        assert(self.out@ =~= old(self).out@ + csi(seq!['1']));
    }

    /// Turn underline on.
    pub fn set_underline(&mut self)
        ensures
            final(self).out@ == old(self).out@ + csi(seq!['4']),
            final(self).cfg() == old(self).cfg(),
            final(self).tab_width == old(self).tab_width,
    {
        self.push_csi_start();
        self.out.push('4');
        self.out.push('m');
        assert(self.out@ =~= old(self).out@ + csi(seq!['4']));
    }

    /// Turn on the attributes a style carries.
    pub fn set_font_style(&mut self, f: FontStyle)
        ensures
            final(self).out@ == old(self).out@ + sgr_set_font(f),
            final(self).cfg() == old(self).cfg(),
            final(self).tab_width == old(self).tab_width,
    {
        if f.bold {
            self.set_bold();
        }
        if f.underline {
            self.set_underline();
        }
        assert(self.out@ =~= old(self).out@ + sgr_set_font(f));
    }

    /// Turn off the attributes a style carries.
    pub fn unset_font_style(&mut self, f: FontStyle)
        ensures
            final(self).out@ == old(self).out@ + sgr_unset_font(f),
            final(self).cfg() == old(self).cfg(),
            final(self).tab_width == old(self).tab_width,
    {
        if f.bold {
            self.push_csi_start();
            self.out.push('2');
            self.out.push('2');
            self.out.push('m');
        }
        if f.underline {
            self.push_csi_start();
            self.out.push('2');
            self.out.push('4');
            self.out.push('m');
        }
        assert(self.out@ =~= old(self).out@ + sgr_unset_font(f));
    }

    /// Reset to the default style.
    pub fn reset_color(&mut self)
        ensures
            final(self).out@ == old(self).out@ + csi_reset(),
            final(self).cfg() == old(self).cfg(),
            final(self).tab_width == old(self).tab_width,
    {
        self.push_csi_start();
        self.out.push('0');
        self.out.push('m');
        assert(self.out@ =~= old(self).out@ + csi_reset());
    }

    /// Pad with spaces up to `max_width`, then reset.
    pub fn fill_spaces(&mut self, written_width: usize, max_width: usize)
        ensures
            final(self).out@ == old(self).out@ + spec_fill_spaces(written_width as int, max_width as int),
            final(self).cfg() == old(self).cfg(),
            final(self).tab_width == old(self).tab_width,
    {
        if written_width < max_width {
            self.draw_spaces(max_width - written_width);
        }
        self.reset_color();
        assert(self.out@ =~= old(self).out@ + spec_fill_spaces(
            written_width as int,
            max_width as int,
        ));
    }
}

/// What padding to a width emits: spaces up to `max_width`, then a reset.
pub open spec fn spec_fill_spaces(written: int, max_width: int) -> Seq<char> {
    (if written < max_width {
        spaces((max_width - written) as nat)
    } else {
        Seq::<char>::empty()
    }) + csi_reset()
}

// ---------------------------------------------------------------------------
// Text drawing with width accounting and line breaking
// ---------------------------------------------------------------------------
/// The columns a character occupies: its CJK width, zero for control
/// characters (including a literal tab in hard-tab mode).
pub open spec fn eff_width(c: char) -> nat {
    match cjk_width_of(c) {
        Some(w) => w as nat,
        None => 0,
    }
}

/// Outcome of drawing one text, in the model: the whole text fit with the
/// given final width, or a break occurred and the rest starts at the given
/// character index.
pub enum TextRes {
    Fit(nat),
    Brk(nat),
}

/// Outcome of drawing a styled line, in the model: drawn to the end, or
/// wrapped with the rest starting at the given character of the given part.
pub enum TextsRes {
    Done,
    Wrap(nat, nat),
}

/// Outcome of [`Canvas::draw_text`]: the whole text fit, reporting the
/// columns written, or a break occurred and the rest starts at the given
/// character index.
pub enum TextDrawn {
    Continue(usize),
    Broken(usize),
}

/// Outcome of [`Canvas::draw_texts`]: the line is done, or it must wrap;
/// `Wrap(k, idx)` says the rest starts at character `k` of part `idx`.
pub enum TextsDrawn {
    Done,
    Wrap(usize, usize),
}

/// What drawing a text from character `i` at accumulated width `width`
/// emits, and how it ends. A tab expands to `tab` spaces (a tab that would
/// overrun pads the rest of the line and is itself skipped); any other
/// character that would overrun is withheld and starts the rest.
pub open spec fn spec_draw_text(text: Seq<char>, i: nat, width: nat, limit: nat, tab: nat) -> (Seq<
    char,
>, TextRes)
    decreases text.len() - i,
{
    if i >= text.len() {
        (Seq::<char>::empty(), TextRes::Fit(width))
    } else {
        let c = text[i as int];
        if c == '\t' && tab > 0 {
            if width + tab > limit {
                (spaces((limit - width) as nat), TextRes::Brk((i + 1) as nat))
            } else {
                let r = spec_draw_text(text, (i + 1) as nat, (width + tab) as nat, limit, tab);
                (spaces(tab) + r.0, r.1)
            }
        } else {
            let w = eff_width(c);
            if width + w > limit {
                (Seq::<char>::empty(), TextRes::Brk(i))
            } else {
                let r = spec_draw_text(text, (i + 1) as nat, (width + w) as nat, limit, tab);
                (seq![c] + r.0, r.1)
            }
        }
    }
}

/// The styles and texts of a tokenized line, as mathematical values.
pub open spec fn parts_view(s: Seq<(Style, Vec<char>)>) -> Seq<(Style, Seq<char>)> {
    s.map_values(|p: (Style, Vec<char>)| (p.0, p.1@))
}

/// What drawing the parts from index `i` at accumulated width `width`
/// emits, and how it ends. Each part opens its colors and font, draws its
/// text, and closes its font; a break resets all style. After the last
/// part, a matched or background-filled line is padded to `max_width`.
#[verifier::opaque]
pub open spec fn spec_draw_texts_from(
    cfg: CanvasCfg,
    parts: Seq<(Style, Seq<char>)>,
    i: nat,
    width: nat,
    matched: bool,
    max_width: nat,
) -> (Seq<char>, TextsRes)
    decreases parts.len() - i,
{
    if i >= parts.len() {
        let tail = (if width == 0 && !matched {
            sgr_default_bg(cfg)
        } else {
            Seq::<char>::empty()
        }) + (if matched || cfg.background {
            spec_fill_spaces(width as int, max_width as int)
        } else {
            csi_reset()
        });
        (tail, TextsRes::Done)
    } else {
        let style = parts[i as int].0;
        let text = parts[i as int].1;
        let pre = (if !matched && cfg.background {
            sgr_color(style.background, cfg.true_color, true)
        } else {
            Seq::<char>::empty()
        }) + sgr_color(style.foreground, cfg.true_color, false) + sgr_set_font(style.font_style);
        let dt = spec_draw_text(text, 0, 0, (max_width - width) as nat, cfg.tab_width);
        match dt.1 {
            TextRes::Fit(w) => {
                let r = spec_draw_texts_from(
                    cfg,
                    parts,
                    (i + 1) as nat,
                    (width + w) as nat,
                    matched,
                    max_width,
                );
                (pre + dt.0 + sgr_unset_font(style.font_style) + r.0, r.1)
            },
            TextRes::Brk(k) => (pre + dt.0 + csi_reset(), TextsRes::Wrap(k, i)),
        }
    }
}

/// What drawing a whole styled line emits, and how it ends: a matched line
/// first opens the match background once, then the parts are drawn from
/// `from`.
pub open spec fn spec_draw_texts(
    cfg: CanvasCfg,
    parts: Seq<(Style, Seq<char>)>,
    from: nat,
    matched: bool,
    max_width: nat,
) -> (Seq<char>, TextsRes) {
    let pre = if matched {
        match cfg.match_color {
            Some(c) => sgr_color(c, cfg.true_color, true),
            None => Seq::<char>::empty(),
        }
    } else {
        Seq::<char>::empty()
    };
    let r = spec_draw_texts_from(cfg, parts, from, 0, matched, max_width);
    (pre + r.0, r.1)
}

/// The prefix a part emits before its text: background (when filling and
/// not matched), foreground, font.
pub open spec fn spec_part_prefix(cfg: CanvasCfg, style: Style, matched: bool) -> Seq<char> {
    (if !matched && cfg.background {
        sgr_color(style.background, cfg.true_color, true)
    } else {
        Seq::<char>::empty()
    }) + sgr_color(style.foreground, cfg.true_color, false) + sgr_set_font(style.font_style)
}

proof fn lemma_texts_end(
    cfg: CanvasCfg,
    parts: Seq<(Style, Seq<char>)>,
    i: nat,
    width: nat,
    matched: bool,
    max_width: nat,
)
    requires
        i >= parts.len(),
    ensures
        spec_draw_texts_from(cfg, parts, i, width, matched, max_width).0 == (if width == 0
            && !matched {
            sgr_default_bg(cfg)
        } else {
            Seq::<char>::empty()
        }) + (if matched || cfg.background {
            spec_fill_spaces(width as int, max_width as int)
        } else {
            csi_reset()
        }),
        spec_draw_texts_from(cfg, parts, i, width, matched, max_width).1 == TextsRes::Done,
{
    reveal(spec_draw_texts_from);
}

proof fn lemma_texts_step_fit(
    cfg: CanvasCfg,
    parts: Seq<(Style, Seq<char>)>,
    i: nat,
    width: nat,
    matched: bool,
    max_width: nat,
    w: nat,
)
    requires
        i < parts.len(),
        spec_draw_text(parts[i as int].1, 0, 0, (max_width - width) as nat, cfg.tab_width).1
            == TextRes::Fit(w),
    ensures
        spec_draw_texts_from(cfg, parts, i, width, matched, max_width).0 == spec_part_prefix(
            cfg,
            parts[i as int].0,
            matched,
        ) + spec_draw_text(parts[i as int].1, 0, 0, (max_width - width) as nat, cfg.tab_width).0
            + sgr_unset_font(parts[i as int].0.font_style) + spec_draw_texts_from(
            cfg,
            parts,
            (i + 1) as nat,
            (width + w) as nat,
            matched,
            max_width,
        ).0,
        spec_draw_texts_from(cfg, parts, i, width, matched, max_width).1 == spec_draw_texts_from(
            cfg,
            parts,
            (i + 1) as nat,
            (width + w) as nat,
            matched,
            max_width,
        ).1,
{
    reveal(spec_draw_texts_from);
}

proof fn lemma_texts_step_brk(
    cfg: CanvasCfg,
    parts: Seq<(Style, Seq<char>)>,
    i: nat,
    width: nat,
    matched: bool,
    max_width: nat,
    k: nat,
)
    requires
        i < parts.len(),
        spec_draw_text(parts[i as int].1, 0, 0, (max_width - width) as nat, cfg.tab_width).1
            == TextRes::Brk(k),
    ensures
        spec_draw_texts_from(cfg, parts, i, width, matched, max_width).0 == spec_part_prefix(
            cfg,
            parts[i as int].0,
            matched,
        ) + spec_draw_text(parts[i as int].1, 0, 0, (max_width - width) as nat, cfg.tab_width).0
            + csi_reset(),
        spec_draw_texts_from(cfg, parts, i, width, matched, max_width).1 == TextsRes::Wrap(k, i),
{
    reveal(spec_draw_texts_from);
}

impl Canvas {
    /// Draw characters of `text` while tracking width, stopping when the
    /// next character would exceed `limit` columns.
    pub fn draw_text(&mut self, text: &Vec<char>, limit: usize) -> (r: TextDrawn)
        requires
            limit <= 65535,
        ensures
            final(self).out@ == old(self).out@ + spec_draw_text(
                text@,
                0,
                0,
                limit as nat,
                old(self).tab_width as nat,
            ).0,
            final(self).cfg() == old(self).cfg(),
            final(self).tab_width == old(self).tab_width,
            match r {
                TextDrawn::Continue(w) => spec_draw_text(
                    text@,
                    0,
                    0,
                    limit as nat,
                    old(self).tab_width as nat,
                ).1 == TextRes::Fit(w as nat) && w <= limit,
                TextDrawn::Broken(k) => spec_draw_text(
                    text@,
                    0,
                    0,
                    limit as nat,
                    old(self).tab_width as nat,
                ).1 == TextRes::Brk(k as nat) && k <= text@.len() && (k == 0 ==> limit < 3),
            },
    {
        let ghost orig = self.out@;
        let ghost tab = self.tab_width as nat;
        let ghost full = spec_draw_text(text@, 0, 0, limit as nat, tab);
        let mut width: usize = 0;
        let mut i: usize = 0;
        while i < text.len()
            invariant
                i <= text@.len(),
                width <= limit <= 65535,
                i == 0 ==> width == 0,
                self.cfg() == old(self).cfg(),
                self.tab_width == old(self).tab_width,
                tab == self.tab_width as nat,
                full == spec_draw_text(text@, 0, 0, limit as nat, tab),
                orig == old(self).out@,
                orig + full.0 == self.out@ + spec_draw_text(
                    text@,
                    i as nat,
                    width as nat,
                    limit as nat,
                    tab,
                ).0,
                full.1 == spec_draw_text(text@, i as nat, width as nat, limit as nat, tab).1,
            decreases text@.len() - i,
        {
            let ghost rest = spec_draw_text(text@, i as nat, width as nat, limit as nat, tab);
            let c = text[i];
            if c == '\t' && self.tab_width > 0 {
                let w = self.tab_width;
                if w > limit - width {
                    self.draw_spaces(limit - width);
                    assert(final(self).out@ == orig + full.0);
                    return TextDrawn::Broken(i + 1);
                } else {
                    self.draw_spaces(w);
                    let ghost next = spec_draw_text(
                        text@,
                        (i + 1) as nat,
                        (width + w) as nat,
                        limit as nat,
                        tab,
                    );
                    proof {
                        assert(rest.0 == spaces(tab) + next.0);
                        assert(orig + full.0 =~= self.out@ + next.0);
                    }
                    width = width + w;
                    i = i + 1;
                }
            } else {
                let w = match char_width_cjk(c) {
                    Some(w) => w,
                    None => 0,
                };
                if w > limit - width {
                    assert(orig + full.0 =~= self.out@);
                    assert(i == 0 ==> limit < 3);
                    return TextDrawn::Broken(i);
                } else {
                    self.out.push(c);
                    let ghost next = spec_draw_text(
                        text@,
                        (i + 1) as nat,
                        (width + w) as nat,
                        limit as nat,
                        tab,
                    );
                    proof {
                        assert(rest.0 == seq![text@[i as int]] + next.0);
                        assert(orig + full.0 =~= self.out@ + next.0);
                    }
                    width = width + w;
                    i = i + 1;
                }
            }
        }
        assert(orig + full.0 =~= self.out@);
        TextDrawn::Continue(width)
    }

    /// Draw a tokenized line: set each part's colors and font, draw its
    /// text, and pad or reset at the end. On a break, reset and report
    /// where the rest starts.
    #[verifier::rlimit(100)]
    pub fn draw_texts(
        &mut self,
        parts: &Vec<(Style, Vec<char>)>,
        from: usize,
        matched: bool,
        max_width: usize,
    ) -> (r: TextsDrawn)
        requires
            from <= parts@.len(),
            max_width <= 65535,
        ensures
            final(self).out@ == old(self).out@ + spec_draw_texts(
                old(self).cfg(),
                parts_view(parts@),
                from as nat,
                matched,
                max_width as nat,
            ).0,
            final(self).cfg() == old(self).cfg(),
            final(self).tab_width == old(self).tab_width,
            match r {
                TextsDrawn::Done => spec_draw_texts(
                    old(self).cfg(),
                    parts_view(parts@),
                    from as nat,
                    matched,
                    max_width as nat,
                ).1 == TextsRes::Done,
                TextsDrawn::Wrap(k, idx) => spec_draw_texts(
                    old(self).cfg(),
                    parts_view(parts@),
                    from as nat,
                    matched,
                    max_width as nat,
                ).1 == TextsRes::Wrap(k as nat, idx as nat) && from <= idx < parts@.len() && k
                    <= parts@[idx as int].1@.len() && ((idx == from && k == 0) ==> max_width < 3),
            },
    {
        let ghost cfg = self.cfg();
        let ghost pv = parts_view(parts@);
        let ghost orig = self.out@;
        if matched {
            if let Some(bg) = self.match_color {
                self.set_bg(bg);
            }
        }
        let ghost base = self.out@;
        let ghost body = spec_draw_texts_from(cfg, pv, from as nat, 0, matched, max_width as nat);
        let ghost full = spec_draw_texts(cfg, pv, from as nat, matched, max_width as nat);
        assert(base + body.0 =~= orig + full.0);
        let mut width: usize = 0;
        let mut i: usize = from;
        while i < parts.len()
            invariant
                from <= i <= parts@.len(),
                width <= max_width <= 65535,
                i == from ==> width == 0,
                self.cfg() == cfg,
                cfg == old(self).cfg(),
                orig == old(self).out@,
                pv == parts_view(parts@),
                full == spec_draw_texts(cfg, pv, from as nat, matched, max_width as nat),
                orig + full.0 == base + body.0,
                full.1 == body.1,
                base + body.0 == self.out@ + spec_draw_texts_from(
                    cfg,
                    pv,
                    i as nat,
                    width as nat,
                    matched,
                    max_width as nat,
                ).0,
                body.1 == spec_draw_texts_from(
                    cfg,
                    pv,
                    i as nat,
                    width as nat,
                    matched,
                    max_width as nat,
                ).1,
            decreases parts@.len() - i,
        {
            let ghost out0 = self.out@;
            let ghost rest = spec_draw_texts_from(
                cfg,
                pv,
                i as nat,
                width as nat,
                matched,
                max_width as nat,
            );
            let style = parts[i].0;
            assert(pv[i as int].0 == style && pv[i as int].1 == parts@[i as int].1@);
            if !matched && self.background {
                self.set_bg(style.background);
            }
            self.set_fg(style.foreground);
            self.set_font_style(style.font_style);
            assert(self.out@ =~= out0 + spec_part_prefix(cfg, style, matched));
            let ghost dt = spec_draw_text(
                pv[i as int].1,
                0,
                0,
                (max_width - width) as nat,
                cfg.tab_width,
            );
            match self.draw_text(&parts[i].1, max_width - width) {
                TextDrawn::Continue(w) => {
                    self.unset_font_style(style.font_style);
                    assert(self.out@ =~= out0 + (spec_part_prefix(cfg, style, matched) + dt.0
                        + sgr_unset_font(style.font_style)));
                    let ghost next = spec_draw_texts_from(
                        cfg,
                        pv,
                        (i + 1) as nat,
                        (width + w) as nat,
                        matched,
                        max_width as nat,
                    );
                    proof {
                        lemma_texts_step_fit(
                            cfg,
                            pv,
                            i as nat,
                            width as nat,
                            matched,
                            max_width as nat,
                            w as nat,
                        );
                        assert(rest.0 =~= (spec_part_prefix(cfg, style, matched) + dt.0
                            + sgr_unset_font(style.font_style)) + next.0);
                        assert(out0 + rest.0 =~= self.out@ + next.0);
                    }
                    width = width + w;
                    i = i + 1;
                },
                TextDrawn::Broken(k) => {
                    self.reset_color();
                    proof {
                        lemma_texts_step_brk(
                            cfg,
                            pv,
                            i as nat,
                            width as nat,
                            matched,
                            max_width as nat,
                            k as nat,
                        );
                        assert(self.out@ =~= out0 + rest.0);
                        assert(self.out@ == base + body.0);
                        assert(self.out@ == orig + full.0);
                    }
                    return TextsDrawn::Wrap(k, i);
                },
            }
        }
        if width == 0 && !matched {
            self.set_default_bg();
        }
        if matched || self.background {
            self.fill_spaces(width, max_width);
        } else {
            self.reset_color();
        }
        proof {
            lemma_texts_end(cfg, pv, i as nat, width as nat, matched, max_width as nat);
            assert(base + body.0 =~= self.out@);
            assert(self.out@ == orig + full.0);
        }
        TextsDrawn::Done
    }
}

} // verus!
