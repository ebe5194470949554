//! The printer: per-file orchestration, theme resolution, syntax-name
//! resolution and theme listing.

use crate::drawer::{
    spec_canvas_cfg, spec_draw_body, spec_footer, spec_gutter_color, spec_header, spec_lnum_width,
    Drawer, DrawerCfg,
};
use crate::highlight::{spec_default_style, LineHighlighter};
use crate::printer::{file_wf, File, PrintError, Printer, PrinterOptions, TermColorSupport};
use crate::themes::{
    builtin_fallback, builtin_primary, fallback_names, primary_names, theme_wf, Theme, ThemeSet,
};
use vstd::prelude::*;
use vstd::string::{StrSliceExecFns, StringExecFns};
use vstd::utf8::encode_utf8;

verus! {

/// Relies on `String: FromIterator<char>`: collecting characters yields
/// the string of exactly those characters.
#[verifier::external_body]
fn chars_to_string(chars: &Vec<char>) -> (r: String)
    ensures
        r@ == chars@,
{
    chars.iter().collect()
}

/// The UTF-8 encoding of the characters, appended to the byte buffer.
pub(crate) fn append_encoded(out: &mut Vec<u8>, chars: &Vec<char>)
    ensures
        final(out)@ == old(out)@ + encode_utf8(chars@),
{
    let s = chars_to_string(chars);
    let bytes = s.as_str().as_bytes();
    assert(bytes@ == encode_utf8(chars@));
    out.extend_from_slice(bytes);
    assert(out@ =~= old(out)@ + bytes@);
}

/// Whether a theme set carries a name is whether the name stands in its
/// name list.
pub proof fn lemma_has_names(ts: ThemeSet, name: Seq<char>)
    ensures
        ts.has_theme(name) <==> ts.names().contains(name),
{
    if ts.has_theme(name) {
        let i = choose|i: int| 0 <= i < ts.themes@.len() && ts.themes@[i].0@ == name;
        assert(ts.names()[i] == name);
    }
    if ts.names().contains(name) {
        let i = choose|i: int| 0 <= i < ts.names().len() && ts.names()[i] == name;
        assert(ts.themes@[i].0@ == name);
    }
}

/// The message reported for an unknown theme name.
pub open spec fn spec_unknown_theme_msg(name: Seq<char>) -> Seq<char> {
    "Unknown theme '"@ + name + "'. See --list-themes output"@
}

/// Load the theme set that carries the requested theme: the primary set
/// when no name is given or the primary set has it, else the fallback set,
/// else an error naming the theme.
pub fn load_themes(name: &Option<String>) -> (r: Result<ThemeSet, PrintError>)
    ensures
        match r {
            Ok(ts) => {
                &&& ts.wf()
                &&& match name {
                    None => ts.names() == primary_names(),
                    Some(n) => (if primary_names().contains(n@) {
                        ts.names() == primary_names()
                    } else {
                        ts.names() == fallback_names() && fallback_names().contains(n@)
                    }),
                }
            },
            Err(e) => {
                &&& name matches Some(n) && !primary_names().contains(n@)
                    && !fallback_names().contains(n@)
                &&& name matches Some(n) ==> e.message@ == spec_unknown_theme_msg(n@)
            },
        },
{
    let primary = builtin_primary();
    match name {
        None => Ok(primary),
        Some(n) => {
            proof {
                lemma_has_names(primary, n@);
            }
            if primary.contains_theme(n) {
                Ok(primary)
            } else {
                let fallback = builtin_fallback();
                proof {
                    lemma_has_names(fallback, n@);
                }
                if fallback.contains_theme(n) {
                    Ok(fallback)
                } else {
                    let mut msg = "Unknown theme '".to_owned();
                    msg.append(n.as_str());
                    msg.append("'. See --list-themes output");
                    Err(PrintError::new(msg))
                }
            }
        },
    }
}

/// The name of the theme the options select: the requested one, or the
/// default for the color support.
pub open spec fn spec_resolved_name(opts: PrinterOptions) -> Seq<char> {
    match opts.theme {
        Some(n) => n@,
        None => if opts.color_support == TermColorSupport::Ansi16 {
            "ansi"@
        } else {
            "Monokai Extended"@
        },
    }
}

/// The layout a printer lays a file out with.
pub open spec fn spec_drawer_cfg(opts: PrinterOptions, theme: Theme, chunks: Seq<(u64, u64)>) -> DrawerCfg {
    DrawerCfg {
        theme,
        grid: opts.grid,
        term_width: opts.term_width as nat,
        lnum_width: spec_lnum_width(chunks),
        background: opts.background_color,
        gutter_color: spec_gutter_color(theme),
        canvas: spec_canvas_cfg(opts, theme),
    }
}

/// Everything `print` emits for one file: header, body, footer.
pub open spec fn spec_print_output(file: File, opts: PrinterOptions, theme: Theme) -> Seq<char> {
    let d = spec_drawer_cfg(opts, theme, file.chunks@);
    spec_header(d, file.path@) + spec_draw_body(
        d,
        spec_default_style(theme),
        file.contents@,
        0,
        1,
        file.chunks@,
        0,
        file.line_numbers@,
        0,
    ).0 + spec_footer(d)
}

/// A printer: owns the output, the theme set and the options, and renders
/// one file per call.
pub struct SyntectPrinter<W> {
    pub writer: W,
    pub themes: ThemeSet,
    pub opts: PrinterOptions,
}

impl<W> SyntectPrinter<W> {
    /// The loaded theme set is sound and carries the selected theme.
    pub open spec fn wf(self) -> bool {
        &&& self.themes.wf()
        &&& self.themes.has_theme(spec_resolved_name(self.opts))
    }

    /// A new printer over the given output, or an error when the requested
    /// theme is unknown.
    pub fn new(out: W, opts: PrinterOptions) -> (r: Result<SyntectPrinter<W>, PrintError>)
        ensures
            match r {
                Ok(p) => {
                    &&& p.wf()
                    &&& p.writer == out
                    &&& p.opts == opts
                    &&& (opts.theme matches Some(n) ==> primary_names().contains(n@)
                        || fallback_names().contains(n@))
                },
                Err(e) => {
                    &&& opts.theme matches Some(n) && !primary_names().contains(n@)
                        && !fallback_names().contains(n@)
                    &&& opts.theme matches Some(n) ==> e.message@ == spec_unknown_theme_msg(n@)
                },
            },
    {
        let themes = match load_themes(&opts.theme) {
            Ok(ts) => ts,
            Err(e) => {
                return Err(e);
            },
        };
        let p = SyntectPrinter { writer: out, themes, opts };
        proof {
            lemma_has_names(p.themes, spec_resolved_name(p.opts));
            if p.opts.theme is None {
                assert(primary_names()[7] == "ansi"@);
                assert(primary_names()[4] == "Monokai Extended"@);
            }
        }
        Ok(p)
    }

    /// The output, to inspect or replace.
    pub fn writer_mut(&mut self) -> (r: &mut W)
        ensures
            *r == old(self).writer,
            final(self).writer == *final(r),
            final(self).themes == old(self).themes,
            final(self).opts == old(self).opts,
    {
        &mut self.writer
    }

    /// The selected theme.
    pub fn theme(&self) -> (r: &Theme)
        requires
            self.wf(),
        ensures
            *r == self.themes.spec_theme(spec_resolved_name(self.opts)),
            theme_wf(*r),
    {
        let name: String = match &self.opts.theme {
            Some(n) => n.clone(),
            None => {
                if matches!(self.opts.color_support, TermColorSupport::Ansi16) {
                    "ansi".to_owned()
                } else {
                    "Monokai Extended".to_owned()
                }
            },
        };
        proof {
            self.themes.lemma_index_of(spec_resolved_name(self.opts));
        }
        match self.themes.find_theme(&name) {
            Some(t) => t,
            None => {
                proof {
                    assert(false);
                }
                &self.themes.themes[0].1
            },
        }
    }
}

impl<W> SyntectPrinter<W> {
    /// Whether the loaded theme set is the one `print` is specified for:
    /// every theme usable, the selected name present.
    pub fn checked_wf(&self) -> (r: bool)
        ensures
            r == self.wf(),
    {
        let mut i: usize = 0;
        while i < self.themes.themes.len()
            invariant
                0 <= i <= self.themes.themes@.len(),
                forall|j: int|
                    0 <= j < i ==> theme_wf(#[trigger] self.themes.themes@[j].1),
            decreases self.themes.themes@.len() - i,
        {
            if self.themes.themes[i].1.foreground.is_none() {
                return false;
            }
            i = i + 1;
        }
        let name: String = match &self.opts.theme {
            Some(n) => n.clone(),
            None => {
                if matches!(self.opts.color_support, TermColorSupport::Ansi16) {
                    "ansi".to_owned()
                } else {
                    "Monokai Extended".to_owned()
                }
            },
        };
        self.themes.contains_theme(&name)
    }
}

impl SyntectPrinter<Vec<u8>> {
    /// Render one file into the output buffer. Nothing is emitted when the
    /// file has no chunks or no matched lines; a terminal too narrow for
    /// the gutter and three body columns is rejected; otherwise the
    /// header, body and footer are appended, UTF-8 encoded.
    pub fn print(&mut self, file: &File) -> (r: Result<(), PrintError>)
        requires
            old(self).wf(),
            file_wf(*file),
        ensures
            final(self).themes == old(self).themes,
            final(self).opts == old(self).opts,
            final(self).wf(),
            r is Err <==> (file.chunks@.len() > 0 && file.line_numbers@.len() > 0
                && (old(self).opts.term_width as nat) < crate::drawer::spec_gutter_width(
                old(self).opts.grid,
                spec_lnum_width(file.chunks@),
            ) + 3),
            r is Err ==> final(self).writer@ == old(self).writer@,
            (file.chunks@.len() == 0 || file.line_numbers@.len() == 0) ==> (r is Ok
                && final(self).writer@ == old(self).writer@),
            (r is Ok && file.chunks@.len() > 0 && file.line_numbers@.len() > 0)
                ==> final(self).writer@ == old(self).writer@ + encode_utf8(
                spec_print_output(
                    *file,
                    old(self).opts,
                    old(self).themes.spec_theme(spec_resolved_name(old(self).opts)),
                ),
            ),
    {
        if file.chunks.len() == 0 || file.line_numbers.len() == 0 {
            return Ok(());
        }
        let theme = *self.theme();
        let mut drawer = Drawer::new(&self.opts, &theme, &file.chunks);
        let gw = drawer.gutter_width();
        if (self.opts.term_width as usize) < gw + 3 {
            return Err(PrintError::new("terminal width is too small for the gutter".to_owned()));
        }
        proof {
            assert(drawer.wf());
            assert(drawer.dcfg() == spec_drawer_cfg(self.opts, theme, file.chunks@));
        }
        let ghost d = drawer.dcfg();
        drawer.draw_header(&file.path);
        let syntax = self.find_syntax(&file.path);
        let mut hl = LineHighlighter::new(syntax, &theme);
        drawer.draw_body(file, &mut hl);
        drawer.draw_footer();
        proof {
            assert(drawer.canvas.out@ =~= spec_print_output(*file, self.opts, theme));
        }
        append_encoded(&mut self.writer, &drawer.canvas.out);
        Ok(())
    }
}

// ---------------------------------------------------------------------------
// Syntax-name resolution
// ---------------------------------------------------------------------------
/// The last index before `i` holding `c`, or `-1`.
pub open spec fn last_index_before(s: Seq<char>, i: int, c: char) -> int
    decreases i,
{
    if i <= 0 || i > s.len() {
        -1
    } else if s[i - 1] == c {
        i - 1
    } else {
        last_index_before(s, i - 1, c)
    }
}

/// The extension of a display path: what follows the last dot of the file
/// name, empty when the file name has no dot after its first character.
pub open spec fn spec_extension(path: Seq<char>) -> Seq<char> {
    let sl = last_index_before(path, path.len() as int, '/');
    let dot = last_index_before(path, path.len() as int, '.');
    if dot > sl + 1 {
        path.subrange(dot + 1, path.len() as int)
    } else {
        Seq::<char>::empty()
    }
}

/// The syntax name a path resolves to: a small override table on the
/// extension, plain text otherwise.
pub open spec fn spec_syntax_name(path: Seq<char>) -> Seq<char> {
    let ext = spec_extension(path);
    if ext == "fs"@ {
        "F#"@
    } else if ext == "h"@ {
        "C++"@
    } else if ext == "pac"@ {
        "JavaScript (Babel)"@
    } else {
        "Plain Text"@
    }
}

/// Whether the characters of `s` between `from` and `to` are exactly the
/// literal.
fn str_range_eq(s: &str, from: usize, to: usize, lit: &str) -> (r: bool)
    requires
        from <= to <= s@.len(),
    ensures
        r == (s@.subrange(from as int, to as int) == lit@),
{
    let m = lit.unicode_len();
    if to - from != m {
        assert(s@.subrange(from as int, to as int).len() != lit@.len());
        return false;
    }
    let mut i: usize = 0;
    while i < m
        invariant
            0 <= i <= m,
            m == lit@.len(),
            from <= to <= s@.len(),
            to - from == m,
            forall|j: int| 0 <= j < i ==> s@[from + j] == lit@[j],
        decreases m - i,
    {
        if s.get_char(from + i) != lit.get_char(i) {
            assert(s@.subrange(from as int, to as int)[i as int] != lit@[i as int]);
            return false;
        }
        i = i + 1;
    }
    assert(s@.subrange(from as int, to as int) =~= lit@);
    true
}

/// The positions of the last slash and the last dot of a path, each one
/// past the index (zero for none).
fn last_marker_positions(s: &str) -> (r: (usize, usize))
    ensures
        r.0 as int == last_index_before(s@, s@.len() as int, '/') + 1,
        r.1 as int == last_index_before(s@, s@.len() as int, '.') + 1,
        r.0 <= s@.len(),
        r.1 <= s@.len(),
{
    let n = s.unicode_len();
    let mut sl_plus: usize = 0;
    let mut dot_plus: usize = 0;
    let mut i: usize = 0;
    while i < n
        invariant
            0 <= i <= n,
            n == s@.len(),
            sl_plus as int == last_index_before(s@, i as int, '/') + 1,
            dot_plus as int == last_index_before(s@, i as int, '.') + 1,
            sl_plus <= i,
            dot_plus <= i,
        decreases n - i,
    {
        let c = s.get_char(i);
        if c == '/' {
            sl_plus = i + 1;
        }
        if c == '.' {
            dot_plus = i + 1;
        }
        i = i + 1;
    }
    (sl_plus, dot_plus)
}

impl<W> SyntectPrinter<W> {
    /// The syntax name for a path: the override table on its extension,
    /// plain text otherwise. No syntax definitions are bundled, so there is
    /// no engine resolver behind the table, and the highlighter the name is
    /// handed to tokenizes every grammar as plain text.
    pub fn find_syntax(&self, path: &String) -> (r: String)
        ensures
            r@ == spec_syntax_name(path@),
    {
        let s = path.as_str();
        let n = s.unicode_len();
        let (sl_plus, dot_plus) = last_marker_positions(s);
        if dot_plus > sl_plus && dot_plus - sl_plus > 1 {
            let from = dot_plus;
            assert(spec_extension(path@) == s@.subrange(from as int, n as int));
            if str_range_eq(s, from, n, "fs") {
                return "F#".to_owned();
            }
            if str_range_eq(s, from, n, "h") {
                return "C++".to_owned();
            }
            if str_range_eq(s, from, n, "pac") {
                return "JavaScript (Babel)".to_owned();
            }
            "Plain Text".to_owned()
        } else {
            proof {
                reveal_strlit("fs");
                reveal_strlit("h");
                reveal_strlit("pac");
                assert(spec_extension(path@).len() == 0);
                assert("fs"@.len() == 2 && "h"@.len() == 1 && "pac"@.len() == 3);
            }
            "Plain Text".to_owned()
        }
    }
}

// ---------------------------------------------------------------------------
// Theme listing
// ---------------------------------------------------------------------------
/// The names with every repeated occurrence after the first removed.
pub open spec fn dedup_first(s: Seq<Seq<char>>) -> Seq<Seq<char>>
    decreases s.len(),
{
    if s.len() == 0 {
        Seq::<Seq<char>>::empty()
    } else {
        let d = dedup_first(s.drop_last());
        if s.drop_last().contains(s.last()) {
            d
        } else {
            d.push(s.last())
        }
    }
}

/// A non-empty sequence contains an element iff its front does or its last
/// element is the one.
pub proof fn lemma_contains_drop_last(s: Seq<Seq<char>>, x: Seq<char>)
    requires
        s.len() > 0,
    ensures
        s.contains(x) <==> (s.drop_last().contains(x) || s.last() == x),
{
    if s.contains(x) {
        let i = choose|i: int| 0 <= i < s.len() && s[i] == x;
        if i < s.len() - 1 {
            assert(s.drop_last()[i] == x);
        }
    }
    if s.drop_last().contains(x) {
        let i = choose|i: int| 0 <= i < s.drop_last().len() && s.drop_last()[i] == x;
        assert(s[i] == x);
    }
    if s.last() == x {
        assert(s[s.len() - 1] == x);
    }
}

/// Removing the repeats keeps exactly the names that were there.
pub proof fn lemma_dedup_contains(s: Seq<Seq<char>>, x: Seq<char>)
    ensures
        dedup_first(s).contains(x) <==> s.contains(x),
    decreases s.len(),
{
    if s.len() == 0 {
        assert(!s.contains(x));
        assert(!dedup_first(s).contains(x));
    } else {
        lemma_dedup_contains(s.drop_last(), x);
        lemma_contains_drop_last(s, x);
        let d = dedup_first(s.drop_last());
        if s.drop_last().contains(s.last()) {
            if s.contains(x) {
                if s.last() == x {
                    assert(s.drop_last().contains(x));
                }
                assert(dedup_first(s).contains(x));
            }
            if dedup_first(s).contains(x) {
                assert(s.drop_last().contains(x));
            }
        } else {
            if s.contains(x) {
                if s.drop_last().contains(x) {
                    let i = choose|i: int| 0 <= i < d.len() && d[i] == x;
                    assert(dedup_first(s)[i] == x);
                } else {
                    assert(dedup_first(s).last() == x);
                    assert(dedup_first(s).contains(x));
                }
            }
            if dedup_first(s).contains(x) {
                let i = choose|i: int| 0 <= i < dedup_first(s).len() && dedup_first(s)[i] == x;
                if i < d.len() {
                    assert(d[i] == x);
                } else {
                    assert(x == s.last());
                }
            }
        }
    }
}

/// The names joined, each followed by a newline.
pub open spec fn joined_names(names: Seq<Seq<char>>) -> Seq<char>
    decreases names.len(),
{
    if names.len() == 0 {
        Seq::<char>::empty()
    } else {
        joined_names(names.drop_last()) + names.last() + seq!['\n']
    }
}

/// Everything `list_themes` writes: the primary names, then the fallback
/// names not among them, one per line.
pub open spec fn spec_theme_listing() -> Seq<char> {
    joined_names(dedup_first(primary_names() + fallback_names()))
}

/// Whether one of the seen names is this one.
fn contains_name(seen: &Vec<String>, name: &String) -> (r: bool)
    ensures
        r == seen@.map_values(|s: String| s@).contains(name@),
{
    let ghost sv = seen@.map_values(|s: String| s@);
    let mut i: usize = 0;
    while i < seen.len()
        invariant
            0 <= i <= seen@.len(),
            sv == seen@.map_values(|s: String| s@),
            forall|j: int| 0 <= j < i ==> sv[j] != name@,
        decreases seen@.len() - i,
    {
        if seen[i] == *name {
            assert(sv[i as int] == name@);
            return true;
        }
        i = i + 1;
    }
    false
}

/// Append the names of one theme set, skipping the ones already seen and
/// recording the new ones; the written characters extend the listing of
/// the names seen so far to the listing with this set's names behind them.
fn list_names(
    out: &mut String,
    seen: &mut Vec<String>,
    ts: &ThemeSet,
    prefix: Ghost<Seq<Seq<char>>>,
) -> (w: Ghost<Seq<char>>)
    requires
        old(seen)@.map_values(|s: String| s@) == dedup_first(prefix@),
    ensures
        final(seen)@.map_values(|s: String| s@) == dedup_first(prefix@ + ts.names()),
        final(out)@ == old(out)@ + w@,
        joined_names(dedup_first(prefix@ + ts.names())) == joined_names(dedup_first(prefix@)) + w@,
{
    let ghost all0 = prefix@;
    let ghost mut written: Seq<char> = Seq::empty();
    let mut i: usize = 0;
    proof {
        assert(all0 + ts.names().take(0) =~= all0);
        assert(joined_names(dedup_first(all0)) + written =~= joined_names(dedup_first(all0)));
        assert(old(out)@ + written =~= old(out)@);
    }
    while i < ts.themes.len()
        invariant
            0 <= i <= ts.themes@.len(),
            seen@.map_values(|s: String| s@) == dedup_first(all0 + ts.names().take(i as int)),
            out@ == old(out)@ + written,
            joined_names(dedup_first(all0 + ts.names().take(i as int))) == joined_names(
                dedup_first(all0),
            ) + written,
            all0 == prefix@,
        decreases ts.themes@.len() - i,
    {
        let ghost cur = all0 + ts.names().take(i as int);
        let ghost nxt = all0 + ts.names().take(i as int + 1);
        proof {
            assert(nxt.drop_last() =~= cur);
            assert(nxt.last() == ts.names()[i as int]);
            lemma_dedup_contains(cur, ts.names()[i as int]);
        }
        let name = &ts.themes[i].0;
        assert(name@ == ts.names()[i as int]);
        if !contains_name(seen, name) {
            out.append(name.as_str());
            out.append("\n");
            seen.push(name.clone());
            proof {
                reveal_strlit("\n");
                assert("\n"@ =~= seq!['\n']);
                assert(seen@.map_values(|s: String| s@) =~= dedup_first(nxt));
                assert(dedup_first(nxt).drop_last() =~= dedup_first(cur));
                assert(joined_names(dedup_first(nxt)) =~= joined_names(dedup_first(cur)) + name@
                    + seq!['\n']);
                written = written + name@ + seq!['\n'];
                assert(out@ =~= old(out)@ + written);
                assert(joined_names(dedup_first(nxt)) =~= joined_names(dedup_first(all0))
                    + written);
            }
        } else {
            proof {
                assert(dedup_first(nxt) == dedup_first(cur));
            }
        }
        i = i + 1;
    }
    proof {
        assert(all0 + ts.names().take(ts.themes@.len() as int) =~= all0 + ts.names());
    }
    Ghost(written)
}

/// Write the theme names, the primary set first, then the fallback-only
/// ones, one per line, without repeats.
pub fn list_themes(out: &mut String) -> (r: Result<(), PrintError>)
    ensures
        r is Ok,
        final(out)@ == old(out)@ + spec_theme_listing(),
{
    let primary = builtin_primary();
    let fallback = builtin_fallback();
    let mut seen: Vec<String> = Vec::new();
    let ghost empty_prefix: Seq<Seq<char>> = Seq::empty();
    proof {
        assert(seen@.map_values(|s: String| s@) =~= dedup_first(empty_prefix));
    }
    let w1 = list_names(out, &mut seen, &primary, Ghost(empty_prefix));
    proof {
        assert(empty_prefix + primary.names() =~= primary_names());
    }
    let w2 = list_names(out, &mut seen, &fallback, Ghost(primary_names()));
    proof {
        assert(joined_names(dedup_first(empty_prefix)) =~= Seq::<char>::empty());
        assert(primary_names() + fallback.names() =~= primary_names() + fallback_names());
        assert(spec_theme_listing() =~= w1@ + w2@);
    }
    assert(out@ =~= old(out)@ + spec_theme_listing());
    Ok(())
}

impl Printer for SyntectPrinter<Vec<u8>> {
    /// Render one file, checking at run time that the printer and the file
    /// are what the verified rendering path is specified for, and
    /// reporting an error otherwise.
    fn print(&mut self, file: &File) -> Result<(), PrintError> {
        if !self.checked_wf() {
            return Err(PrintError::new("no theme is loaded for the configured name".to_owned()));
        }
        if !file.is_well_formed() {
            return Err(PrintError::new("malformed chunks or line numbers".to_owned()));
        }
        self.print(file)
    }
}

} // verus!
