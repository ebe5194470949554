//! Colors, font styles, token styles and the built-in theme sets.

use vstd::prelude::*;

verus! {

/// An RGBA color. The `a` byte is an encoding tag, not opacity: `a == 0`
/// selects an ANSI palette index carried in `r` (direct 16-color when
/// `r <= 7`, 256-color otherwise), `a == 1` means pass-through (emit
/// nothing), and any other value is a true 24-bit color.
#[derive(Clone, Copy, Debug, PartialEq, Eq, Structural)]
pub struct Color {
    pub r: u8,
    pub g: u8,
    pub b: u8,
    pub a: u8,
}

/// The font attributes a token style may carry. The italic bit is
/// recognized but never emitted.
#[derive(Clone, Copy, Debug, PartialEq, Eq, Structural)]
pub struct FontStyle {
    pub bold: bool,
    pub underline: bool,
    pub italic: bool,
}

/// The style of one highlighted token.
#[derive(Clone, Copy, Debug, PartialEq, Eq, Structural)]
pub struct Style {
    pub foreground: Color,
    pub background: Color,
    pub font_style: FontStyle,
}

/// The theme settings the renderer consumes.
#[derive(Clone, Copy, Debug)]
pub struct Theme {
    pub background: Option<Color>,
    pub foreground: Option<Color>,
    pub gutter_foreground: Option<Color>,
    pub line_highlight: Option<Color>,
}

/// A theme usable for rendering: the line-number gutter of a matched line
/// takes the theme foreground, so one must be present.
pub open spec fn theme_wf(t: Theme) -> bool {
    t.foreground is Some
}

/// A named collection of themes. Lookup takes the first entry with the
/// given name.
pub struct ThemeSet {
    pub themes: Vec<(String, Theme)>,
}

impl ThemeSet {
    /// The names of the themes, in order.
    pub open spec fn names(self) -> Seq<Seq<char>> {
        self.themes@.map_values(|p: (String, Theme)| p.0@)
    }

    /// Whether a theme of this name is present.
    pub open spec fn has_theme(self, name: Seq<char>) -> bool {
        exists|i: int| 0 <= i < self.themes@.len() && self.themes@[i].0@ == name
    }

    /// The index of the first theme of this name.
    pub open spec fn index_of(self, name: Seq<char>) -> int {
        first_with_name(self.themes@, name, 0)
    }

    /// The first theme of this name.
    pub open spec fn spec_theme(self, name: Seq<char>) -> Theme {
        self.themes@[self.index_of(name)].1
    }

    /// Every theme of the set is usable for rendering.
    pub open spec fn wf(self) -> bool {
        forall|i: int| 0 <= i < self.themes@.len() ==> theme_wf(#[trigger] self.themes@[i].1)
    }

    pub proof fn lemma_index_of(self, name: Seq<char>)
        requires
            self.has_theme(name),
        ensures
            0 <= self.index_of(name) < self.themes@.len(),
            self.themes@[self.index_of(name)].0@ == name,
            forall|j: int| 0 <= j < self.index_of(name) ==> self.themes@[j].0@ != name,
    {
        let i = choose|i: int| 0 <= i < self.themes@.len() && self.themes@[i].0@ == name;
        lemma_first_with_name(self.themes@, name, 0, i);
    }

    /// Whether a theme of the given name is present.
    pub fn contains_theme(&self, name: &String) -> (r: bool)
        ensures
            r == self.has_theme(name@),
    {
        let mut i: usize = 0;
        while i < self.themes.len()
            invariant
                0 <= i <= self.themes@.len(),
                forall|j: int| 0 <= j < i ==> self.themes@[j].0@ != name@,
            decreases self.themes@.len() - i,
        {
            if self.themes[i].0 == *name {
                return true;
            }
            i = i + 1;
        }
        false
    }

    /// The first theme of the given name.
    pub fn find_theme(&self, name: &String) -> (r: Option<&Theme>)
        ensures
            match r {
                Some(t) => self.has_theme(name@) && *t == self.spec_theme(name@),
                None => !self.has_theme(name@),
            },
    {
        let mut i: usize = 0;
        while i < self.themes.len()
            invariant
                0 <= i <= self.themes@.len(),
                forall|j: int| 0 <= j < i ==> self.themes@[j].0@ != name@,
            decreases self.themes@.len() - i,
        {
            if self.themes[i].0 == *name {
                proof {
                    lemma_first_with_name(self.themes@, name@, 0, i as int);
                }
                return Some(&self.themes[i].1);
            }
            i = i + 1;
        }
        None
    }
}

/// The smallest index at or after `from` whose entry carries `name`,
/// or the length if there is none.
pub open spec fn first_with_name(themes: Seq<(String, Theme)>, name: Seq<char>, from: int) -> int
    decreases themes.len() - from,
{
    if from < 0 || from >= themes.len() {
        themes.len() as int
    } else if themes[from].0@ == name {
        from
    } else {
        first_with_name(themes, name, from + 1)
    }
}

proof fn lemma_first_with_name(themes: Seq<(String, Theme)>, name: Seq<char>, from: int, i: int)
    requires
        0 <= from <= i < themes.len(),
        themes[i].0@ == name,
    ensures
        from <= first_with_name(themes, name, from) <= i,
        themes[first_with_name(themes, name, from)].0@ == name,
        forall|j: int| from <= j < first_with_name(themes, name, from) ==> themes[j].0@ != name,
    decreases i - from,
{
    if themes[from].0@ == name {
    } else {
        lemma_first_with_name(themes, name, from + 1, i);
    }
}

/// A 24-bit color.
pub fn rgb(r: u8, g: u8, b: u8) -> (c: Color)
    ensures
        c == (Color { r, g, b, a: 255u8 }),
{
    Color { r, g, b, a: 255 }
}

/// An ANSI palette color: direct 16-color when the index is at most 7,
/// 256-color otherwise.
pub fn palette(index: u8) -> (c: Color)
    ensures
        c == (Color { r: index, g: 0u8, b: 0u8, a: 0u8 }),
{
    Color { r: index, g: 0, b: 0, a: 0 }
}

/// The pass-through color: nothing is emitted for it.
pub fn pass_through() -> (c: Color)
    ensures
        c == (Color { r: 0u8, g: 0u8, b: 0u8, a: 1u8 }),
{
    Color { r: 0, g: 0, b: 0, a: 1 }
}

/// The names of the primary theme set, in order.
pub open spec fn primary_names() -> Seq<Seq<char>> {
    seq![
        "1337"@,
        "Coldark-Dark"@,
        "Dracula"@,
        "GitHub"@,
        "Monokai Extended"@,
        "Nord"@,
        "Solarized (dark)"@,
        "ansi"@,
    ]
}

/// The names of the fallback theme set, in order.
pub open spec fn fallback_names() -> Seq<Seq<char>> {
    seq![
        "InspiredGitHub"@,
        "Solarized (dark)"@,
        "Solarized (light)"@,
        "base16-eighties.dark"@,
        "base16-mocha.dark"@,
        "base16-ocean.dark"@,
        "base16-ocean.light"@,
    ]
}

/// A theme whose colors are all 24-bit, without a gutter color of its own.
fn true_color_theme(bg: (u8, u8, u8), fg: (u8, u8, u8), lh: (u8, u8, u8)) -> (t: Theme)
    ensures
        t == (Theme {
            background: Some(Color { r: bg.0, g: bg.1, b: bg.2, a: 255u8 }),
            foreground: Some(Color { r: fg.0, g: fg.1, b: fg.2, a: 255u8 }),
            gutter_foreground: None::<Color>,
            line_highlight: Some(Color { r: lh.0, g: lh.1, b: lh.2, a: 255u8 }),
        }),
        theme_wf(t),
{
    Theme {
        background: Some(rgb(bg.0, bg.1, bg.2)),
        foreground: Some(rgb(fg.0, fg.1, fg.2)),
        gutter_foreground: None,
        line_highlight: Some(rgb(lh.0, lh.1, lh.2)),
    }
}

/// The primary, embedded theme set.
pub fn builtin_primary() -> (r: ThemeSet)
    ensures
        r.names() == primary_names(),
        r.wf(),
{
    let mut themes: Vec<(String, Theme)> = Vec::new();
    themes.push(("1337".to_owned(), true_color_theme((25, 25, 25), (255, 255, 255), (40, 40, 40))));
    themes.push(
        ("Coldark-Dark".to_owned(), true_color_theme((17, 27, 39), (228, 230, 232), (28, 42, 58))),
    );
    themes.push(
        ("Dracula".to_owned(), true_color_theme((40, 42, 54), (248, 248, 242), (68, 71, 90))),
    );
    themes.push(
        ("GitHub".to_owned(), true_color_theme((255, 255, 255), (50, 60, 66), (245, 245, 245))),
    );
    themes.push(
        (
            "Monokai Extended".to_owned(),
            true_color_theme((39, 40, 34), (248, 248, 242), (62, 61, 50)),
        ),
    );
    let nord = Theme {
        background: Some(rgb(46, 52, 64)),
        foreground: Some(rgb(216, 222, 233)),
        gutter_foreground: Some(rgb(76, 86, 106)),
        line_highlight: Some(rgb(59, 66, 82)),
    };
    themes.push(("Nord".to_owned(), nord));
    themes.push(
        ("Solarized (dark)".to_owned(), true_color_theme((0, 43, 54), (131, 148, 150), (7, 54, 66))),
    );
    let ansi = Theme {
        background: Some(pass_through()),
        foreground: Some(palette(7)),
        gutter_foreground: Some(palette(8)),
        line_highlight: Some(palette(8)),
    };
    themes.push(("ansi".to_owned(), ansi));
    let r = ThemeSet { themes };
    proof {
        assert(r.names() =~= primary_names());
    }
    r
}

/// The fallback, built-in theme set.
pub fn builtin_fallback() -> (r: ThemeSet)
    ensures
        r.names() == fallback_names(),
        r.wf(),
{
    let mut themes: Vec<(String, Theme)> = Vec::new();
    themes.push(
        (
            "InspiredGitHub".to_owned(),
            true_color_theme((255, 255, 255), (51, 51, 51), (245, 245, 245)),
        ),
    );
    themes.push(
        ("Solarized (dark)".to_owned(), true_color_theme((0, 43, 54), (131, 148, 150), (7, 54, 66))),
    );
    themes.push(
        (
            "Solarized (light)".to_owned(),
            true_color_theme((253, 246, 227), (101, 123, 131), (238, 232, 213)),
        ),
    );
    themes.push(
        (
            "base16-eighties.dark".to_owned(),
            true_color_theme((45, 45, 45), (211, 208, 200), (57, 57, 57)),
        ),
    );
    themes.push(
        (
            "base16-mocha.dark".to_owned(),
            true_color_theme((59, 50, 48), (208, 200, 198), (70, 60, 58)),
        ),
    );
    themes.push(
        (
            "base16-ocean.dark".to_owned(),
            true_color_theme((43, 48, 59), (192, 197, 206), (52, 61, 70)),
        ),
    );
    themes.push(
        (
            "base16-ocean.light".to_owned(),
            true_color_theme((239, 241, 245), (79, 91, 102), (223, 227, 235)),
        ),
    );
    let r = ThemeSet { themes };
    proof {
        assert(r.names() =~= fallback_names());
    }
    r
}

} // verus!

