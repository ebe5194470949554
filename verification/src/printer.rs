//! The printer interface: input files, options and errors.

use vstd::prelude::*;

verus! {

/// How many colors the terminal supports.
#[derive(Clone, Copy, Debug, PartialEq, Eq, Structural)]
pub enum TermColorSupport {
    Ansi16,
    Ansi256,
    True,
}

/// Configuration of a printer.
pub struct PrinterOptions {
    /// Columns a tab expands to; `0` passes the tab through literally.
    pub tab_width: usize,
    /// Name of the theme to render with; `None` picks a default for the
    /// color support.
    pub theme: Option<String>,
    /// Draw the vertical gutter bar and the horizontal header/footer rules.
    pub grid: bool,
    /// Fill the full terminal width with the theme background on every line.
    pub background_color: bool,
    /// Hard terminal width in columns.
    pub term_width: u16,
    /// How colors are emitted.
    pub color_support: TermColorSupport,
}

impl Default for PrinterOptions {
    fn default() -> (r: PrinterOptions)
        ensures
            r.tab_width == 4,
            r.theme is None,
            r.grid,
            !r.background_color,
            r.term_width == 80,
            r.color_support == TermColorSupport::True,
    {
        PrinterOptions {
            tab_width: 4,
            theme: None,
            grid: true,
            background_color: false,
            term_width: 80,
            color_support: TermColorSupport::True,
        }
    }
}

/// A source file to print: a display path, the matched line numbers, the
/// chunk ranges to render and the raw contents.
pub struct File {
    pub path: String,
    pub line_numbers: Vec<u64>,
    pub chunks: Vec<(u64, u64)>,
    pub contents: Vec<u8>,
}

/// Chunks are inclusive line ranges starting at one, non-overlapping and in
/// increasing order.
pub open spec fn chunks_wf(chunks: Seq<(u64, u64)>) -> bool {
    &&& forall|i: int| 0 <= i < chunks.len() ==> 1 <= (#[trigger] chunks[i]).0 <= chunks[i].1
    &&& forall|i: int| 0 <= i < chunks.len() - 1 ==> (#[trigger] chunks[i]).1 < chunks[i + 1].0
}

/// Whether some chunk covers the line number.
pub open spec fn covered(chunks: Seq<(u64, u64)>, n: u64) -> bool {
    exists|k: int| 0 <= k < chunks.len() && (#[trigger] chunks[k]).0 <= n <= chunks[k].1
}

/// Matched line numbers are strictly increasing, each lies within some
/// chunk, and they may be absent only when there are no chunks at all.
pub open spec fn file_wf(f: File) -> bool {
    &&& chunks_wf(f.chunks@)
    &&& forall|i: int, j: int|
        0 <= i < j < f.line_numbers@.len() ==> f.line_numbers@[i] < f.line_numbers@[j]
    &&& forall|i: int|
        0 <= i < f.line_numbers@.len() ==> covered(f.chunks@, #[trigger] f.line_numbers@[i])
    &&& f.line_numbers@.len() == 0 ==> f.chunks@.len() == 0
}

/// Whether some chunk covers the line number.
fn lnum_in_chunks(chunks: &Vec<(u64, u64)>, n: u64) -> (r: bool)
    ensures
        r == covered(chunks@, n),
{
    let mut k: usize = 0;
    while k < chunks.len()
        invariant
            0 <= k <= chunks@.len(),
            forall|j: int| 0 <= j < k ==> !((#[trigger] chunks@[j]).0 <= n <= chunks@[j].1),
        decreases chunks@.len() - k,
    {
        if chunks[k].0 <= n && n <= chunks[k].1 {
            return true;
        }
        k = k + 1;
    }
    false
}

impl File {
    pub fn new(path: String, line_numbers: Vec<u64>, chunks: Vec<(u64, u64)>, contents: Vec<u8>) -> (r:
        File)
        ensures
            r.path == path,
            r.line_numbers == line_numbers,
            r.chunks == chunks,
            r.contents == contents,
    {
        File { path, line_numbers, chunks, contents }
    }

    /// Whether the file satisfies the data model the printer is specified
    /// for: ordered, non-overlapping chunks starting at one, and strictly
    /// increasing matched line numbers that each lie inside some chunk.
    pub fn is_well_formed(&self) -> (r: bool)
        ensures
            r == file_wf(*self),
    {
        let mut i: usize = 0;
        while i < self.chunks.len()
            invariant
                0 <= i <= self.chunks@.len(),
                forall|j: int|
                    0 <= j < i ==> 1 <= (#[trigger] self.chunks@[j]).0 <= self.chunks@[j].1,
                forall|j: int|
                    0 <= j < i - 1 ==> (#[trigger] self.chunks@[j]).1 < self.chunks@[j + 1].0,
            decreases self.chunks@.len() - i,
        {
            let (s, e) = self.chunks[i];
            if s < 1 || e < s {
                return false;
            }
            if i > 0 && self.chunks[i - 1].1 >= s {
                return false;
            }
            i = i + 1;
        }
        let mut m: usize = 0;
        while m < self.line_numbers.len()
            invariant
                0 <= m <= self.line_numbers@.len(),
                forall|j: int|
                    0 <= j < m - 1 ==> #[trigger] self.line_numbers@[j] < self.line_numbers@[j + 1],
                forall|j: int|
                    0 <= j < m ==> covered(self.chunks@, #[trigger] self.line_numbers@[j]),
        decreases self.line_numbers@.len() - m,
        {
            let n = self.line_numbers[m];
            if m > 0 && self.line_numbers[m - 1] >= n {
                return false;
            }
            if !lnum_in_chunks(&self.chunks, n) {
                return false;
            }
            m = m + 1;
        }
        if self.line_numbers.len() == 0 && self.chunks.len() > 0 {
            return false;
        }
        proof {
            assert forall|a: int, b: int|
                0 <= a < b < self.line_numbers@.len() implies self.line_numbers@[a]
                < self.line_numbers@[b] by {
                lemma_sorted_by_adjacent(self.line_numbers@, a, b);
            }

        }
        true
    }
}

proof fn lemma_sorted_by_adjacent(s: Seq<u64>, a: int, b: int)
    requires
        forall|j: int| 0 <= j < s.len() - 1 ==> #[trigger] s[j] < s[j + 1],
        0 <= a < b < s.len(),
    ensures
        s[a] < s[b],
    decreases b - a,
{
    if a + 1 < b {
        lemma_sorted_by_adjacent(s, a + 1, b);
    }
}

/// An error while printing.
#[derive(Debug)]
pub struct PrintError {
    pub message: String,
}

impl PrintError {
    pub fn new(message: String) -> (r: PrintError)
        ensures
            r.message == message,
    {
        PrintError { message }
    }

    /// The human-readable message.
    pub fn message(&self) -> (r: &String)
        ensures
            r == &self.message,
    {
        &self.message
    }
}

/// What a printer does: render one file to its output.
pub trait Printer {
    fn print(&mut self, file: &File) -> Result<(), PrintError>;
}

} // verus!
