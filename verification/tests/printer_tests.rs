use hgrep::print::{list_themes, SyntectPrinter};
use hgrep::printer::{File, Printer, PrinterOptions, TermColorSupport};

fn make_file(path: &str, lnums: Vec<u64>, chunks: Vec<(u64, u64)>, contents: &[u8]) -> File {
    File::new(path.to_string(), lnums, chunks, contents.to_vec())
}

fn six_lines() -> Vec<u8> {
    b"one\ntwo\nthree match\nfour\nfive\nsix\n".to_vec()
}

fn printed(file: File, opts: PrinterOptions) -> String {
    let mut printer = SyntectPrinter::new(Vec::new(), opts).unwrap();
    printer.print(&file).unwrap();
    String::from_utf8(std::mem::take(printer.writer_mut())).unwrap()
}

fn strip_csi(s: &str) -> String {
    let mut out = String::new();
    let mut chars = s.chars();
    while let Some(c) = chars.next() {
        if c == '\u{1b}' {
            assert_eq!(chars.next(), Some('['), "escape must open a CSI sequence");
            for b in chars.by_ref() {
                if b == 'm' {
                    break;
                }
                assert!(
                    b.is_ascii_digit() || b == ';',
                    "unexpected CSI body byte {:?}",
                    b
                );
            }
        } else {
            out.push(c);
        }
    }
    out
}

fn body_lines(out: &str) -> Vec<String> {
    strip_csi(out)
        .lines()
        .filter(|l| l.contains('│'))
        .map(|l| l.to_string())
        .collect()
}

#[test]
fn test_print_nothing() {
    let file = File::new("x.txt".to_string(), vec![], vec![], vec![]);
    let opts = PrinterOptions::default();
    let mut printer = SyntectPrinter::new(Vec::new(), opts).unwrap();
    printer.print(&file).unwrap();
    let printed = std::mem::take(printer.writer_mut());
    assert!(
        printed.is_empty(),
        "pritned:\n{}",
        String::from_utf8_lossy(&printed)
    );
}

#[test]
fn test_unknown_theme() {
    let mut opts = PrinterOptions::default();
    opts.theme = Some("this theme does not exist".to_string());
    let err = match SyntectPrinter::new(Vec::<u8>::new(), opts) {
        Err(e) => e,
        Ok(_) => panic!("error did not occur"),
    };
    let msg = err.message().clone();
    assert!(msg.contains("Unknown theme"), "message={:?}", msg);
}

#[test]
fn test_list_themes() {
    let mut buf = String::new();
    list_themes(&mut buf).unwrap();
    let out = buf;

    // From the primary set
    assert!(out.contains("Monokai Extended\n"), "output={:?}", out);

    // From the fallback set
    assert!(out.contains("base16-ocean.dark\n"), "output={:?}", out);
}

#[test]
fn test_list_themes_order_and_dedup() {
    let mut buf = String::new();
    list_themes(&mut buf).unwrap();
    let names: Vec<&str> = buf.lines().collect();
    let solarized = names
        .iter()
        .filter(|n| **n == "Solarized (dark)")
        .count();
    assert_eq!(solarized, 1, "a shared name is listed once: {:?}", names);
    let first = names.iter().position(|n| *n == "1337").unwrap();
    let fallback_only = names.iter().position(|n| *n == "base16-ocean.dark").unwrap();
    assert!(first < fallback_only, "primary before fallback-only: {:?}", names);
}

#[test]
fn test_default_grid_output() {
    let file = make_file("sample.txt", vec![3], vec![(1, 6)], &six_lines());
    let out = printed(file, PrinterOptions::default());
    let plain = strip_csi(&out);
    // header rule, path, grid rule with the tee
    assert!(plain.starts_with("────"), "output={:?}", plain);
    assert!(plain.contains(" sample.txt\n"), "output={:?}", plain);
    assert!(plain.contains("┬"), "output={:?}", plain);
    assert!(plain.contains("┴"), "output={:?}", plain);
    // six body lines with right-aligned numbers and the bar
    let body = body_lines(&out);
    assert_eq!(body.len(), 6, "output={:?}", plain);
    assert!(body[0].starts_with(" 1 │ "), "line={:?}", body[0]);
    assert!(body[2].starts_with(" 3 │ "), "line={:?}", body[2]);
    // the bold header sequence is emitted
    assert!(out.contains("\u{1b}[1m"), "output={:?}", out);
}

#[test]
fn test_matched_line_padded_to_terminal_width() {
    let file = make_file("sample.txt", vec![3], vec![(1, 6)], &six_lines());
    let out = printed(file, PrinterOptions::default());
    let body = body_lines(&out);
    // the matched line is filled with the line-highlight background up to
    // column 80; other lines stop after their text
    assert_eq!(body[2].chars().count(), 80, "line={:?}", body[2]);
    assert!(body[0].chars().count() < 80, "line={:?}", body[0]);
    // Monokai Extended line-highlight background opens the matched line
    assert!(out.contains("\u{1b}[48;2;62;61;50m"), "output={:?}", out);
}

#[test]
fn test_no_grid() {
    let mut opts = PrinterOptions::default();
    opts.grid = false;
    let file = make_file("sample.txt", vec![3], vec![(1, 6)], &six_lines());
    let out = printed(file, opts);
    let plain = strip_csi(&out);
    // the top rule is always drawn; grid only adds the second rule, the
    // footer rule and the vertical bar
    assert!(plain.starts_with("────"), "output={:?}", plain);
    assert!(!plain.contains('│'), "output={:?}", plain);
    assert!(!plain.contains('┬'), "output={:?}", plain);
    assert!(!plain.contains('┴'), "output={:?}", plain);
    assert!(plain.contains("\n sample.txt\n"), "output={:?}", plain);
    // gutter is the number padded into lnum_width + 2 columns
    assert!(plain.contains("\n 1 one"), "output={:?}", plain);
}

#[test]
fn test_background_fills_every_line() {
    let mut opts = PrinterOptions::default();
    opts.background_color = true;
    let file = make_file("sample.txt", vec![3], vec![(1, 6)], &six_lines());
    let out = printed(file, opts);
    for line in body_lines(&out) {
        assert_eq!(line.chars().count(), 80, "line={:?}", line);
    }
    // the theme background is set
    assert!(out.contains("\u{1b}[48;2;39;40;34m"), "output={:?}", out);
}

#[test]
fn test_tab_width_2() {
    let mut opts = PrinterOptions::default();
    opts.tab_width = 2;
    let file = make_file("sample.txt", vec![1], vec![(1, 1)], b"\t\tfoo\n");
    let out = printed(file, opts);
    let body = body_lines(&out);
    assert!(body[0].contains("│     foo"), "line={:?}", body[0]);
    // two tabs expand to four spaces before the text
    let after_bar = body[0].split('│').nth(1).unwrap();
    assert!(after_bar.starts_with("     foo"), "line={:?}", after_bar);
}

#[test]
fn test_hard_tab() {
    let mut opts = PrinterOptions::default();
    opts.tab_width = 0;
    let file = make_file("sample.txt", vec![1], vec![(1, 1)], b"\tfoo\n");
    let out = printed(file, opts);
    assert!(out.contains("\tfoo"), "output={:?}", out);
}

#[test]
fn test_hard_tab_width_accounting() {
    // with a zero tab width the literal tab contributes no columns, so a
    // matched line still pads the full terminal width with spaces
    let mut opts = PrinterOptions::default();
    opts.tab_width = 0;
    let file = make_file("sample.txt", vec![1], vec![(1, 1)], b"\tfoo\n");
    let out = printed(file, opts);
    let body = body_lines(&out);
    let cols: usize = body[0].chars().map(|c| if c == '\t' { 0 } else { 1 }).sum();
    assert_eq!(cols, 80, "line={:?}", body[0]);
}

#[test]
fn test_long_line_wraps() {
    let mut contents = Vec::new();
    contents.extend_from_slice("x".repeat(100).as_bytes());
    contents.push(b'\n');
    let file = make_file("sample.txt", vec![1], vec![(1, 1)], &contents);
    let out = printed(file, PrinterOptions::default());
    let plain = strip_csi(&out);
    // body width is 80 - (1 + 4) = 75: the first screen line carries 75
    // characters, the continuation the remaining 25 behind a wrap gutter
    assert!(plain.contains(&"x".repeat(75)), "output={:?}", plain);
    assert!(!plain.contains(&"x".repeat(76)), "output={:?}", plain);
    let wrapped: Vec<&str> = plain.lines().filter(|l| l.contains("xxx")).collect();
    assert_eq!(wrapped.len(), 2, "output={:?}", plain);
    assert!(wrapped[1].starts_with("   │ "), "line={:?}", wrapped[1]);
    // every style is closed before each newline of the wrapped line
    for line in out.lines().filter(|l| l.contains("xxx")) {
        assert!(line.ends_with("\u{1b}[0m"), "line={:?}", line);
    }
}

#[test]
fn test_wide_characters_count_two_columns() {
    let mut opts = PrinterOptions::default();
    opts.background_color = true;
    let file = make_file("sample.txt", vec![1], vec![(1, 1)], "漢字\n".as_bytes());
    let out = printed(file, opts);
    let body = body_lines(&out);
    // the body region behind the gutter is padded to 80 - (1 + 4) = 75
    // columns, a wide character counting two
    let after_bar = &body[0].split('│').nth(1).unwrap()[1..];
    let cols: usize = after_bar
        .chars()
        .map(|c| unicode_width::UnicodeWidthChar::width_cjk(c).unwrap_or(0))
        .sum();
    assert_eq!(cols, 75, "line={:?}", body[0]);
}

#[test]
fn test_ansi16_theme_uses_no_true_color() {
    let mut opts = PrinterOptions::default();
    opts.color_support = TermColorSupport::Ansi16;
    opts.theme = Some("ansi".to_string());
    let file = make_file("sample.txt", vec![3], vec![(1, 6)], &six_lines());
    let out = printed(file, opts);
    assert!(!out.contains("38;2;"), "output={:?}", out);
    assert!(!out.contains("48;2;"), "output={:?}", out);
    // the palette foreground of the ansi theme
    assert!(out.contains("\u{1b}[37m"), "output={:?}", out);
}

#[test]
fn test_ansi256_down_conversion() {
    let mut opts = PrinterOptions::default();
    opts.color_support = TermColorSupport::Ansi256;
    let file = make_file("sample.txt", vec![3], vec![(1, 6)], &six_lines());
    let out = printed(file, opts);
    assert!(!out.contains("38;2;"), "output={:?}", out);
    assert!(!out.contains("48;2;"), "output={:?}", out);
    // the Monokai Extended foreground, quantized exactly as the conversion
    // crate does it
    let idx = rgb2ansi256::rgb_to_ansi256(248, 248, 242);
    assert!(
        out.contains(&format!("\u{1b}[38;5;{}m", idx)),
        "output={:?}",
        out
    );
}

#[test]
fn test_multi_chunk_separator() {
    let mut contents = Vec::new();
    for i in 1..=15 {
        contents.extend_from_slice(format!("line {}\n", i).as_bytes());
    }
    let file = make_file("sample.txt", vec![3, 12], vec![(1, 6), (10, 15)], &contents);
    let out = printed(file, PrinterOptions::default());
    let plain = strip_csi(&out);
    // the dots are right-aligned so that `...` ends at column
    // lnum_width + 1 == 4, and the grid rule hangs off a tee
    assert!(plain.contains("\n ... ├"), "output={:?}", plain);
    assert!(plain.contains(" 10 │ line 10"), "output={:?}", plain);
    assert!(plain.contains(" 15 │ line 15"), "output={:?}", plain);
    // nothing from the gap is drawn
    assert!(!plain.contains("line 8"), "output={:?}", plain);
    // the separator closes its style before its newline
    let sep = out.lines().find(|l| l.contains("...")).unwrap();
    assert!(sep.ends_with("\u{1b}[0m"), "separator={:?}", sep);
}

#[test]
fn test_separator_without_grid() {
    let mut contents = Vec::new();
    for i in 1..=15 {
        contents.extend_from_slice(format!("line {}\n", i).as_bytes());
    }
    let mut opts = PrinterOptions::default();
    opts.grid = false;
    let file = make_file("sample.txt", vec![3, 12], vec![(1, 6), (10, 15)], &contents);
    let out = printed(file, opts);
    let plain = strip_csi(&out);
    assert!(plain.contains("\n ...─"), "output={:?}", plain);
    assert!(!plain.contains('├'), "output={:?}", plain);
}

#[test]
fn test_invalid_utf8_is_replaced() {
    let file = make_file("sample.txt", vec![1], vec![(1, 1)], b"a\xffb\n");
    let out = printed(file, PrinterOptions::default());
    let plain = strip_csi(&out);
    assert!(plain.contains("a\u{fffd}b"), "output={:?}", plain);
}

#[test]
fn test_narrow_terminal_is_rejected() {
    let mut opts = PrinterOptions::default();
    opts.term_width = 5;
    let file = make_file("sample.txt", vec![3], vec![(1, 6)], &six_lines());
    let mut printer = SyntectPrinter::new(Vec::new(), opts).unwrap();
    let err = printer.print(&file).unwrap_err();
    assert!(
        err.message().contains("terminal width"),
        "message={:?}",
        err.message()
    );
    assert!(printer.writer_mut().is_empty());
}

#[test]
fn test_every_escape_is_closed_at_line_end() {
    let file = make_file("sample.txt", vec![3], vec![(1, 6)], &six_lines());
    let out = printed(file, PrinterOptions::default());
    // strip_csi panics on anything that is not a well-formed CSI sequence
    let _ = strip_csi(&out);
    for line in out.lines().filter(|l| !l.is_empty()) {
        assert!(line.ends_with('m'), "line={:?}", line);
    }
}

#[test]
fn test_find_syntax_override_table() {
    let opts = PrinterOptions::default();
    let printer = SyntectPrinter::new(Vec::<u8>::new(), opts).unwrap();
    assert_eq!(printer.find_syntax(&"src/lib.fs".to_string()), "F#");
    assert_eq!(printer.find_syntax(&"include/a.h".to_string()), "C++");
    assert_eq!(printer.find_syntax(&"proxy.pac".to_string()), "JavaScript (Babel)");
    assert_eq!(printer.find_syntax(&"README.md".to_string()), "Plain Text");
    assert_eq!(printer.find_syntax(&".bashrc".to_string()), "Plain Text");
}

#[test]
fn test_file_without_trailing_newline() {
    let file = make_file("sample.txt", vec![2], vec![(1, 2)], b"one\ntwo");
    let out = printed(file, PrinterOptions::default());
    let body = body_lines(&out);
    assert_eq!(body.len(), 2, "output={:?}", strip_csi(&out));
    assert!(body[1].contains("two"), "line={:?}", body[1]);
}

#[test]
fn test_highlight_token_carries_whole_line() {
    let theme_holder = SyntectPrinter::new(Vec::<u8>::new(), PrinterOptions::default()).unwrap();
    let theme = theme_holder.theme().clone();
    let mut hl = hgrep::highlight::LineHighlighter::new("Plain Text".to_string(), &theme);
    let line: Vec<char> = "let x = 1;\n".chars().collect();
    let parts = hl.highlight(&line);
    let joined: Vec<char> = parts.iter().flat_map(|(_, t)| t.iter().copied()).collect();
    assert_eq!(joined, line);
}

#[test]
fn test_skip_then_highlight_matches_highlight_twice() {
    let theme_holder = SyntectPrinter::new(Vec::<u8>::new(), PrinterOptions::default()).unwrap();
    let theme = theme_holder.theme().clone();
    let first: Vec<char> = "/* open comment\n".chars().collect();
    let second: Vec<char> = "still inside */\n".chars().collect();
    let mut skipping = hgrep::highlight::LineHighlighter::new("Plain Text".to_string(), &theme);
    skipping.skip_line(&first);
    let from_skip = skipping.highlight(&second);
    let mut highlighting = hgrep::highlight::LineHighlighter::new("Plain Text".to_string(), &theme);
    let _ = highlighting.highlight(&first);
    let from_highlight = highlighting.highlight(&second);
    assert_eq!(from_skip, from_highlight);
}

#[test]
fn test_background_header_padded_to_terminal_width() {
    let mut opts = PrinterOptions::default();
    opts.background_color = true;
    let file = make_file("sample.txt", vec![3], vec![(1, 6)], &six_lines());
    let out = printed(file, opts);
    let header = strip_csi(&out)
        .lines()
        .find(|l| l.contains("sample.txt"))
        .unwrap()
        .to_string();
    assert_eq!(header.chars().count(), 80, "header={:?}", header);
    assert!(header.starts_with(" sample.txt "), "header={:?}", header);
}

#[test]
fn test_print_through_trait() {
    let file = make_file("sample.txt", vec![3], vec![(1, 6)], &six_lines());
    let mut printer = SyntectPrinter::new(Vec::<u8>::new(), PrinterOptions::default()).unwrap();
    Printer::print(&mut printer, &file).unwrap();
    let out = String::from_utf8(std::mem::take(printer.writer_mut())).unwrap();
    assert!(strip_csi(&out).contains(" 3 │ three match"), "output={:?}", out);
}

#[test]
fn test_print_through_trait_rejects_malformed_file() {
    // overlapping chunks break the data model the renderer is specified for
    let file = make_file("sample.txt", vec![3], vec![(1, 6), (4, 9)], &six_lines());
    let mut printer = SyntectPrinter::new(Vec::<u8>::new(), PrinterOptions::default()).unwrap();
    let err = Printer::print(&mut printer, &file).unwrap_err();
    assert!(err.message().contains("malformed"), "message={:?}", err.message());
    assert!(printer.writer_mut().is_empty());
}

#[test]
fn test_file_is_well_formed() {
    assert!(make_file("a", vec![3], vec![(1, 6)], b"").is_well_formed());
    assert!(make_file("a", vec![3, 12], vec![(1, 6), (10, 15)], b"").is_well_formed());
    assert!(make_file("a", vec![], vec![], b"").is_well_formed());
    // start of zero
    assert!(!make_file("a", vec![1], vec![(0, 6)], b"").is_well_formed());
    // overlapping chunks
    assert!(!make_file("a", vec![3], vec![(1, 6), (6, 9)], b"").is_well_formed());
    // match outside every chunk
    assert!(!make_file("a", vec![8], vec![(1, 6)], b"").is_well_formed());
    // matches not increasing
    assert!(!make_file("a", vec![3, 3], vec![(1, 6)], b"").is_well_formed());
    // chunks without matches
    assert!(!make_file("a", vec![], vec![(1, 6)], b"").is_well_formed());
}
