use grepai_cmd::grammar::{
    read_search_file_line, read_search_header, read_search_more_lines, read_search_separator,
    read_trace_caller_count, read_trace_calls_at, read_trace_symbol, read_trace_symbol_file,
};

fn two(a: &str, b: &str) -> Option<(String, String)> {
    Some((a.to_string(), b.to_string()))
}

#[test]
fn search_header_is_read() {
    let read = read_search_header;
    assert_eq!(read("Found 10 results for: \"auth\""), two("10", "auth"));
    assert_eq!(read("Found 1 result for: \"a\" or \"b\""), two("1", "a\" or \"b"));
    assert_eq!(read("Found ٣ results for: \"é\""), two("٣", "é"));
    assert_eq!(read("Found 1 results for: \"\"\""), two("1", "\""));
    assert_eq!(read("Found 1 results for: \"\""), None);
    assert_eq!(read("Found  results for: \"x\""), None);
    assert_eq!(read("Found 1 resultss for: \"x\""), None);
    assert_eq!(read(" Found 1 results for: \"x\""), None);
    assert_eq!(read("Found 1 results for: \"x\" "), None);
    assert_eq!(read("Found 1 results for: \"x\ny\""), None);
    assert_eq!(read("Found ½ results for: \"x\""), None);
    assert_eq!(read("Found 1 results for: \"x\"\n"), None);
}

#[test]
fn search_separator_is_read() {
    let read = read_search_separator;
    assert_eq!(read("── Result 1 (score: 0.68) ──"), Some("0.68".to_string()));
    assert_eq!(read("─ Result 12 (score: ..1.) ───"), Some("..1.".to_string()));
    assert_eq!(read("─ Result 1 (score: ٣.1) ─"), Some("٣.1".to_string()));
    assert_eq!(read("-- Result 1 (score: 0.68) --"), None);
    assert_eq!(read("── Result 1 (score: -0.68) ──"), None);
    assert_eq!(read("── Result  (score: 0.68) ──"), None);
    assert_eq!(read("── Result 1 (score: 0.68) "), None);
    assert_eq!(read(" ── Result 1 (score: 0.68) ──"), None);
}

#[test]
fn search_file_line_is_read() {
    let read = read_search_file_line;
    let three = |a: &str, b: &str, c: &str| Some((a.to_string(), b.to_string(), c.to_string()));
    assert_eq!(read("File: src/a.py:1-22"), three("src/a.py", "1", "22"));
    assert_eq!(read("File: C:\\x:3-4:5-6"), three("C:\\x:3-4", "5", "6"));
    assert_eq!(read("File: : :0-0"), three(": ", "0", "0"));
    assert_eq!(read("File: :1-2"), None);
    assert_eq!(read("File: a.py:1"), None);
    assert_eq!(read("File: a.py:1-"), None);
    assert_eq!(read("File: a.py:1-2 "), None);
    assert_eq!(read("    File: a.py:1-2"), None);
}

#[test]
fn mark_of_lines_left_out_is_read() {
    let read = read_search_more_lines;
    assert_eq!(read("    ... (51 more lines)"), Some("51".to_string()));
    assert_eq!(read(".... (7 more lines) x"), Some("7".to_string()));
    assert_eq!(
        read("... (x more lines) ... (1 more lines) ... (2 more lines)"),
        Some("1".to_string())
    );
    assert_eq!(read("... (1 more line)"), None);
    assert_eq!(read(".. (1 more lines)"), None);
    assert_eq!(read("... ( more lines)"), None);
    assert_eq!(read(""), None);
}

#[test]
fn trace_symbol_is_read() {
    let read = read_trace_symbol;
    assert_eq!(read("Symbol: login (function)"), two("login", "function"));
    assert_eq!(read("Symbol: f (x) (type_2)"), two("f (x)", "type_2"));
    assert_eq!(read("Symbol:   (é)"), two(" ", "é"));
    assert_eq!(read("Symbol: login (two words)"), None);
    assert_eq!(read("Symbol: login ()"), None);
    assert_eq!(read("Symbol: (function)"), None);
    assert_eq!(read("Symbol: login (function) "), None);
}

#[test]
fn trace_symbol_file_is_read() {
    let read = read_trace_symbol_file;
    let with = |a: &str, b: &str| Some((a.to_string(), Some(b.to_string())));
    let without = |a: &str| Some((a.to_string(), None));
    assert_eq!(read("File: src/a.py:42"), with("src/a.py", "42"));
    assert_eq!(read("File: a:1:2"), with("a:1", "2"));
    assert_eq!(read("File: src/a.py"), without("src/a.py"));
    assert_eq!(read("File: src/a.py:"), without("src/a.py:"));
    assert_eq!(read("File: src/a.py:4x"), without("src/a.py:4x"));
    assert_eq!(read("File: :12"), without(":12"));
    assert_eq!(read("File: ::12"), with(":", "12"));
    assert_eq!(read("File: "), None);
    assert_eq!(read("File: a\nb"), None);
}

#[test]
fn trace_caller_count_is_read() {
    let read = read_trace_caller_count;
    assert_eq!(read("Callers (27):"), two("Callers", "27"));
    assert_eq!(read("Callees (0):"), two("Callees", "0"));
    assert_eq!(read("callers (1):"), None);
    assert_eq!(read("Callers (1)"), None);
    assert_eq!(read("Callers ():"), None);
    assert_eq!(read(" Callers (1):"), None);
}

#[test]
fn call_is_read() {
    let read = read_trace_calls_at;
    assert_eq!(read("    Calls at: tests/a.ts:61"), two("tests/a.ts", "61"));
    assert_eq!(read("Calls at: a:1:2"), two("a:1", "2"));
    assert_eq!(read("\t\u{3000}\u{85}Calls at: a:1"), two("a", "1"));
    assert_eq!(read("\n Calls at: a:1"), two("a", "1"));
    assert_eq!(read("x Calls at: a:1"), None);
    assert_eq!(read("Calls at: a"), None);
    assert_eq!(read("Calls at: :1"), None);
    assert_eq!(read("Calls at: a:1 "), None);
    assert_eq!(read("\u{200b}Calls at: a:1"), None);
}
