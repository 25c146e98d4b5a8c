use grepai_cmd::search::{parse_results, write_report, SearchResult};
use grepai_cmd::text::{join, lines, number_text, parse_number, split, trim, trim_end};
use grepai_cmd::trace::{parse_groups, parse_header, rank_groups, sort_numbers, CallGroup};
use grepai_cmd::{command_line, exit_code, filter_output, message, raw_output};
use grepai_cmd::{compact_parent, filter_search, filter_trace, split_path};

fn strings(items: &[&str]) -> Vec<String> {
    items.iter().map(|s| s.to_string()).collect()
}

#[test]
fn lines_end_as_in_any_text() {
    assert_eq!(lines(""), strings(&[]));
    assert_eq!(lines("\n"), strings(&[""]));
    assert_eq!(lines("foo\nbar\n\r\nbaz\r"), strings(&["foo", "bar", "", "baz\r"]));
    assert_eq!(lines("a\r\r\nb"), strings(&["a\r", "b"]));
    for text in ["", "a", "a\n", "\n\na", "é\r\n─\n\r", "x\r\ny\r\n", "\r", "\r\n"] {
        let expected: Vec<&str> = text.lines().collect();
        assert_eq!(lines(text), expected);
    }
}

#[test]
fn trimming_cuts_white_space_only() {
    for text in ["", " ", "a", " a b ", "\u{3000}\u{85}x\u{2028}\t", "\u{200b}a\u{feff}", "\r\n"] {
        assert_eq!(trim(text), text.trim());
        assert_eq!(trim_end(text), text.trim_end());
    }
    for code in 0..0x11_0000u32 {
        if let Some(c) = char::from_u32(code) {
            assert_eq!(grepai_cmd::text::white_space(c), c.is_whitespace());
        }
    }
}

#[test]
fn numbers_are_written_and_read() {
    for n in [0usize, 1, 9, 10, 99, 100, 1234567890, usize::MAX] {
        assert_eq!(number_text(n), n.to_string());
        assert_eq!(parse_number(&n.to_string(), usize::MAX), n);
    }
    assert_eq!(parse_number("4294967295", u32::MAX as usize), 4294967295);
    assert_eq!(parse_number("4294967296", u32::MAX as usize), 0);
    assert_eq!(parse_number("18446744073709551616", usize::MAX), 0);
    assert_eq!(parse_number("99999999999999999999999", usize::MAX), 0);
    assert_eq!(parse_number("007", 10), 7);
    assert_eq!(parse_number("", 10), 0);
    assert_eq!(parse_number("٣", 10), 0);
    assert_eq!(parse_number("1a", 10), 0);
}

#[test]
fn texts_are_split_and_joined() {
    assert_eq!(split("", '/'), strings(&[""]));
    assert_eq!(split("/a//b/", '/'), strings(&["", "a", "", "b", ""]));
    assert_eq!(join(&strings(&[]), ","), "");
    assert_eq!(join(&strings(&["a"]), ","), "a");
    assert_eq!(join(&strings(&["a", "", "b"]), ", "), "a, , b");
}

#[test]
fn paths_split_at_the_last_slash() {
    let parts = |path: &str| split_path(path);
    assert_eq!(parts(""), (String::new(), String::new()));
    assert_eq!(parts("a\\b\\c.rs"), ("c.rs".to_string(), "a/b".to_string()));
    assert_eq!(parts("a\\b/c"), ("c".to_string(), "a/b".to_string()));
    assert_eq!(parts("/c"), ("c".to_string(), String::new()));
    assert_eq!(parts("a/"), (String::new(), "a".to_string()));
    assert_eq!(parts("é/─"), ("─".to_string(), "é".to_string()));
}

#[test]
fn directories_are_compacted_from_four_components_on() {
    assert_eq!(compact_parent("a/b/c"), "a/b/c/");
    assert_eq!(compact_parent("/a//b/c/"), "/a//b/c//");
    assert_eq!(compact_parent("/a//b/c/d"), "a/b/.../d/");
    assert_eq!(compact_parent(""), "/");
}

#[test]
fn only_the_first_place_and_the_last_mark_count() {
    let listing = "Found 7 results for: \"q\"\n\
                   File: too/early.rs:1-2\n\
                   ─ Result 1 (score: 0.5) ─\n\
                   ... (3 more lines)\n\
                   File: a/b.rs:1-2\n\
                   File: c/d.rs:3-4\n\
                   ... (0 more lines)\n\
                   ─ Result 2 (score: 0.4) ─\n\
                   code\n";
    assert_eq!(
        filter_search(listing),
        "grepai: \"q\" — 7 results\n\n  0.5  b.rs:1-2 (a/)\n  0.4  :-"
    );
    let results = parse_results(&lines(listing));
    assert_eq!(results.len(), 2);
    assert_eq!(results[0].file_path, "a/b.rs");
    assert_eq!(results[0].more_lines, Some(0));
    assert_eq!(results[1].more_lines, None);
}

#[test]
fn code_makes_no_difference() {
    let with = "Found 1 result for: \"q\"\r\n─ Result 1 (score: 1) ─\r\n\
                File: x.rs:1-2\r\n\r\n code\r\n";
    let without = "Found 1 result for: \"q\"\n─ Result 1 (score: 1) ─\nFile: x.rs:1-2";
    assert_eq!(filter_search(with), filter_search(without));
    assert_eq!(filter_search(with), "grepai: \"q\" — 1 results\n\n  1  x.rs:1-2");
}

#[test]
fn counts_that_do_not_fit_are_zero() {
    let listing = "Found 4294967296 results for: \"q\"\n─ Result 1 (score: 1) ─\n\
                   File: x.rs:1-2\n... (99999999999 more lines)";
    assert_eq!(filter_search(listing), "grepai: \"q\" — 0 results\n\n  1  x.rs:1-2");
}

#[test]
fn a_listing_without_results_says_so() {
    assert_eq!(
        filter_search("Found 12 results for: \"q\"\nsome text"),
        "grepai: \"q\" — 0 results"
    );
}

#[test]
fn other_search_output_is_trimmed() {
    assert_eq!(filter_search(""), "");
    assert_eq!(filter_search(" \n x \n"), "x");
    assert_eq!(filter_search("\nFound 1 results for: \"q\"\n"), "Found 1 results for: \"q\"");
}

#[test]
fn a_search_report_is_final() {
    let listing = "Found 1 result for: \"q\"\n─ Result 1 (score: 1) ─\nFile: a/x.rs:1-2";
    let report = filter_search(listing);
    assert_eq!(filter_search(&report), report);
    assert_eq!(lines(&report).len(), 3);
}

#[test]
fn a_search_report_is_written_from_its_parts() {
    let results = vec![SearchResult {
        score: "0.9".to_string(),
        file_path: "a\\b\\c\\d\\e.rs".to_string(),
        line_start: "1".to_string(),
        line_end: "2".to_string(),
        more_lines: Some(4),
    }];
    assert_eq!(
        write_report("q", 3, &results),
        "grepai: \"q\" — 3 results\n\n  0.9  e.rs:1-2 (+4 lines) (a/b/.../d/)"
    );
}

#[test]
fn files_are_ranked_by_calls() {
    let mut listing = String::from("Symbol: f (function)\nFile: lib\\f.rs\n\nCallees (99):\n");
    for (file, line) in [("a.rs", 3), ("b.rs", 7), ("b.rs", 7), ("c.rs", 1), ("b.rs", 7)] {
        listing.push_str(&format!("  Calls at: src/{}:{}\n", file, line));
    }
    for line in [60, 50, 40, 30, 20, 10] {
        listing.push_str(&format!("  Calls at: src/many.rs:{}\n", line));
    }
    assert_eq!(
        filter_trace(&listing),
        "f (function) @ f.rs — 99 callees in 4 files:\n\n\
         \x20 many.rs  6x (lines: 10,20,30,...)\n\
         \x20 b.rs  3x (line: 7)\n\
         \x20 a.rs:3  1x\n\
         \x20 c.rs:1  1x"
    );
}

#[test]
fn five_lines_are_listed_in_full() {
    let mut listing = String::from("Symbol: f (function)\nCallers (5):\n");
    for line in [5, 4, 3, 2, 1, 3] {
        listing.push_str(&format!("Calls at: x:{}\n", line));
    }
    assert_eq!(
        filter_trace(&listing),
        "f (function) @  — 5 callers in 1 files:\n\n  x  6x (lines: 1,2,3,4,5)"
    );
}

#[test]
fn calls_on_one_line_are_counted() {
    let listing = "Symbol: login (function)\nFile: backend/src/auth.py:117\n\nCallers (2):\n\
                   \x20 Calls at: tests/test_exercise_library.py:120\n\
                   \x20 Calls at: tests/test_exercise_library.py:120\n";
    assert_eq!(
        filter_trace(listing),
        "login (function) @ auth.py:117 — 2 callers in 1 files:\n\n\
         \x20 test_exercise_library.py  2x (line: 120)"
    );
}

#[test]
fn long_lists_show_three_lines() {
    let mut listing = String::from(
        "Symbol: login (function)\nFile: backend/src/auth.py:117\n\nCallers (18):\n",
    );
    for line in (200..215).chain([126, 61, 96]) {
        listing.push_str(&format!("Calls at: tests/authRepository.test.ts:{}\n", line));
    }
    assert_eq!(
        filter_trace(&listing),
        "login (function) @ auth.py:117 — 18 callers in 1 files:\n\n\
         \x20 authRepository.test.ts  18x (lines: 61,96,126,...)"
    );
}

#[test]
fn order_of_calls_does_not_matter() {
    let header = "Symbol: f (function)\nCallers (3):\n";
    let one = format!("{}Calls at: a:2\nCalls at: b:5\n code\nCalls at: a:1\n", header);
    let two = format!("{}x\ny\nCalls at: a:1\nCalls at: a:2\n\nCalls at: b:5", header);
    assert_eq!(filter_trace(&one), filter_trace(&two));
    assert_eq!(
        filter_trace(&one),
        "f (function) @  — 3 callers in 2 files:\n\n  a  2x (lines: 1,2)\n  b:5  1x"
    );
}

#[test]
fn directories_stand_in_one_column() {
    let listing = "Found 10 results for: \"authentication logic\"\n\
                   ─── Result 1 (score: 0.68) ───\n\
                   File: backend/src/some/path/api/auth.py:223-228\n\n\
                   \x20   def authenticate_user(credentials):\n\n\
                   ─── Result 2 (score: 0.38) ───\n\
                   File: .agents/skills/auth-flow/SKILL.md:330-394\n\n\
                   \x20   ... (51 more lines)\n";
    assert_eq!(
        filter_search(listing),
        "grepai: \"authentication logic\" — 10 results\n\n\
         \x20 0.68  auth.py:223-228              (backend/src/.../api/)\n\
         \x20 0.38  SKILL.md:330-394 (+51 lines) (.agents/skills/auth-flow/)"
    );
}

#[test]
fn rows_without_a_directory_are_not_padded() {
    let listing = "Found 3 results for: \"q\"\n\
                   ─ Result 1 (score: 1) ─\nFile: é.rs:1-2\n\
                   ─ Result 2 (score: 2) ─\nFile: long_name.rs:1-2\n\
                   ─ Result 3 (score: 3) ─\nFile: d/é.rs:1-2\n";
    assert_eq!(
        filter_search(listing),
        "grepai: \"q\" — 3 results\n\n\
         \x20 1  é.rs:1-2\n\
         \x20 2  long_name.rs:1-2\n\
         \x20 3  é.rs:1-2         (d/)"
    );
}

#[test]
fn same_names_in_different_directories_stay_apart() {
    let listing = "Symbol: f (function)\nCallers (2):\nCalls at: a/x.rs:1\nCalls at: b/x.rs:1\n";
    assert_eq!(
        filter_trace(listing),
        "f (function) @  — 2 callers in 2 files:\n\n  x.rs:1  1x\n  x.rs:1  1x"
    );
}

#[test]
fn the_header_is_the_first_six_lines() {
    let listing = "a\nb\nc\nd\ne\nSymbol: f (function)\nCallers (1):\nCalls at: x:1\n";
    assert_eq!(
        filter_trace(listing),
        "f (function) @  — 0  in 1 files:\n\n  x:1  1x"
    );
    let late = "a\nb\nc\nd\ne\ng\nSymbol: f (function)\nCallers (1):\n";
    assert_eq!(filter_trace(late), late.trim());
    let (header, start) = parse_header(&lines(listing));
    assert_eq!(header.symbol_name, "f");
    assert_eq!(header.relation, "");
    assert_eq!(start, 0);
}

#[test]
fn the_last_symbol_and_the_first_file_count() {
    let listing = "Symbol: f (function)\nSymbol: g (method)\nFile: a/b.rs:1\nFile: c.rs:2\n\
                   Callers (1):\nSymbol: h (function)\n";
    assert_eq!(filter_trace(listing), "g (method) @ b.rs:1 — 1 callers in 0 files:");
}

#[test]
fn calls_before_the_count_are_not_listed() {
    let listing = "Symbol: f (function)\nCalls at: early:1\nCallers (1):\nCalls at: x:1\n";
    let (header, start) = parse_header(&lines(listing));
    assert_eq!(header.total_count, 1);
    assert_eq!(start, 3);
    let groups = parse_groups(&lines(listing), start);
    assert_eq!(groups.len(), 1);
    assert_eq!(groups[0].file, "x");
    assert_eq!(groups[0].lines, vec![1]);
}

#[test]
fn a_trace_report_is_final() {
    let listing = "Symbol: f (function)\nFile: f.rs:1\n\nCallers (1):\nCalls at: x:1\n";
    let report = filter_trace(listing);
    assert_eq!(filter_trace(&report), report);
    assert_eq!(
        lines(&report),
        strings(&["f (function) @ f.rs:1 — 1 callers in 1 files:", "", "  x:1  1x"])
    );
}

#[test]
fn code_of_a_trace_makes_no_difference() {
    let with = "Symbol: f (function)\nCallers (1):\n code\nCalls at: x:1\n  Code:\n";
    let without = "Symbol: f (function)\nCallers (1):\nCalls at: x:1\n";
    assert_eq!(filter_trace(with), filter_trace(without));
}

#[test]
fn ranking_is_stable() {
    let group = |file: &str, lines: &[usize]| CallGroup {
        file: file.to_string(),
        lines: lines.to_vec(),
    };
    let ranked = rank_groups(vec![
        group("a", &[1]),
        group("b", &[1, 2]),
        group("c", &[3]),
        group("d", &[5, 4]),
        group("e", &[1, 1, 1]),
    ]);
    let files: Vec<&str> = ranked.iter().map(|g| g.file.as_str()).collect();
    assert_eq!(files, vec!["e", "b", "d", "a", "c"]);
}

#[test]
fn numbers_are_sorted_and_distinct() {
    assert_eq!(sort_numbers(&vec![]), vec![]);
    assert_eq!(sort_numbers(&vec![3, 1, 3, 2, 1, 0]), vec![0, 1, 2, 3]);
}

#[test]
fn runs_choose_their_filter() {
    let search = "Found 0 results for: \"q\"";
    let trace = "Symbol: f (function)\nCallers (0):";
    let report = "f (function) @  — 0 callers in 0 files:";
    let run = |args: &[&str], text: &str| filter_output(&strings(args), text);
    assert_eq!(run(&["search", "q"], search), "grepai: \"q\" — 0 results");
    assert_eq!(run(&["search"], trace), trace);
    assert_eq!(run(&["trace", "callers", "f"], trace), report);
    assert_eq!(run(&["trace", "callees"], trace), report);
    assert_eq!(run(&["trace", "graph"], trace), trace);
    assert_eq!(run(&["trace"], trace), trace);
    assert_eq!(run(&["index"], " ok \n"), "ok");
    assert_eq!(run(&[], " ok \n"), "ok");
}

#[test]
fn raw_output_joins_both_streams() {
    assert_eq!(raw_output("é".as_bytes(), b"err"), "é\nerr");
    assert_eq!(raw_output(b"a\xffb", b""), "a\u{fffd}b\n");
}

#[test]
fn exit_codes_are_kept() {
    assert_eq!(exit_code(Some(3), false), 3);
    assert_eq!(exit_code(Some(0), true), 0);
    assert_eq!(exit_code(None, true), 0);
    assert_eq!(exit_code(None, false), 1);
}

#[test]
fn commands_and_messages_are_written() {
    assert_eq!(command_line("grepai", &strings(&["search", "a b"])), "grepai search a b");
    assert_eq!(command_line("rtk grepai", &[]), "rtk grepai ");
    assert_eq!(message("out", None), "out");
    assert_eq!(message("out", Some("see log")), "out\nsee log");
}
