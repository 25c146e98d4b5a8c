//! The regular expressions that recognise the lines of a listing, what they
//! mean, and the one call that runs them.

use vstd::prelude::*;

verus! {

/// The first line of a search listing: how many results, for which query.
pub const SEARCH_HEADER: &'static str = r#"^Found (\d+) results? for: "(.+)"$"#;

/// The line that opens a search result: its score.
pub const SEARCH_SEPARATOR: &'static str = r"^[─]+ Result \d+ \(score: ([\d.]+)\) [─]+$";

/// Where a search result stands: path, first line, last line.
pub const SEARCH_FILE_LINE: &'static str = r"^File: (.+):(\d+)-(\d+)$";

/// The mark that a code body was cut: how many lines are left out.
pub const SEARCH_MORE_LINES: &'static str = r"\.\.\. \((\d+) more lines\)";

/// The symbol that a trace is about: name and type.
pub const TRACE_SYMBOL: &'static str = r"^Symbol: (.+) \((\w+)\)$";

/// Where the symbol is defined: path and, if known, line.
pub const TRACE_SYMBOL_FILE: &'static str = r"^File: (.+?)(?::(\d+))?$";

/// What a trace lists, callers or callees, and how many.
pub const TRACE_CALLER_COUNT: &'static str = r"^(Callers|Callees) \((\d+)\):$";

/// One call of a trace: path and line.
pub const TRACE_CALLS_AT: &'static str = r"^\s*Calls at: (.+):(\d+)$";

/// One decimal digit.
pub const DIGIT: &'static str = r"\d";

/// One word character.
pub const WORD: &'static str = r"\w";

/// The patterns of this module. Each is a valid regular expression.
pub open spec fn is_pattern(pattern: Seq<char>) -> bool {
    ||| pattern == SEARCH_HEADER@
    ||| pattern == SEARCH_SEPARATOR@
    ||| pattern == SEARCH_FILE_LINE@
    ||| pattern == SEARCH_MORE_LINES@
    ||| pattern == TRACE_SYMBOL@
    ||| pattern == TRACE_SYMBOL_FILE@
    ||| pattern == TRACE_CALLER_COUNT@
    ||| pattern == TRACE_CALLS_AT@
    ||| pattern == DIGIT@
    ||| pattern == WORD@
}

/// What the capture groups of the first match of `pattern` in `text` hold,
/// group 0 (the whole match) first; `None` where `pattern` does not match.
pub uninterp spec fn capture_groups(pattern: Seq<char>, text: Seq<char>) -> Option<
    Seq<Option<Seq<char>>>,
>;

/// A character that `\d` matches: `0` to `9`, and beyond ASCII what the
/// `regex` crate holds to be a decimal digit, none of which is white space.
pub open spec fn is_digit(c: char) -> bool {
    if c <= '\u{7f}' {
        '0' <= c <= '9'
    } else {
        !crate::text::is_white_space(c) && capture_groups(DIGIT@, seq![c]) is Some
    }
}

/// A character that `\w` matches: ASCII letters, digits and `_`, and beyond
/// ASCII what the `regex` crate holds to be a word character.
pub open spec fn is_word_char(c: char) -> bool {
    if c <= '\u{7f}' {
        'a' <= c <= 'z' || 'A' <= c <= 'Z' || '0' <= c <= '9' || c == '_'
    } else {
        capture_groups(WORD@, seq![c]) is Some
    }
}

/// A character that `[\d.]` matches.
pub open spec fn is_score_char(c: char) -> bool {
    is_digit(c) || c == '.'
}

/// What `\d+` matches.
pub open spec fn is_digits(s: Seq<char>) -> bool {
    s.len() > 0 && forall|i: int| 0 <= i < s.len() ==> is_digit(#[trigger] s[i])
}

/// What `\w+` matches.
pub open spec fn is_word(s: Seq<char>) -> bool {
    s.len() > 0 && forall|i: int| 0 <= i < s.len() ==> is_word_char(#[trigger] s[i])
}

/// What `[\d.]+` matches.
pub open spec fn is_score(s: Seq<char>) -> bool {
    s.len() > 0 && forall|i: int| 0 <= i < s.len() ==> is_score_char(#[trigger] s[i])
}

/// What `[─]+` matches.
pub open spec fn is_rule(s: Seq<char>) -> bool {
    s.len() > 0 && forall|i: int| 0 <= i < s.len() ==> #[trigger] s[i] == '─'
}

/// What `\s*` matches.
pub open spec fn is_blank(s: Seq<char>) -> bool {
    forall|i: int| 0 <= i < s.len() ==> crate::text::is_white_space(#[trigger] s[i])
}

/// What `.+` matches.
pub open spec fn is_phrase(s: Seq<char>) -> bool {
    s.len() > 0 && forall|i: int| 0 <= i < s.len() ==> #[trigger] s[i] != '\n'
}

/// `line` announces `count` search results for `query`.
pub open spec fn is_search_header(line: Seq<char>, count: Seq<char>, query: Seq<char>) -> bool {
    &&& is_digits(count)
    &&& is_phrase(query)
    &&& {
        ||| line == "Found "@ + (count + (" results for: \""@ + (query + "\""@)))
        ||| line == "Found "@ + (count + (" result for: \""@ + (query + "\""@)))
    }
}

/// `line` is a rule with a result number and `score` in it: `left` and `right`
/// are its two ends, `number` is the number.
pub open spec fn is_separator_of(
    line: Seq<char>,
    left: Seq<char>,
    number: Seq<char>,
    score: Seq<char>,
    right: Seq<char>,
) -> bool {
    &&& is_rule(left)
    &&& is_digits(number)
    &&& is_score(score)
    &&& is_rule(right)
    &&& line == left + (" Result "@ + (number + (" (score: "@ + (score + (") "@ + right)))))
}

/// `line` is a rule with a result number and `score` in it.
pub open spec fn is_search_separator(line: Seq<char>, score: Seq<char>) -> bool {
    exists|left: Seq<char>, number: Seq<char>, right: Seq<char>|
        is_separator_of(line, left, number, score, right)
}

/// `line` places a result at lines `start` to `end` of the file `path`.
pub open spec fn is_search_file_line(
    line: Seq<char>,
    path: Seq<char>,
    start: Seq<char>,
    end: Seq<char>,
) -> bool {
    &&& is_phrase(path)
    &&& is_digits(start)
    &&& is_digits(end)
    &&& line == "File: "@ + (path + (":"@ + (start + ("-"@ + end))))
}

/// From position `at` on, `line` says that `count` more lines follow.
pub open spec fn says_more_lines(line: Seq<char>, at: int, count: Seq<char>) -> bool {
    &&& is_digits(count)
    &&& 0 <= at <= line.len()
    &&& ("... ("@ + (count + " more lines)"@)).is_prefix_of(line.skip(at))
}

/// The first place where `line` says how many more lines follow says `count`.
pub open spec fn is_search_more_lines(line: Seq<char>, count: Seq<char>) -> bool {
    exists|at: int|
        {
            &&& #[trigger] says_more_lines(line, at, count)
            &&& forall|earlier: int, other: Seq<char>|
                earlier < at ==> !says_more_lines(line, earlier, other)
        }
}

/// `line` names the symbol `name` and its type `kind`.
pub open spec fn is_trace_symbol(line: Seq<char>, name: Seq<char>, kind: Seq<char>) -> bool {
    &&& is_phrase(name)
    &&& is_word(kind)
    &&& line == "Symbol: "@ + (name + (" ("@ + (kind + ")"@)))
}

/// `line` names the file `path` and a line `number` in it.
pub open spec fn is_numbered_file(line: Seq<char>, path: Seq<char>, number: Seq<char>) -> bool {
    &&& is_phrase(path)
    &&& is_digits(number)
    &&& line == "File: "@ + (path + (":"@ + number))
}

/// `line` names the file `path` and the line `number` in it, or names `path`
/// and ends in no line number.
pub open spec fn is_trace_symbol_file(
    line: Seq<char>,
    path: Seq<char>,
    number: Option<Seq<char>>,
) -> bool {
    match number {
        Some(number) => is_numbered_file(line, path, number),
        None => {
            &&& is_phrase(path)
            &&& line == "File: "@ + path
            &&& forall|shorter: Seq<char>, number: Seq<char>|
                !is_numbered_file(line, shorter, number)
        },
    }
}

/// `line` announces `count` callers or callees, whichever `relation` says.
pub open spec fn is_trace_caller_count(
    line: Seq<char>,
    relation: Seq<char>,
    count: Seq<char>,
) -> bool {
    &&& relation == "Callers"@ || relation == "Callees"@
    &&& is_digits(count)
    &&& line == relation + (" ("@ + (count + "):"@))
}

/// `line` places a call at line `number` of `path`, after the blanks `indent`.
pub open spec fn is_call_after(
    line: Seq<char>,
    indent: Seq<char>,
    path: Seq<char>,
    number: Seq<char>,
) -> bool {
    &&& is_blank(indent)
    &&& is_phrase(path)
    &&& is_digits(number)
    &&& line == indent + ("Calls at: "@ + (path + (":"@ + number)))
}

/// `line` places a call at line `number` of the file `path`.
pub open spec fn is_trace_calls_at(line: Seq<char>, path: Seq<char>, number: Seq<char>) -> bool {
    exists|indent: Seq<char>| is_call_after(line, indent, path, number)
}

/// What the capture groups of a match hold.
pub open spec fn group_texts(groups: Seq<Option<String>>) -> Seq<Option<Seq<char>>> {
    Seq::new(
        groups.len(),
        |i: int|
            match groups[i] {
                Some(s) => Some(s@),
                None => None,
            },
    )
}

/// What the match of a line pattern in `text` holds, by what the pattern says:
/// no match exactly where `text` has not the shape, and else its parts.
pub open spec fn fits(
    pattern: Seq<char>,
    text: Seq<char>,
    groups: Option<Seq<Option<Seq<char>>>>,
) -> bool {
    &&& pattern == SEARCH_HEADER@ ==> match groups {
        Some(g) => g.len() == 3 && g[1] is Some && g[2] is Some && is_search_header(
            text,
            g[1]->0,
            g[2]->0,
        ),
        None => forall|count: Seq<char>, query: Seq<char>| !is_search_header(text, count, query),
    }
    &&& pattern == SEARCH_SEPARATOR@ ==> match groups {
        Some(g) => g.len() == 2 && g[1] is Some && is_search_separator(text, g[1]->0),
        None => forall|score: Seq<char>| !is_search_separator(text, score),
    }
    &&& pattern == SEARCH_FILE_LINE@ ==> match groups {
        Some(g) => g.len() == 4 && g[1] is Some && g[2] is Some && g[3] is Some
            && is_search_file_line(text, g[1]->0, g[2]->0, g[3]->0),
        None => forall|path: Seq<char>, start: Seq<char>, end: Seq<char>|
            !is_search_file_line(text, path, start, end),
    }
    &&& pattern == SEARCH_MORE_LINES@ ==> match groups {
        Some(g) => g.len() == 2 && g[1] is Some && is_search_more_lines(text, g[1]->0),
        None => forall|at: int, count: Seq<char>| !says_more_lines(text, at, count),
    }
    &&& pattern == TRACE_SYMBOL@ ==> match groups {
        Some(g) => g.len() == 3 && g[1] is Some && g[2] is Some && is_trace_symbol(
            text,
            g[1]->0,
            g[2]->0,
        ),
        None => forall|name: Seq<char>, kind: Seq<char>| !is_trace_symbol(text, name, kind),
    }
    &&& pattern == TRACE_SYMBOL_FILE@ ==> match groups {
        Some(g) => g.len() == 3 && g[1] is Some && is_trace_symbol_file(text, g[1]->0, g[2]),
        None => forall|path: Seq<char>, number: Option<Seq<char>>|
            !is_trace_symbol_file(text, path, number),
    }
    &&& pattern == TRACE_CALLER_COUNT@ ==> match groups {
        Some(g) => g.len() == 3 && g[1] is Some && g[2] is Some && is_trace_caller_count(
            text,
            g[1]->0,
            g[2]->0,
        ),
        None => forall|relation: Seq<char>, count: Seq<char>|
            !is_trace_caller_count(text, relation, count),
    }
    &&& pattern == TRACE_CALLS_AT@ ==> match groups {
        Some(g) => g.len() == 3 && g[1] is Some && g[2] is Some && is_trace_calls_at(
            text,
            g[1]->0,
            g[2]->0,
        ),
        None => forall|path: Seq<char>, number: Seq<char>|
            !is_trace_calls_at(text, path, number),
    }
}

/// Runs `regex::Regex::captures` of the pattern, compiled by
/// `regex::Regex::new` for this one call, on `text`.
///
/// What it returns depends on the pattern and the text alone. Of the eight
/// line patterns it is moreover stated, by the meaning that the crate gives
/// to their syntax, on which texts they match and what their groups then hold.
/// Which characters beyond ASCII `\d` and `\w` match is left to the crate.
#[verifier::external_body]
pub(crate) fn captures(pattern: &str, text: &str) -> (groups: Option<Vec<Option<String>>>)
    requires
        is_pattern(pattern@),
    ensures
        match groups {
            Some(g) => capture_groups(pattern@, text@) == Some(group_texts(g@)),
            None => capture_groups(pattern@, text@) is None,
        },
        match groups {
            Some(g) => fits(pattern@, text@, Some(group_texts(g@))),
            None => fits(pattern@, text@, None),
        },
{
    let regex = regex::Regex::new(pattern).unwrap();
    regex.captures(text).map(
        |found| found.iter().map(|group| group.map(|m| m.as_str().to_string())).collect(),
    )
}

} // verus!
