//! What each line of a listing says, in the characters of the line.

use vstd::prelude::*;

verus! {

/// Digits: `0` to `9`, and beyond ASCII what the `regex` crate takes for one.
pub open spec fn digits(s: Seq<char>) -> bool {
    &&& s.len() > 0
    &&& forall|i: int|
        0 <= i < s.len() ==> '0' <= #[trigger] s[i] <= '9' || (s[i] > '\u{7f}'
            && !crate::text::is_white_space(s[i]) && crate::pattern::capture_groups(
            r"\d"@,
            seq![s[i]],
        ) is Some)
}

/// Digits and points.
pub open spec fn points_and_digits(s: Seq<char>) -> bool {
    &&& s.len() > 0
    &&& forall|i: int| 0 <= i < s.len() ==> #[trigger] s[i] == '.' || digits(seq![s[i]])
}

/// Letters, digits and underscores, and beyond ASCII what the `regex` crate
/// takes for a word character.
pub open spec fn word(s: Seq<char>) -> bool {
    &&& s.len() > 0
    &&& forall|i: int|
        0 <= i < s.len() ==> '0' <= #[trigger] s[i] <= '9' || 'A' <= s[i] <= 'Z' || 'a' <= s[i]
            <= 'z' || s[i] == '_' || (s[i] > '\u{7f}' && crate::pattern::capture_groups(
            r"\w"@,
            seq![s[i]],
        ) is Some)
}

/// Anything on one line, but something.
pub open spec fn phrase(s: Seq<char>) -> bool {
    s.len() > 0 && !s.contains('\n')
}

/// A horizontal rule.
pub open spec fn rule(s: Seq<char>) -> bool {
    s.len() > 0 && forall|i: int| 0 <= i < s.len() ==> #[trigger] s[i] == '─'
}

/// White space or nothing.
pub open spec fn blank(s: Seq<char>) -> bool {
    forall|i: int| 0 <= i < s.len() ==> crate::text::is_white_space(#[trigger] s[i])
}

/// The two ways to say what digits are.
proof fn lemma_digits(s: Seq<char>)
    ensures
        digits(s) <==> crate::pattern::is_digits(s),
        points_and_digits(s) <==> crate::pattern::is_score(s),
        word(s) <==> crate::pattern::is_word(s),
        phrase(s) <==> crate::pattern::is_phrase(s),
{
    assert(crate::pattern::DIGIT@ == r"\d"@);
    assert(crate::pattern::WORD@ == r"\w"@);
    assert forall|c: char| #[trigger] crate::pattern::is_digit(c) <==> digits(seq![c]) by {
        assert(seq![c][0] == c);
    }
    if digits(s) {
        assert forall|i: int| 0 <= i < s.len() implies crate::pattern::is_digit(
            #[trigger] s[i],
        ) by {
        }
    }
    if crate::pattern::is_digits(s) {
        assert forall|i: int| 0 <= i < s.len() implies '0' <= #[trigger] s[i] <= '9' || (s[i]
            > '\u{7f}' && !crate::text::is_white_space(s[i]) && crate::pattern::capture_groups(
            r"\d"@,
            seq![s[i]],
        ) is Some) by {
            assert(crate::pattern::is_digit(s[i]));
        }
    }
    if points_and_digits(s) {
        assert forall|i: int| 0 <= i < s.len() implies crate::pattern::is_score_char(
            #[trigger] s[i],
        ) by {
            assert(s[i] == '.' || digits(seq![s[i]]));
        }
    }
    if crate::pattern::is_score(s) {
        assert forall|i: int| 0 <= i < s.len() implies #[trigger] s[i] == '.' || digits(
            seq![s[i]],
        ) by {
            assert(crate::pattern::is_score_char(s[i]));
        }
    }
    if word(s) {
        assert forall|i: int| 0 <= i < s.len() implies crate::pattern::is_word_char(
            #[trigger] s[i],
        ) by {
        }
    }
    if crate::pattern::is_word(s) {
        assert forall|i: int| 0 <= i < s.len() implies '0' <= #[trigger] s[i] <= '9' || 'A'
            <= s[i] <= 'Z' || 'a' <= s[i] <= 'z' || s[i] == '_' || (s[i] > '\u{7f}'
            && crate::pattern::capture_groups(r"\w"@, seq![s[i]]) is Some) by {
            assert(crate::pattern::is_word_char(s[i]));
        }
    }
    if phrase(s) {
        assert forall|i: int| 0 <= i < s.len() implies #[trigger] s[i] != '\n' by {
            assert(s.contains(s[i]));
        }
    }
}

/// The first line of a search listing reads `Found 3 results for: "query"`, or
/// `result` for one.
pub proof fn law_search_header(line: Seq<char>, count: Seq<char>, query: Seq<char>)
    ensures
        crate::grammar::search_header(line) == Some((count, query)) <==> {
            &&& digits(count)
            &&& phrase(query)
            &&& {
                ||| line == "Found "@ + count + " results for: \""@ + query + "\""@
                ||| line == "Found "@ + count + " result for: \""@ + query + "\""@
            }
        },
{
    lemma_digits(count);
    lemma_digits(query);
    assert("Found "@ + count + " results for: \""@ + query + "\""@ =~= "Found "@ + (count + (
    " results for: \""@ + (query + "\""@))));
    assert("Found "@ + count + " result for: \""@ + query + "\""@ =~= "Found "@ + (count + (
    " result for: \""@ + (query + "\""@))));
    if crate::pattern::is_search_header(line, count, query) {
        crate::grammar::lemma_search_header(line, count, query);
    }
    if crate::grammar::search_header(line) == Some((count, query)) {
        assert(crate::pattern::is_search_header(line, count, query));
    }
}

/// The line that opens a search result reads `── Result 1 (score: 0.68) ──`,
/// with rules of any length.
pub proof fn law_search_separator(line: Seq<char>, score: Seq<char>)
    ensures
        crate::grammar::search_separator(line) == Some(score) <==> exists|
            left: Seq<char>,
            number: Seq<char>,
            right: Seq<char>,
        |
            {
                &&& #[trigger] rule(left)
                &&& #[trigger] digits(number)
                &&& points_and_digits(score)
                &&& #[trigger] rule(right)
                &&& line == left + " Result "@ + number + " (score: "@ + score + ") "@ + right
            },
{
    lemma_digits(score);
    if crate::grammar::search_separator(line) == Some(score) {
        assert(crate::pattern::is_search_separator(line, score));
        let (left, number, right) = choose|left: Seq<char>, number: Seq<char>, right: Seq<char>|
            crate::pattern::is_separator_of(line, left, number, score, right);
        assert(crate::pattern::is_separator_of(line, left, number, score, right));
        lemma_digits(number);
        assert(left + " Result "@ + number + " (score: "@ + score + ") "@ + right =~= left + (
        " Result "@ + (number + (" (score: "@ + (score + (") "@ + right))))));
        assert(rule(left) && digits(number) && rule(right));
    }
    assert forall|left: Seq<char>, number: Seq<char>, right: Seq<char>|
        {
            &&& #[trigger] rule(left)
            &&& #[trigger] digits(number)
            &&& points_and_digits(score)
            &&& #[trigger] rule(right)
            &&& line == left + " Result "@ + number + " (score: "@ + score + ") "@ + right
        } implies crate::grammar::search_separator(line) == Some(score) by {
        lemma_digits(number);
        assert(left + " Result "@ + number + " (score: "@ + score + ") "@ + right =~= left + (
        " Result "@ + (number + (" (score: "@ + (score + (") "@ + right))))));
        assert(crate::pattern::is_separator_of(line, left, number, score, right));
        crate::grammar::lemma_search_separator(line, score);
    }
}

/// The place of a search result reads `File: path:223-228`.
pub proof fn law_search_file_line(
    line: Seq<char>,
    path: Seq<char>,
    start: Seq<char>,
    end: Seq<char>,
)
    ensures
        crate::grammar::search_file_line(line) == Some((path, start, end)) <==> {
            &&& phrase(path)
            &&& digits(start)
            &&& digits(end)
            &&& line == "File: "@ + path + ":"@ + start + "-"@ + end
        },
{
    lemma_digits(path);
    lemma_digits(start);
    lemma_digits(end);
    assert("File: "@ + path + ":"@ + start + "-"@ + end =~= "File: "@ + (path + (":"@ + (start + (
    "-"@ + end)))));
    if crate::pattern::is_search_file_line(line, path, start, end) {
        crate::grammar::lemma_search_file_line(line, path, start, end);
    }
    if crate::grammar::search_file_line(line) == Some((path, start, end)) {
        assert(crate::pattern::is_search_file_line(line, path, start, end));
    }
}

/// A mark of lines left out reads `... (51 more lines)`, anywhere in the line;
/// of several in one line the first counts.
pub proof fn law_search_more_lines(
    line: Seq<char>,
    before: Seq<char>,
    count: Seq<char>,
    after: Seq<char>,
)
    requires
        digits(count),
        line == before + "... ("@ + count + " more lines)"@ + after,
        forall|b: Seq<char>, c: Seq<char>, a: Seq<char>|
            digits(c) && line == #[trigger] (b + "... ("@ + c + " more lines)"@ + a) ==> b.len()
                >= before.len(),
    ensures
        crate::grammar::search_more_lines(line) == Some(count),
{
    lemma_digits(count);
    let mark = "... ("@ + (count + " more lines)"@);
    let at = before.len() as int;
    assert(line.skip(at) =~= mark + after);
    assert(mark.is_prefix_of(line.skip(at))) by {
        assert((mark + after).take(mark.len() as int) =~= mark);
    }
    assert(crate::pattern::says_more_lines(line, at, count));
    assert forall|earlier: int, other: Seq<char>| earlier < at implies
        !crate::pattern::says_more_lines(line, earlier, other) by {
        if crate::pattern::says_more_lines(line, earlier, other) {
            lemma_mark_at(line, earlier, other);
        }
    }
    crate::grammar::lemma_search_more_lines(line, count);
}

/// Where a mark of lines left out stands.
proof fn lemma_mark_at(line: Seq<char>, at: int, count: Seq<char>)
    requires
        crate::pattern::says_more_lines(line, at, count),
    ensures
        digits(count),
        exists|a: Seq<char>|
            line == #[trigger] (line.take(at) + "... ("@ + count + " more lines)"@ + a),
{
    lemma_digits(count);
    let mark = "... ("@ + (count + " more lines)"@);
    let rest = line.skip(at);
    let after = rest.skip(mark.len() as int);
    assert(rest =~= mark + after);
    assert(line =~= line.take(at) + rest);
    assert(line.take(at) + "... ("@ + count + " more lines)"@ + after =~= line.take(at) + (mark
        + after));
}

/// A line without such a mark gives no count of lines left out, and a count
/// that is given stands in such a mark.
pub proof fn law_no_mark_no_count(line: Seq<char>)
    ensures
        match crate::grammar::search_more_lines(line) {
            Some(count) => digits(count) && exists|before: Seq<char>, after: Seq<char>|
                line == #[trigger] (before + "... ("@ + count + " more lines)"@ + after),
            None => forall|before: Seq<char>, count: Seq<char>, after: Seq<char>|
                digits(count) ==> line != #[trigger] (before + "... ("@ + count
                    + " more lines)"@ + after),
        },
{
    if crate::grammar::search_more_lines(line) is Some {
        let count = crate::grammar::search_more_lines(line)->0;
        assert(crate::pattern::is_search_more_lines(line, count));
        let at = choose|at: int|
            {
                &&& #[trigger] crate::pattern::says_more_lines(line, at, count)
                &&& forall|earlier: int, other: Seq<char>|
                    earlier < at ==> !crate::pattern::says_more_lines(line, earlier, other)
            };
        lemma_mark_at(line, at, count);
    } else {
        assert forall|before: Seq<char>, count: Seq<char>, after: Seq<char>|
            digits(count) implies line != #[trigger] (before + "... ("@ + count
            + " more lines)"@ + after) by {
            if line == before + "... ("@ + count + " more lines)"@ + after {
                lemma_digits(count);
                let mark = "... ("@ + (count + " more lines)"@);
                let at = before.len() as int;
                assert(line.skip(at) =~= mark + after);
                assert((mark + after).take(mark.len() as int) =~= mark);
                assert(crate::pattern::says_more_lines(line, at, count));
                lemma_first_mark(line, at, count);
            }
        }
    }
}

/// A line with a mark of lines left out has a first one.
proof fn lemma_first_mark(line: Seq<char>, at: int, count: Seq<char>)
    requires
        crate::pattern::says_more_lines(line, at, count),
    ensures
        crate::grammar::search_more_lines(line) is Some,
    decreases at,
{
    if exists|earlier: int, other: Seq<char>|
        earlier < at && #[trigger] crate::pattern::says_more_lines(line, earlier, other) {
        let (earlier, other) = choose|earlier: int, other: Seq<char>|
            earlier < at && #[trigger] crate::pattern::says_more_lines(line, earlier, other);
        lemma_first_mark(line, earlier, other);
    } else {
        assert(crate::pattern::is_search_more_lines(line, count));
    }
}

/// The line that names the symbol of a trace reads `Symbol: login (function)`.
pub proof fn law_trace_symbol(line: Seq<char>, name: Seq<char>, kind: Seq<char>)
    ensures
        crate::grammar::trace_symbol(line) == Some((name, kind)) <==> {
            &&& phrase(name)
            &&& word(kind)
            &&& line == "Symbol: "@ + name + " ("@ + kind + ")"@
        },
{
    lemma_digits(name);
    lemma_digits(kind);
    assert("Symbol: "@ + name + " ("@ + kind + ")"@ =~= "Symbol: "@ + (name + (" ("@ + (kind
        + ")"@))));
    if crate::pattern::is_trace_symbol(line, name, kind) {
        crate::grammar::lemma_trace_symbol(line, name, kind);
    }
    if crate::grammar::trace_symbol(line) == Some((name, kind)) {
        assert(crate::pattern::is_trace_symbol(line, name, kind));
    }
}

/// The line that places the symbol reads `File: path:117`, or `File: path`
/// where no number stands behind a colon at its end.
pub proof fn law_trace_symbol_file(line: Seq<char>, path: Seq<char>, number: Seq<char>)
    ensures
        crate::grammar::trace_symbol_file(line) == Some((path, Some(number))) <==> {
            &&& phrase(path)
            &&& digits(number)
            &&& line == "File: "@ + path + ":"@ + number
        },
        crate::grammar::trace_symbol_file(line) == Some((path, None::<Seq<char>>)) <==> {
            &&& phrase(path)
            &&& line == "File: "@ + path
            &&& forall|p: Seq<char>, n: Seq<char>|
                phrase(p) && digits(n) ==> line != #[trigger] ("File: "@ + p + ":"@ + n)
        },
{
    lemma_digits(path);
    lemma_digits(number);
    assert("File: "@ + path + ":"@ + number =~= "File: "@ + (path + (":"@ + number)));
    let read = crate::grammar::trace_symbol_file(line);
    if crate::pattern::is_numbered_file(line, path, number) {
        assert(crate::pattern::is_trace_symbol_file(line, path, Some(number)));
        crate::grammar::lemma_trace_symbol_file(line, path, Some(number));
    }
    if read == Some((path, Some(number))) {
        assert(crate::pattern::is_trace_symbol_file(line, path, Some(number)));
    }
    if read == Some((path, None::<Seq<char>>)) {
        assert(crate::pattern::is_trace_symbol_file(line, path, None));
        assert forall|p: Seq<char>, n: Seq<char>| phrase(p) && digits(n) implies line
            != #[trigger] ("File: "@ + p + ":"@ + n) by {
            lemma_digits(p);
            lemma_digits(n);
            assert("File: "@ + p + ":"@ + n =~= "File: "@ + (p + (":"@ + n)));
            assert(!crate::pattern::is_numbered_file(line, p, n));
        }
    }
    if phrase(path) && line == "File: "@ + path && forall|p: Seq<char>, n: Seq<char>|
        phrase(p) && digits(n) ==> line != #[trigger] ("File: "@ + p + ":"@ + n) {
        assert forall|p: Seq<char>, n: Seq<char>| !crate::pattern::is_numbered_file(line, p, n) by {
            lemma_digits(p);
            lemma_digits(n);
            assert("File: "@ + p + ":"@ + n =~= "File: "@ + (p + (":"@ + n)));
        }
        assert(crate::pattern::is_trace_symbol_file(line, path, None));
        crate::grammar::lemma_trace_symbol_file(line, path, None);
    }
}

/// The line that announces callers or callees reads `Callers (27):` or
/// `Callees (27):`.
pub proof fn law_trace_caller_count(line: Seq<char>, relation: Seq<char>, count: Seq<char>)
    ensures
        crate::grammar::trace_caller_count(line) == Some((relation, count)) <==> {
            &&& relation == "Callers"@ || relation == "Callees"@
            &&& digits(count)
            &&& line == relation + " ("@ + count + "):"@
        },
{
    lemma_digits(count);
    assert(relation + " ("@ + count + "):"@ =~= relation + (" ("@ + (count + "):"@)));
    if crate::pattern::is_trace_caller_count(line, relation, count) {
        crate::grammar::lemma_trace_caller_count(line, relation, count);
    }
    if crate::grammar::trace_caller_count(line) == Some((relation, count)) {
        assert(crate::pattern::is_trace_caller_count(line, relation, count));
    }
}

/// The line that places a call reads `Calls at: path:61`, behind any white
/// space.
pub proof fn law_trace_calls_at(line: Seq<char>, path: Seq<char>, number: Seq<char>)
    ensures
        crate::grammar::trace_calls_at(line) == Some((path, number)) <==> {
            &&& phrase(path)
            &&& digits(number)
            &&& exists|indent: Seq<char>| #[trigger]
                blank(indent) && line == indent + "Calls at: "@ + path + ":"@ + number
        },
{
    lemma_digits(path);
    lemma_digits(number);
    if crate::grammar::trace_calls_at(line) == Some((path, number)) {
        assert(crate::pattern::is_trace_calls_at(line, path, number));
        let indent = choose|indent: Seq<char>|
            crate::pattern::is_call_after(line, indent, path, number);
        assert(indent + "Calls at: "@ + path + ":"@ + number =~= indent + ("Calls at: "@ + (path + (
        ":"@ + number))));
        assert(blank(indent));
    }
    assert forall|indent: Seq<char>| #[trigger]
        blank(indent) && line == indent + "Calls at: "@ + path + ":"@ + number && phrase(path)
            && digits(number) implies crate::grammar::trace_calls_at(line) == Some(
        (path, number),
    ) by {
        assert(indent + "Calls at: "@ + path + ":"@ + number =~= indent + ("Calls at: "@ + (path + (
        ":"@ + number))));
        assert(crate::pattern::is_call_after(line, indent, path, number));
        crate::grammar::lemma_trace_calls_at(line, path, number);
    }
}

} // verus!
