//! What the lines of a listing say, read through the patterns.

use crate::pattern::{captures, SEARCH_FILE_LINE, SEARCH_HEADER, SEARCH_MORE_LINES};
use crate::pattern::{SEARCH_SEPARATOR, TRACE_CALLER_COUNT, TRACE_CALLS_AT, TRACE_SYMBOL};
use crate::pattern::TRACE_SYMBOL_FILE;
use vstd::prelude::*;

verus! {

/// The count and the query of the first line of a search listing.
pub open spec fn search_header(line: Seq<char>) -> Option<(Seq<char>, Seq<char>)> {
    if exists|count: Seq<char>, query: Seq<char>|
        crate::pattern::is_search_header(line, count, query) {
        Some(
            choose|count: Seq<char>, query: Seq<char>|
                crate::pattern::is_search_header(line, count, query),
        )
    } else {
        None
    }
}

/// The score in the line that opens a search result.
pub open spec fn search_separator(line: Seq<char>) -> Option<Seq<char>> {
    if exists|score: Seq<char>| crate::pattern::is_search_separator(line, score) {
        Some(choose|score: Seq<char>| crate::pattern::is_search_separator(line, score))
    } else {
        None
    }
}

/// The path, first line and last line of a search result.
pub open spec fn search_file_line(line: Seq<char>) -> Option<(Seq<char>, Seq<char>, Seq<char>)> {
    if exists|path: Seq<char>, start: Seq<char>, end: Seq<char>|
        crate::pattern::is_search_file_line(line, path, start, end) {
        Some(
            choose|path: Seq<char>, start: Seq<char>, end: Seq<char>|
                crate::pattern::is_search_file_line(line, path, start, end),
        )
    } else {
        None
    }
}

/// How many lines of a code body the line says are left out.
pub open spec fn search_more_lines(line: Seq<char>) -> Option<Seq<char>> {
    if exists|count: Seq<char>| crate::pattern::is_search_more_lines(line, count) {
        Some(choose|count: Seq<char>| crate::pattern::is_search_more_lines(line, count))
    } else {
        None
    }
}

/// The name and type of the symbol that a trace is about.
pub open spec fn trace_symbol(line: Seq<char>) -> Option<(Seq<char>, Seq<char>)> {
    if exists|name: Seq<char>, kind: Seq<char>|
        crate::pattern::is_trace_symbol(line, name, kind) {
        Some(
            choose|name: Seq<char>, kind: Seq<char>|
                crate::pattern::is_trace_symbol(line, name, kind),
        )
    } else {
        None
    }
}

/// The path and, if there is one, the line of the symbol's definition.
pub open spec fn trace_symbol_file(line: Seq<char>) -> Option<(Seq<char>, Option<Seq<char>>)> {
    if exists|path: Seq<char>, number: Option<Seq<char>>|
        crate::pattern::is_trace_symbol_file(line, path, number) {
        Some(
            choose|path: Seq<char>, number: Option<Seq<char>>|
                crate::pattern::is_trace_symbol_file(line, path, number),
        )
    } else {
        None
    }
}

/// What a trace lists, `Callers` or `Callees`, and how many.
pub open spec fn trace_caller_count(line: Seq<char>) -> Option<(Seq<char>, Seq<char>)> {
    if exists|relation: Seq<char>, count: Seq<char>|
        crate::pattern::is_trace_caller_count(line, relation, count) {
        Some(
            choose|relation: Seq<char>, count: Seq<char>|
                crate::pattern::is_trace_caller_count(line, relation, count),
        )
    } else {
        None
    }
}

/// The path and line of one call.
pub open spec fn trace_calls_at(line: Seq<char>) -> Option<(Seq<char>, Seq<char>)> {
    if exists|path: Seq<char>, number: Seq<char>|
        crate::pattern::is_trace_calls_at(line, path, number) {
        Some(
            choose|path: Seq<char>, number: Seq<char>|
                crate::pattern::is_trace_calls_at(line, path, number),
        )
    } else {
        None
    }
}

/// What follows a common start is determined.
proof fn lemma_after(start: Seq<char>, a: Seq<char>, b: Seq<char>)
    requires
        start + a == start + b,
    ensures
        a == b,
{
    assert(a =~= (start + a).skip(start.len() as int));
    assert(b =~= (start + b).skip(start.len() as int));
}

/// What precedes a common end is determined.
proof fn lemma_before(a: Seq<char>, b: Seq<char>, end: Seq<char>)
    requires
        a + end == b + end,
    ensures
        a == b,
{
    assert((a + end).len() == (b + end).len());
    assert(a =~= (a + end).take(a.len() as int));
    assert(b =~= (b + end).take(b.len() as int));
}

/// A run of characters of a class that one outside the class ends is
/// determined, and so is what follows it.
proof fn lemma_head(
    class: spec_fn(char) -> bool,
    a: Seq<char>,
    after_a: Seq<char>,
    b: Seq<char>,
    after_b: Seq<char>,
)
    requires
        forall|i: int| 0 <= i < a.len() ==> class(#[trigger] a[i]),
        forall|i: int| 0 <= i < b.len() ==> class(#[trigger] b[i]),
        after_a.len() > 0 && !class(after_a[0]),
        after_b.len() > 0 && !class(after_b[0]),
        a + after_a == b + after_b,
    ensures
        a == b,
        after_a == after_b,
{
    let s = a + after_a;
    assert(s == b + after_b);
    if a.len() < b.len() {
        assert(s[a.len() as int] == after_a[0]);
        assert(s[a.len() as int] == b[a.len() as int]);
    }
    if b.len() < a.len() {
        assert(s[b.len() as int] == after_b[0]);
        assert(s[b.len() as int] == a[b.len() as int]);
    }
    assert(a =~= s.take(a.len() as int));
    assert(b =~= s.take(b.len() as int));
    lemma_after(a, after_a, after_b);
}

/// A run of characters of a class at the end, after a separator that ends in
/// a character outside the class, is determined, and so is what precedes it.
proof fn lemma_tail(
    class: spec_fn(char) -> bool,
    sep: Seq<char>,
    before_a: Seq<char>,
    a: Seq<char>,
    before_b: Seq<char>,
    b: Seq<char>,
)
    requires
        forall|i: int| 0 <= i < a.len() ==> class(#[trigger] a[i]),
        forall|i: int| 0 <= i < b.len() ==> class(#[trigger] b[i]),
        sep.len() > 0 && !class(sep.last()),
        before_a + (sep + a) == before_b + (sep + b),
    ensures
        before_a == before_b,
        a == b,
{
    let s = before_a + (sep + a);
    let end_a = (before_a.len() + sep.len()) as int;
    let end_b = (before_b.len() + sep.len()) as int;
    assert(s == before_b + (sep + b));
    if a.len() < b.len() {
        assert(s[end_a - 1] == sep.last());
        assert(s[end_a - 1] == b[end_a - 1 - end_b]);
    }
    if b.len() < a.len() {
        assert(s[end_b - 1] == sep.last());
        assert(s[end_b - 1] == a[end_b - 1 - end_a]);
    }
    assert(a =~= s.skip(end_a));
    assert(b =~= s.skip(end_b));
    lemma_before(before_a, before_b, sep + a);
}

/// The first line of a search listing can be read in one way.
pub proof fn lemma_search_header(line: Seq<char>, count: Seq<char>, query: Seq<char>)
    requires
        crate::pattern::is_search_header(line, count, query),
    ensures
        search_header(line) == Some((count, query)),
{
    let (c, q) = search_header(line)->0;
    assert(crate::pattern::is_search_header(line, c, q));
    let many = " results for: \""@;
    let one = " result for: \""@;
    reveal_strlit(" results for: \"");
    reveal_strlit(" result for: \"");
    reveal_strlit("\"");
    let quote = "\""@;
    let mid1 = if line == "Found "@ + (count + (many + (query + quote))) {
        many
    } else {
        one
    };
    let mid2 = if line == "Found "@ + (c + (many + (q + quote))) {
        many
    } else {
        one
    };
    let rest1 = mid1 + (query + quote);
    let rest2 = mid2 + (q + quote);
    lemma_after("Found "@, count + rest1, c + rest2);
    let class = |x: char| crate::pattern::is_digit(x);
    assert(rest1[0] == ' ' && rest2[0] == ' ');
    lemma_head(class, count, rest1, c, rest2);
    assert(rest1[7] == mid1[7] && rest2[7] == mid2[7]);
    assert(mid1 == mid2);
    lemma_after(mid1, query + quote, q + quote);
    lemma_before(query, q, quote);
}

/// The line that opens a search result can be read in one way.
pub proof fn lemma_search_separator(line: Seq<char>, score: Seq<char>)
    requires
        crate::pattern::is_search_separator(line, score),
    ensures
        search_separator(line) == Some(score),
{
    let s = search_separator(line)->0;
    assert(crate::pattern::is_search_separator(line, s));
    let (l1, n1, r1) = choose|left: Seq<char>, number: Seq<char>, right: Seq<char>|
        crate::pattern::is_separator_of(line, left, number, score, right);
    let (l2, n2, r2) = choose|left: Seq<char>, number: Seq<char>, right: Seq<char>|
        crate::pattern::is_separator_of(line, left, number, s, right);
    reveal_strlit(" Result ");
    reveal_strlit(" (score: ");
    reveal_strlit(") ");
    let e1 = ") "@ + r1;
    let e2 = ") "@ + r2;
    let d1 = " (score: "@ + (score + e1);
    let d2 = " (score: "@ + (s + e2);
    let c1 = " Result "@ + (n1 + d1);
    let c2 = " Result "@ + (n2 + d2);
    assert(c1[0] == ' ' && c2[0] == ' ');
    lemma_head(|x: char| x == '─', l1, c1, l2, c2);
    lemma_after(" Result "@, n1 + d1, n2 + d2);
    assert(d1[0] == ' ' && d2[0] == ' ');
    lemma_head(|x: char| crate::pattern::is_digit(x), n1, d1, n2, d2);
    lemma_after(" (score: "@, score + e1, s + e2);
    assert(e1[0] == ')' && e2[0] == ')');
    lemma_head(|x: char| crate::pattern::is_score_char(x), score, e1, s, e2);
}

/// The line that places a search result can be read in one way.
pub proof fn lemma_search_file_line(
    line: Seq<char>,
    path: Seq<char>,
    start: Seq<char>,
    end: Seq<char>,
)
    requires
        crate::pattern::is_search_file_line(line, path, start, end),
    ensures
        search_file_line(line) == Some((path, start, end)),
{
    let (p, s, e) = search_file_line(line)->0;
    assert(crate::pattern::is_search_file_line(line, p, s, e));
    reveal_strlit(":");
    reveal_strlit("-");
    let class = |x: char| crate::pattern::is_digit(x);
    let a1 = path + (":"@ + start);
    let a2 = p + (":"@ + s);
    let t1 = path + (":"@ + (start + ("-"@ + end)));
    let t2 = p + (":"@ + (s + ("-"@ + e)));
    lemma_after("File: "@, t1, t2);
    assert(t1 =~= a1 + ("-"@ + end));
    assert(t2 =~= a2 + ("-"@ + e));
    lemma_tail(class, "-"@, a1, end, a2, e);
    lemma_tail(class, ":"@, path, start, p, s);
}

/// A count of lines left out can be read in one way.
pub proof fn lemma_search_more_lines(line: Seq<char>, count: Seq<char>)
    requires
        crate::pattern::is_search_more_lines(line, count),
    ensures
        search_more_lines(line) == Some(count),
{
    let c = search_more_lines(line)->0;
    assert(crate::pattern::is_search_more_lines(line, c));
    let at1 = choose|at: int|
        {
            &&& #[trigger] crate::pattern::says_more_lines(line, at, count)
            &&& forall|earlier: int, other: Seq<char>|
                earlier < at ==> !crate::pattern::says_more_lines(line, earlier, other)
        };
    let at2 = choose|at: int|
        {
            &&& #[trigger] crate::pattern::says_more_lines(line, at, c)
            &&& forall|earlier: int, other: Seq<char>|
                earlier < at ==> !crate::pattern::says_more_lines(line, earlier, other)
        };
    assert(at1 == at2);
    reveal_strlit("... (");
    reveal_strlit(" more lines)");
    let rest = line.skip(at1);
    let full1 = "... ("@ + (count + " more lines)"@);
    let full2 = "... ("@ + (c + " more lines)"@);
    let tail1 = rest.skip(full1.len() as int);
    let tail2 = rest.skip(full2.len() as int);
    let after1 = " more lines)"@ + tail1;
    let after2 = " more lines)"@ + tail2;
    assert(rest =~= full1 + tail1);
    assert(rest =~= full2 + tail2);
    assert(full1 + tail1 =~= "... ("@ + (count + after1));
    assert(full2 + tail2 =~= "... ("@ + (c + after2));
    lemma_after("... ("@, count + after1, c + after2);
    assert(after1[0] == ' ' && after2[0] == ' ');
    lemma_head(|x: char| crate::pattern::is_digit(x), count, after1, c, after2);
}

/// The line that names the symbol can be read in one way.
pub proof fn lemma_trace_symbol(line: Seq<char>, name: Seq<char>, kind: Seq<char>)
    requires
        crate::pattern::is_trace_symbol(line, name, kind),
    ensures
        trace_symbol(line) == Some((name, kind)),
{
    let (n, k) = trace_symbol(line)->0;
    assert(crate::pattern::is_trace_symbol(line, n, k));
    reveal_strlit(" (");
    let t1 = name + (" ("@ + kind);
    let t2 = n + (" ("@ + k);
    lemma_after("Symbol: "@, name + (" ("@ + (kind + ")"@)), n + (" ("@ + (k + ")"@)));
    assert(t1 + ")"@ =~= name + (" ("@ + (kind + ")"@)));
    assert(t2 + ")"@ =~= n + (" ("@ + (k + ")"@)));
    lemma_before(t1, t2, ")"@);
    lemma_tail(|x: char| crate::pattern::is_word_char(x), " ("@, name, kind, n, k);
}

/// The line that places the symbol can be read in one way.
pub proof fn lemma_trace_symbol_file(line: Seq<char>, path: Seq<char>, number: Option<Seq<char>>)
    requires
        crate::pattern::is_trace_symbol_file(line, path, number),
    ensures
        trace_symbol_file(line) == Some((path, number)),
{
    let (p, n) = trace_symbol_file(line)->0;
    assert(crate::pattern::is_trace_symbol_file(line, p, n));
    if number is Some {
        assert(crate::pattern::is_numbered_file(line, path, number->0));
        assert(n is Some);
        reveal_strlit(":");
        lemma_after("File: "@, path + (":"@ + number->0), p + (":"@ + n->0));
        lemma_tail(
            |x: char| crate::pattern::is_digit(x),
            ":"@,
            path,
            number->0,
            p,
            n->0,
        );
    } else {
        if n is Some {
            assert(crate::pattern::is_numbered_file(line, p, n->0));
        }
        lemma_after("File: "@, path, p);
    }
}

/// The line that announces callers or callees can be read in one way.
pub proof fn lemma_trace_caller_count(line: Seq<char>, relation: Seq<char>, count: Seq<char>)
    requires
        crate::pattern::is_trace_caller_count(line, relation, count),
    ensures
        trace_caller_count(line) == Some((relation, count)),
{
    let (r, c) = trace_caller_count(line)->0;
    assert(crate::pattern::is_trace_caller_count(line, r, c));
    reveal_strlit("Callers");
    reveal_strlit("Callees");
    reveal_strlit("):");
    assert(relation.len() == 7 && r.len() == 7);
    assert(relation =~= line.take(7));
    assert(r =~= line.take(7));
    let after1 = " ("@ + (count + "):"@);
    let after2 = " ("@ + (c + "):"@);
    lemma_after(relation, after1, after2);
    lemma_after(" ("@, count + "):"@, c + "):"@);
    lemma_head(|x: char| crate::pattern::is_digit(x), count, "):"@, c, "):"@);
}

/// The line that places a call can be read in one way.
pub proof fn lemma_trace_calls_at(line: Seq<char>, path: Seq<char>, number: Seq<char>)
    requires
        crate::pattern::is_trace_calls_at(line, path, number),
    ensures
        trace_calls_at(line) == Some((path, number)),
{
    let (p, n) = trace_calls_at(line)->0;
    assert(crate::pattern::is_trace_calls_at(line, p, n));
    let i1 = choose|indent: Seq<char>| crate::pattern::is_call_after(line, indent, path, number);
    let i2 = choose|indent: Seq<char>| crate::pattern::is_call_after(line, indent, p, n);
    reveal_strlit("Calls at: ");
    reveal_strlit(":");
    let c1 = "Calls at: "@ + (path + (":"@ + number));
    let c2 = "Calls at: "@ + (p + (":"@ + n));
    assert(c1[0] == 'C' && c2[0] == 'C');
    lemma_head(|x: char| crate::text::is_white_space(x), i1, c1, i2, c2);
    lemma_after("Calls at: "@, path + (":"@ + number), p + (":"@ + n));
    lemma_tail(|x: char| crate::pattern::is_digit(x), ":"@, path, number, p, n);
}

/// The text of capture group `i`.
fn group(groups: &Vec<Option<String>>, i: usize) -> (text: String)
    requires
        i < groups@.len(),
        groups@[i as int] is Some,
    ensures
        text@ == groups@[i as int]->0@,
{
    match &groups[i] {
        Some(text) => text.clone(),
        None => String::new(),
    }
}

/// Reads the count and the query of the first line of a search listing.
pub fn read_search_header(line: &str) -> (found: Option<(String, String)>)
    ensures
        match found {
            Some((count, query)) => search_header(line@) == Some((count@, query@)),
            None => search_header(line@) is None,
        },
{
    match captures(SEARCH_HEADER, line) {
        Some(groups) => {
            proof {
                let g = crate::pattern::group_texts(groups@);
                lemma_search_header(line@, g[1]->0, g[2]->0);
            }
            Some((group(&groups, 1), group(&groups, 2)))
        },
        None => None,
    }
}

/// Reads the score in the line that opens a search result.
pub fn read_search_separator(line: &str) -> (found: Option<String>)
    ensures
        match found {
            Some(score) => search_separator(line@) == Some(score@),
            None => search_separator(line@) is None,
        },
{
    match captures(SEARCH_SEPARATOR, line) {
        Some(groups) => {
            proof {
                let g = crate::pattern::group_texts(groups@);
                lemma_search_separator(line@, g[1]->0);
            }
            Some(group(&groups, 1))
        },
        None => None,
    }
}

/// Reads the path, first line and last line of a search result.
pub fn read_search_file_line(line: &str) -> (found: Option<(String, String, String)>)
    ensures
        match found {
            Some((path, start, end)) => search_file_line(line@) == Some((path@, start@, end@)),
            None => search_file_line(line@) is None,
        },
{
    match captures(SEARCH_FILE_LINE, line) {
        Some(groups) => {
            proof {
                let g = crate::pattern::group_texts(groups@);
                lemma_search_file_line(line@, g[1]->0, g[2]->0, g[3]->0);
            }
            Some((group(&groups, 1), group(&groups, 2), group(&groups, 3)))
        },
        None => None,
    }
}

/// Reads how many lines of a code body the line says are left out.
pub fn read_search_more_lines(line: &str) -> (found: Option<String>)
    ensures
        match found {
            Some(count) => search_more_lines(line@) == Some(count@),
            None => search_more_lines(line@) is None,
        },
{
    match captures(SEARCH_MORE_LINES, line) {
        Some(groups) => {
            proof {
                let g = crate::pattern::group_texts(groups@);
                lemma_search_more_lines(line@, g[1]->0);
            }
            Some(group(&groups, 1))
        },
        None => None,
    }
}

/// Reads the name and type of the symbol that a trace is about.
pub fn read_trace_symbol(line: &str) -> (found: Option<(String, String)>)
    ensures
        match found {
            Some((name, kind)) => trace_symbol(line@) == Some((name@, kind@)),
            None => trace_symbol(line@) is None,
        },
{
    match captures(TRACE_SYMBOL, line) {
        Some(groups) => {
            proof {
                let g = crate::pattern::group_texts(groups@);
                lemma_trace_symbol(line@, g[1]->0, g[2]->0);
            }
            Some((group(&groups, 1), group(&groups, 2)))
        },
        None => None,
    }
}

/// Reads the path and, if there is one, the line of the symbol's definition.
pub fn read_trace_symbol_file(line: &str) -> (found: Option<(String, Option<String>)>)
    ensures
        match found {
            Some((path, Some(number))) => trace_symbol_file(line@) == Some((path@, Some(number@))),
            Some((path, None)) => trace_symbol_file(line@) == Some(
                (path@, None::<Seq<char>>),
            ),
            None => trace_symbol_file(line@) is None,
        },
{
    match captures(TRACE_SYMBOL_FILE, line) {
        Some(groups) => {
            proof {
                let g = crate::pattern::group_texts(groups@);
                lemma_trace_symbol_file(line@, g[1]->0, g[2]);
            }
            let number = match &groups[2] {
                Some(number) => Some(number.clone()),
                None => None,
            };
            Some((group(&groups, 1), number))
        },
        None => None,
    }
}

/// Reads what a trace lists, `Callers` or `Callees`, and how many.
pub fn read_trace_caller_count(line: &str) -> (found: Option<(String, String)>)
    ensures
        match found {
            Some((relation, count)) => trace_caller_count(line@) == Some((relation@, count@)),
            None => trace_caller_count(line@) is None,
        },
{
    match captures(TRACE_CALLER_COUNT, line) {
        Some(groups) => {
            proof {
                let g = crate::pattern::group_texts(groups@);
                lemma_trace_caller_count(line@, g[1]->0, g[2]->0);
            }
            Some((group(&groups, 1), group(&groups, 2)))
        },
        None => None,
    }
}

/// Reads the path and line of one call.
pub fn read_trace_calls_at(line: &str) -> (found: Option<(String, String)>)
    ensures
        match found {
            Some((path, number)) => trace_calls_at(line@) == Some((path@, number@)),
            None => trace_calls_at(line@) is None,
        },
{
    match captures(TRACE_CALLS_AT, line) {
        Some(groups) => {
            proof {
                let g = crate::pattern::group_texts(groups@);
                lemma_trace_calls_at(line@, g[1]->0, g[2]->0);
            }
            Some((group(&groups, 1), group(&groups, 2)))
        },
        None => None,
    }
}

} // verus!
