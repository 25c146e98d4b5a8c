//! Search listings: one row per result.

use crate::grammar::{read_search_file_line, read_search_header};
use crate::grammar::{read_search_more_lines, read_search_separator};
use crate::path::{compact_parent, split_path};
use crate::text::{append_blanks, append_decimal, lines, parse_number, trim, trim_end};
use vstd::prelude::*;

verus! {

/// One result of a search.
pub struct SearchResult {
    pub score: String,
    pub file_path: String,
    pub line_start: String,
    pub line_end: String,
    pub more_lines: Option<u32>,
}

/// What a search result holds.
#[verifier::ext_equal]
pub struct SearchResultView {
    pub score: Seq<char>,
    pub file_path: Seq<char>,
    pub line_start: Seq<char>,
    pub line_end: Seq<char>,
    pub more_lines: Option<u32>,
}

impl View for SearchResult {
    type V = SearchResultView;

    open spec fn view(&self) -> SearchResultView {
        SearchResultView {
            score: self.score@,
            file_path: self.file_path@,
            line_start: self.line_start@,
            line_end: self.line_end@,
            more_lines: self.more_lines,
        }
    }
}

/// What a list of search results holds.
pub open spec fn result_views(results: Seq<SearchResult>) -> Seq<SearchResultView> {
    Seq::new(results.len(), |i: int| results[i]@)
}

/// A result of which only the score is known.
pub open spec fn opened(score: Seq<char>) -> SearchResultView {
    SearchResultView {
        score,
        file_path: Seq::empty(),
        line_start: Seq::empty(),
        line_end: Seq::empty(),
        more_lines: None,
    }
}

/// `result` after a line of its section: the first line that names a file
/// places it, and each mark of lines left out replaces the one before.
pub open spec fn with_line(result: SearchResultView, line: Seq<char>) -> SearchResultView {
    let placed = match crate::grammar::search_file_line(line) {
        Some((path, start, end)) if result.file_path.len() == 0 => SearchResultView {
            file_path: path,
            line_start: start,
            line_end: end,
            ..result
        },
        _ => result,
    };
    match crate::grammar::search_more_lines(line) {
        Some(count) => SearchResultView {
            more_lines: Some(crate::text::count_value(count)),
            ..placed
        },
        None => placed,
    }
}

/// The results that the lines after the header list. A separator opens a
/// result; every other line belongs to the result opened last, and says
/// nothing before the first.
pub open spec fn results_of(lines: Seq<Seq<char>>) -> Seq<SearchResultView>
    decreases lines.len(),
{
    if lines.len() == 0 {
        Seq::empty()
    } else {
        let earlier = results_of(lines.drop_last());
        match crate::grammar::search_separator(lines.last()) {
            Some(score) => earlier.push(opened(score)),
            None => if earlier.len() == 0 {
                earlier
            } else {
                earlier.drop_last().push(with_line(earlier.last(), lines.last()))
            },
        }
    }
}

/// How a row marks the lines left out of a code body.
pub open spec fn more_mark(more_lines: Option<u32>) -> Seq<char> {
    match more_lines {
        Some(n) if n > 0 => " (+"@ + crate::text::decimal(n as nat) + " lines)"@,
        _ => Seq::empty(),
    }
}

/// How a row shows the place of a result: file name, lines, lines left out.
pub open spec fn place(result: SearchResultView) -> Seq<char> {
    crate::path::file_name(result.file_path) + ":"@ + result.line_start + "-"@ + result.line_end
        + more_mark(result.more_lines)
}

/// The width of the widest place.
pub open spec fn place_width(results: Seq<SearchResultView>) -> nat
    decreases results.len(),
{
    if results.len() == 0 {
        0
    } else if place_width(results.drop_last()) < place(results.last()).len() {
        place(results.last()).len()
    } else {
        place_width(results.drop_last())
    }
}

/// How a row shows the directory of a result: behind `width` columns for the
/// place, which takes `used` of them.
pub open spec fn parent_mark(parent: Seq<char>, used: nat, width: nat) -> Seq<char> {
    if parent.len() == 0 {
        Seq::empty()
    } else {
        crate::text::blanks(width - used) + " ("@ + crate::path::compacted(parent) + ")"@
    }
}

/// The row of a result in a report whose places take `width` columns: score,
/// place, directory.
pub open spec fn row(result: SearchResultView, width: nat) -> Seq<char> {
    "  "@ + result.score + "  "@ + place(result) + parent_mark(
        crate::path::parent_dir(result.file_path),
        place(result).len(),
        width,
    )
}

/// The rows of the results, with their directories in one column.
pub open spec fn rows(results: Seq<SearchResultView>) -> Seq<Seq<char>> {
    Seq::new(results.len(), |i: int| row(results[i], place_width(results)))
}

/// The first line of a report: the query and how many results were found.
pub open spec fn title(query: Seq<char>, total: nat) -> Seq<char> {
    "grepai: \""@ + query + "\" — "@ + crate::text::decimal(total) + " results"@
}

/// The report of a search for `query` that found `total` results and listed
/// `results`.
pub open spec fn report(query: Seq<char>, total: nat, results: Seq<SearchResultView>) -> Seq<
    char,
> {
    if results.len() == 0 {
        title(query, 0)
    } else {
        crate::text::page(title(query, total), rows(results))
    }
}

/// What becomes of the output of a search: a report where its first line is
/// the header of a listing, else the output, trimmed.
pub open spec fn filtered(output: Seq<char>) -> Seq<char> {
    let lines = crate::text::lines_of(output);
    if lines.len() == 0 {
        crate::text::trimmed(output)
    } else {
        match crate::grammar::search_header(lines[0]) {
            Some((count, query)) => report(
                query,
                crate::text::count_value(count) as nat,
                results_of(lines.skip(1)),
            ),
            None => crate::text::trimmed(output),
        }
    }
}

/// Takes up a line of the section of a result.
fn take_line(result: &mut SearchResult, line: &str)
    ensures
        final(result)@ == with_line(old(result)@, line@),
{
    if result.file_path.as_str().is_empty() {
        if let Some((path, start, end)) = read_search_file_line(line) {
            result.file_path = path;
            result.line_start = start;
            result.line_end = end;
        }
    }
    if let Some(count) = read_search_more_lines(line) {
        result.more_lines = Some(parse_number(count.as_str(), u32::MAX as usize) as u32);
    }
}

/// Reads the results that the lines from the second on list.
pub fn parse_results(lines: &Vec<String>) -> (results: Vec<SearchResult>)
    requires
        lines@.len() > 0,
    ensures
        result_views(results@) == results_of(crate::text::texts(lines@).skip(1)),
{
    let ghost body = crate::text::texts(lines@).skip(1);
    let mut results: Vec<SearchResult> = Vec::new();
    let mut current: Option<SearchResult> = None;
    let mut i: usize = 1;
    assert(result_views(results@) =~= results_of(body.take(0)));
    while i < lines.len()
        invariant
            1 <= i <= lines@.len(),
            body == crate::text::texts(lines@).skip(1),
            match current {
                Some(result) => results_of(body.take(i - 1)) == result_views(results@).push(
                    result@,
                ),
                None => results@.len() == 0 && results_of(body.take(i - 1)).len() == 0,
            },
        decreases lines@.len() - i,
    {
        let line = lines[i].as_str();
        let ghost before = results_of(body.take(i - 1));
        proof {
            assert(body.take(i as int).drop_last() =~= body.take(i - 1));
            assert(body.take(i as int).last() == line@);
        }
        if let Some(score) = read_search_separator(line) {
            if let Some(result) = current.take() {
                results.push(result);
            }
            assert(result_views(results@) =~= before);
            current = Some(
                SearchResult {
                    score,
                    file_path: String::new(),
                    line_start: String::new(),
                    line_end: String::new(),
                    more_lines: None,
                },
            );
            assert(current->0@ =~= opened(score@));
        } else if let Some(mut result) = current.take() {
            assert(before.drop_last() =~= result_views(results@));
            take_line(&mut result, line);
            current = Some(result);
        }
        i += 1;
    }
    assert(body.take(i - 1) =~= body);
    if let Some(result) = current.take() {
        let ghost before = result_views(results@);
        results.push(result);
        assert(result_views(results@) =~= before.push(result@));
    } else {
        assert(result_views(results@) =~= results_of(body));
    }
    results
}

/// The place of a result as a row shows it.
fn place_text(result: &SearchResult) -> (out: String)
    ensures
        out@ == place(result@),
{
    let (name, _parent) = split_path(result.file_path.as_str());
    let mut out = String::new();
    out.append(name.as_str());
    out.append(":");
    out.append(result.line_start.as_str());
    out.append("-");
    out.append(result.line_end.as_str());
    let ghost before = out@;
    if let Some(n) = result.more_lines {
        if n > 0 {
            out.append(" (+");
            append_decimal(&mut out, n as usize);
            out.append(" lines)");
        }
    }
    assert(out@ =~= before + more_mark(result.more_lines));
    assert(out@ =~= place(result@));
    out
}

/// The width of the widest place.
fn widest_place(results: &Vec<SearchResult>) -> (width: usize)
    ensures
        width == place_width(result_views(results@)),
{
    let ghost all = result_views(results@);
    let mut width: usize = 0;
    let mut i: usize = 0;
    while i < results.len()
        invariant
            i <= results@.len(),
            all == result_views(results@),
            width == place_width(all.take(i as int)),
        decreases results@.len() - i,
    {
        assert(all.take(i + 1).drop_last() =~= all.take(i as int));
        assert(all.take(i + 1).last() == results@[i as int]@);
        let used = place_text(&results[i]).as_str().unicode_len();
        if width < used {
            width = used;
        }
        i += 1;
    }
    assert(all.take(i as int) =~= all);
    width
}

/// No place is wider than the widest.
pub proof fn lemma_place_width(results: Seq<SearchResultView>)
    ensures
        forall|i: int|
            0 <= i < results.len() ==> place(#[trigger] results[i]).len() <= place_width(results),
    decreases results.len(),
{
    if results.len() > 0 {
        lemma_place_width(results.drop_last());
        assert forall|i: int| 0 <= i < results.len() implies place(#[trigger] results[i]).len()
            <= place_width(results) by {
            if i < results.len() - 1 {
                assert(results[i] == results.drop_last()[i]);
            }
        }
    }
}

/// Appends the row of a result and a line ending.
fn append_row(out: &mut String, result: &SearchResult, width: usize)
    requires
        place(result@).len() <= width,
    ensures
        final(out)@ == old(out)@ + row(result@, width as nat) + "\n"@,
{
    let (_name, parent) = split_path(result.file_path.as_str());
    let shown = place_text(result);
    out.append("  ");
    out.append(result.score.as_str());
    out.append("  ");
    out.append(shown.as_str());
    let ghost before = out@;
    if !parent.as_str().is_empty() {
        append_blanks(out, width - shown.as_str().unicode_len());
        out.append(" (");
        out.append(compact_parent(parent.as_str()).as_str());
        out.append(")");
    }
    assert(out@ =~= before + parent_mark(parent@, shown@.len(), width as nat));
    out.append("\n");
    assert(out@ =~= old(out)@ + row(result@, width as nat) + "\n"@);
}

/// Writes the report of a search for `query` that found `total` results and
/// listed `results`.
pub fn write_report(query: &str, total: u32, results: &Vec<SearchResult>) -> (out: String)
    ensures
        out@ == report(query@, total as nat, result_views(results@)),
{
    let shown: usize = if results.len() == 0 {
        0
    } else {
        total as usize
    };
    let mut out = String::new();
    out.append("grepai: \"");
    out.append(query);
    out.append("\" — ");
    append_decimal(&mut out, shown);
    out.append(" results");
    assert(out@ =~= title(query@, shown as nat));
    if results.len() == 0 {
        return out;
    }
    out.append("\n\n");
    let width = widest_place(results);
    proof {
        lemma_place_width(result_views(results@));
    }
    let ghost head = out@;
    let ghost all = rows(result_views(results@));
    let mut i: usize = 0;
    assert(out@ =~= head + crate::text::stacked(all.take(0)));
    while i < results.len()
        invariant
            i <= results@.len(),
            all == rows(result_views(results@)),
            width == place_width(result_views(results@)),
            forall|k: int|
                0 <= k < results@.len() ==> place(#[trigger] result_views(results@)[k]).len()
                    <= width,
            out@ == head + crate::text::stacked(all.take(i as int)),
        decreases results@.len() - i,
    {
        assert(result_views(results@)[i as int] == results@[i as int]@);
        append_row(&mut out, &results[i], width);
        i += 1;
        assert(all.take(i as int).drop_last() =~= all.take(i - 1));
        assert(all.take(i as int).last() == row(results@[i - 1]@, width as nat));
        assert(out@ =~= head + crate::text::stacked(all.take(i as int)));
    }
    assert(all.take(i as int) =~= all);
    trim_end(out.as_str())
}

/// Filter grepai search output: strip code bodies, keep one line per result.
///
/// Input format (default grepai search output):
/// ```text
/// Found 10 results for: "authentication logic"
/// ────────────────────── Result 1 (score: 0.68) ──────────────────────
/// File: backend/src/some/path/api/auth.py:223-228
///
///     def authenticate_user(credentials):
///         """Authenticate user with the given credentials."""
///         ...
///
/// ────────────────────── Result 2 (score: 0.38) ──────────────────────
/// File: .agents/skills/auth-flow/SKILL.md:330-394
///
///     ... (51 more lines)
/// ```
///
/// Output format:
/// ```text
/// grepai: "authentication logic" — 10 results
///
///   0.68  auth.py:223-228              (backend/src/.../api/)
///   0.38  SKILL.md:330-394 (+51 lines) (.agents/skills/auth-flow/)
/// ```
///
/// The directories stand in one column, behind the widest place.
///
/// Output that does not start with the header of a listing is returned as it
/// is, but for the white space at its ends.
pub fn filter_search(output: &str) -> (out: String)
    ensures
        out@ == filtered(output@),
{
    let lines = lines(output);
    if lines.len() == 0 {
        return trim(output);
    }
    match read_search_header(lines[0].as_str()) {
        Some((count, query)) => {
            let total = parse_number(count.as_str(), u32::MAX as usize) as u32;
            let results = parse_results(&lines);
            write_report(query.as_str(), total, &results)
        },
        None => trim(output),
    }
}

} // verus!
