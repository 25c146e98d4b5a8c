//! What holds of every search listing and its report.

use vstd::prelude::*;

verus! {

/// Whether the first line of `output` is the header of a search listing.
pub open spec fn is_listing(output: Seq<char>) -> bool {
    let lines = crate::text::lines_of(output);
    lines.len() > 0 && crate::grammar::search_header(lines[0]) is Some
}

/// Whether a line says nothing about the results of a search.
pub open spec fn is_code(line: Seq<char>) -> bool {
    &&& crate::grammar::search_separator(line) is None
    &&& crate::grammar::search_file_line(line) is None
    &&& crate::grammar::search_more_lines(line) is None
}

/// How many of the lines open a result.
pub open spec fn separators(lines: Seq<Seq<char>>) -> nat
    decreases lines.len(),
{
    if lines.len() == 0 {
        0
    } else if crate::grammar::search_separator(lines.last()) is Some {
        separators(lines.drop_last()) + 1
    } else {
        separators(lines.drop_last())
    }
}

/// The first place that the lines name.
pub open spec fn first_place(lines: Seq<Seq<char>>) -> Option<(Seq<char>, Seq<char>, Seq<char>)>
    decreases lines.len(),
{
    if lines.len() == 0 {
        None
    } else {
        match first_place(lines.drop_last()) {
            Some(place) => Some(place),
            None => crate::grammar::search_file_line(lines.last()),
        }
    }
}

/// The last count of lines left out that the lines give.
pub open spec fn last_more(lines: Seq<Seq<char>>) -> Option<u32>
    decreases lines.len(),
{
    if lines.len() == 0 {
        None
    } else {
        match crate::grammar::search_more_lines(lines.last()) {
            Some(count) => Some(crate::text::count_value(count)),
            None => last_more(lines.drop_last()),
        }
    }
}

/// The result that a separator with `score` opens and the lines up to the next
/// separator describe.
pub open spec fn section(
    score: Seq<char>,
    lines: Seq<Seq<char>>,
) -> crate::search::SearchResultView {
    let place = first_place(lines);
    crate::search::SearchResultView {
        score,
        file_path: match place {
            Some((path, start, end)) => path,
            None => Seq::empty(),
        },
        line_start: match place {
            Some((path, start, end)) => start,
            None => Seq::empty(),
        },
        line_end: match place {
            Some((path, start, end)) => end,
            None => Seq::empty(),
        },
        more_lines: last_more(lines),
    }
}

/// Output that is no search listing passes through, trimmed.
pub proof fn law_other_output_passes_through(output: Seq<char>)
    requires
        !is_listing(output),
    ensures
        crate::search::filtered(output) == crate::text::trimmed(output),
{
}

/// Code bodies are stripped: a line behind the header that neither opens a
/// result nor names a place nor marks lines left out makes no difference to the
/// report.
pub proof fn law_code_is_stripped(
    output: Seq<char>,
    shorter: Seq<char>,
    before: Seq<Seq<char>>,
    code: Seq<char>,
    after: Seq<Seq<char>>,
)
    requires
        is_listing(output),
        before.len() > 0,
        is_code(code),
        crate::text::lines_of(output) == before.push(code) + after,
        crate::text::lines_of(shorter) == before + after,
    ensures
        crate::search::filtered(output) == crate::search::filtered(shorter),
{
    let body = before.skip(1);
    assert((before.push(code) + after).skip(1) =~= body.push(code) + after);
    assert((before + after).skip(1) =~= body + after);
    assert((before.push(code) + after)[0] == before[0]);
    assert((before + after)[0] == before[0]);
    lemma_code_adds_nothing(body, code, after);
}

/// A line of code changes no result.
proof fn lemma_code_adds_nothing(before: Seq<Seq<char>>, code: Seq<char>, after: Seq<Seq<char>>)
    requires
        is_code(code),
    ensures
        crate::search::results_of(before.push(code) + after) == crate::search::results_of(
            before + after,
        ),
    decreases after.len(),
{
    if after.len() == 0 {
        assert(before.push(code) + after =~= before.push(code));
        assert(before + after =~= before);
        assert(before.push(code).drop_last() =~= before);
        let results = crate::search::results_of(before);
        if results.len() > 0 {
            assert(results.drop_last().push(results.last()) =~= results);
        }
    } else {
        let long = before.push(code) + after;
        let short = before + after;
        assert(long.drop_last() =~= before.push(code) + after.drop_last());
        assert(short.drop_last() =~= before + after.drop_last());
        lemma_code_adds_nothing(before, code, after.drop_last());
    }
}

/// A listing has as many results as lines that open one.
pub proof fn law_one_result_per_separator(lines: Seq<Seq<char>>)
    ensures
        crate::search::results_of(lines).len() == separators(lines),
    decreases lines.len(),
{
    if lines.len() > 0 {
        law_one_result_per_separator(lines.drop_last());
    }
}

/// A result is made of its own section of the listing: its score stands in the
/// separator, its place is the first that the section names, and its mark of
/// lines left out is the last in the section.
pub proof fn law_result_is_its_section(
    before: Seq<Seq<char>>,
    separator: Seq<char>,
    body: Seq<Seq<char>>,
)
    requires
        crate::grammar::search_separator(separator) is Some,
        separators(body) == 0,
    ensures
        crate::search::results_of(before.push(separator) + body) == crate::search::results_of(
            before,
        ).push(section(crate::grammar::search_separator(separator)->0, body)),
    decreases body.len(),
{
    let lines = before.push(separator) + body;
    let score = crate::grammar::search_separator(separator)->0;
    let earlier = crate::search::results_of(before);
    if body.len() == 0 {
        assert(lines =~= before.push(separator));
        assert(lines.drop_last() =~= before);
        assert(section(score, body) =~= crate::search::opened(score));
    } else {
        assert(lines.drop_last() =~= before.push(separator) + body.drop_last());
        law_result_is_its_section(before, separator, body.drop_last());
        let old_section = section(score, body.drop_last());
        assert(earlier.push(old_section).drop_last() =~= earlier);
        if first_place(body.drop_last()) is Some {
            lemma_first_place(body.drop_last());
        }
        assert(crate::search::with_line(old_section, body.last()) =~= section(score, body));
    }
}

/// The place that lines name has a path.
proof fn lemma_first_place(lines: Seq<Seq<char>>)
    requires
        first_place(lines) is Some,
    ensures
        (first_place(lines) matches Some((path, start, end)) && path.len() > 0),
    decreases lines.len(),
{
    if first_place(lines.drop_last()) is Some {
        lemma_first_place(lines.drop_last());
    } else {
        let (path, start, end) = crate::grammar::search_file_line(lines.last())->0;
        assert(crate::pattern::is_search_file_line(lines.last(), path, start, end));
    }
}

/// What is read of a result holds no line ending, and its last line number, if
/// there is one, ends in a digit.
pub open spec fn well_read(result: crate::search::SearchResultView) -> bool {
    &&& crate::layout::one_line(result.score)
    &&& crate::layout::one_line(result.file_path)
    &&& crate::layout::one_line(result.line_start)
    &&& crate::layout::one_line(result.line_end)
    &&& result.line_end.len() > 0 ==> !crate::text::is_white_space(result.line_end.last())
}

/// Every result of a listing is well read.
proof fn lemma_well_read(lines: Seq<Seq<char>>)
    ensures
        forall|k: int|
            0 <= k < crate::search::results_of(lines).len() ==> well_read(
                #[trigger] crate::search::results_of(lines)[k],
            ),
    decreases lines.len(),
{
    if lines.len() > 0 {
        lemma_well_read(lines.drop_last());
        let line = lines.last();
        let earlier = crate::search::results_of(lines.drop_last());
        let results = crate::search::results_of(lines);
        if crate::grammar::search_separator(line) is Some {
            let score = crate::grammar::search_separator(line)->0;
            assert(crate::pattern::is_search_separator(line, score));
            let (left, number, right) = choose|
                left: Seq<char>,
                number: Seq<char>,
                right: Seq<char>,
            | crate::pattern::is_separator_of(line, left, number, score, right);
            assert(crate::pattern::is_score(score));
            assert(well_read(crate::search::opened(score)));
        } else if earlier.len() > 0 {
            assert(well_read(earlier[earlier.len() - 1]));
            if crate::grammar::search_file_line(line) is Some {
                let (path, start, end) = crate::grammar::search_file_line(line)->0;
                assert(crate::pattern::is_search_file_line(line, path, start, end));
                assert(crate::pattern::is_digit(end[end.len() - 1]));
            }
            assert(well_read(crate::search::with_line(earlier.last(), line)));
        }
        assert forall|k: int| 0 <= k < results.len() implies well_read(
            #[trigger] results[k],
        ) by {
            if k < results.len() - 1 {
                assert(results[k] == earlier[k]);
            } else if results.len() == earlier.len() && crate::grammar::search_separator(line)
                is None {
                assert(results[k] == crate::search::with_line(earlier.last(), line));
            }
        }
    }
}

/// The row of a well read result is one line and ends in something visible.
proof fn lemma_row_visible(result: crate::search::SearchResultView, width: nat)
    requires
        well_read(result),
    ensures
        crate::layout::visible(crate::search::row(result, width)),
{
    broadcast use crate::layout::lemma_one_line_concat;

    reveal_strlit("  ");
    reveal_strlit(":");
    reveal_strlit("-");
    reveal_strlit(" (+");
    reveal_strlit(" lines)");
    reveal_strlit(" (");
    reveal_strlit(")");
    crate::layout::lemma_path_parts(result.file_path);
    if result.more_lines is Some {
        crate::layout::lemma_decimal(result.more_lines->0 as nat);
    }
    let parent = crate::path::parent_dir(result.file_path);
    let more = crate::search::more_mark(result.more_lines);
    let place = crate::search::place(result);
    let mark = crate::search::parent_mark(parent, place.len(), width);
    let start = "  "@ + result.score + "  "@ + (crate::path::file_name(result.file_path) + ":"@
        + result.line_start + "-"@);
    let row = crate::search::row(result, width);
    assert(crate::layout::one_line(crate::text::blanks(width - place.len())));
    assert(row =~= start + result.line_end + more + mark);
    assert(crate::layout::one_line(more));
    assert(crate::layout::one_line(mark));
    assert(crate::layout::one_line(start));
    if mark.len() > 0 {
        assert(mark.last() == ')');
        assert(row.last() == mark.last());
    } else if more.len() > 0 {
        assert(more.last() == ')');
        assert(row.last() == more.last());
    } else if result.line_end.len() > 0 {
        assert(row.last() == result.line_end.last());
    } else {
        assert(row.last() == start.last());
        assert(start.last() == '-');
    }
}

/// The title of a report is one line and ends in something visible.
proof fn lemma_title_visible(query: Seq<char>, total: nat)
    requires
        crate::layout::one_line(query),
    ensures
        crate::layout::visible(crate::search::title(query, total)),
        crate::search::title(query, total)[0] == 'g',
{
    broadcast use crate::layout::lemma_one_line_concat;

    reveal_strlit("grepai: \"");
    reveal_strlit("\" — ");
    reveal_strlit(" results");
    crate::layout::lemma_decimal(total);
    let title = crate::search::title(query, total);
    assert(title.last() == " results"@[7]);
    assert(title[0] == "grepai: \""@[0]);
}

/// One line per result: the report of a listing is its title alone where it
/// lists no result, and else the title, an empty line and one row per result.
pub proof fn law_one_row_per_result(output: Seq<char>)
    requires
        is_listing(output),
    ensures
        ({
            let lines = crate::text::lines_of(output);
            let (count, query) = crate::grammar::search_header(lines[0])->0;
            let results = crate::search::results_of(lines.skip(1));
            let total = crate::text::count_value(count) as nat;
            let shown = crate::text::lines_of(crate::search::filtered(output));
            if results.len() == 0 {
                shown == seq![crate::search::title(query, 0)]
            } else {
                shown == seq![crate::search::title(query, total), Seq::empty()]
                    + crate::search::rows(results)
            }
        }),
{
    let lines = crate::text::lines_of(output);
    let (count, query) = crate::grammar::search_header(lines[0])->0;
    assert(crate::pattern::is_search_header(lines[0], count, query));
    let results = crate::search::results_of(lines.skip(1));
    let total = crate::text::count_value(count) as nat;
    if results.len() == 0 {
        lemma_title_visible(query, 0);
        crate::layout::lemma_single_line(crate::search::title(query, 0));
    } else {
        lemma_title_visible(query, total);
        lemma_rows_visible(lines.skip(1));
        crate::layout::lemma_page(
            crate::search::title(query, total),
            crate::search::rows(results),
        );
    }
}

/// The rows of a listing are lines that end in something visible.
proof fn lemma_rows_visible(lines: Seq<Seq<char>>)
    ensures
        forall|k: int|
            0 <= k < crate::search::rows(crate::search::results_of(lines)).len()
                ==> crate::layout::visible(
                #[trigger] crate::search::rows(crate::search::results_of(lines))[k],
            ),
{
    let results = crate::search::results_of(lines);
    lemma_well_read(lines);
    assert forall|k: int| 0 <= k < crate::search::rows(results).len() implies
        crate::layout::visible(#[trigger] crate::search::rows(results)[k]) by {
        assert(well_read(results[k]));
        lemma_row_visible(results[k], crate::search::place_width(results));
    }
}

/// Directories are aligned: in every row that shows one, it stands behind the
/// score and as many columns as the widest place takes.
pub proof fn law_directories_are_aligned(
    results: Seq<crate::search::SearchResultView>,
    k: int,
)
    requires
        0 <= k < results.len(),
        crate::path::parent_dir(results[k].file_path).len() > 0,
    ensures
        crate::search::rows(results)[k].skip(
            4int + results[k].score.len() + crate::search::place_width(results),
        ) == " ("@ + crate::path::compacted(crate::path::parent_dir(results[k].file_path)) + ")"@,
{
    crate::search::lemma_place_width(results);
    reveal_strlit("  ");
    let width = crate::search::place_width(results);
    let place = crate::search::place(results[k]);
    let shown = " ("@ + crate::path::compacted(crate::path::parent_dir(results[k].file_path))
        + ")"@;
    let start = "  "@ + results[k].score + "  "@ + place + crate::text::blanks(
        width - place.len(),
    );
    assert(start.len() == 4 + results[k].score.len() + width);
    assert(crate::search::rows(results)[k] =~= start + shown);
    assert((start + shown).skip(start.len() as int) =~= shown);
}

/// A count that the listing gives in plain decimal is shown as it was read.
pub proof fn law_counts_read_back(n: u32)
    ensures
        crate::text::count_value(crate::text::decimal(n as nat)) == n,
{
    crate::layout::lemma_decimal(n as nat);
}

/// A report is final: it is no listing itself, and passes through unchanged.
pub proof fn law_report_is_final(output: Seq<char>)
    requires
        is_listing(output),
    ensures
        crate::search::filtered(crate::search::filtered(output)) == crate::search::filtered(output),
{
    let lines = crate::text::lines_of(output);
    let (count, query) = crate::grammar::search_header(lines[0])->0;
    assert(crate::pattern::is_search_header(lines[0], count, query));
    let results = crate::search::results_of(lines.skip(1));
    let total = if results.len() == 0 {
        0
    } else {
        crate::text::count_value(count) as nat
    };
    let title = crate::search::title(query, total);
    let shown = crate::search::filtered(output);
    lemma_title_visible(query, total);
    law_one_row_per_result(output);
    if results.len() > 0 {
        lemma_rows_visible(lines.skip(1));
        crate::layout::lemma_page(title, crate::search::rows(results));
    }
    assert(crate::text::lines_of(shown)[0] == title);
    reveal_strlit("Found ");
    assert forall|c: Seq<char>, q: Seq<char>|
        !crate::pattern::is_search_header(title, c, q) by {
        if crate::pattern::is_search_header(title, c, q) {
            assert(title[0] == "Found "@[0]);
        }
    }
    crate::layout::lemma_trimmed(shown);
}

} // verus!
