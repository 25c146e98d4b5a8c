//! What the report of a search says, in the characters of listing and report.

use vstd::prelude::*;

verus! {

/// The lines that open a result.
pub open spec fn opens() -> spec_fn(Seq<char>) -> bool {
    |line: Seq<char>| crate::grammar::search_separator(line) is Some
}

/// Whether the lines behind line `i`, which opens a result, up to line `j` are
/// the section of that result.
pub open spec fn is_section(lines: Seq<Seq<char>>, i: int, j: int) -> bool {
    &&& 0 <= i < j <= lines.len()
    &&& crate::grammar::search_separator(lines[i]) is Some
    &&& forall|q: int| i < q < j ==> crate::grammar::search_separator(#[trigger] lines[q]) is None
    &&& j == lines.len() || crate::grammar::search_separator(lines[j]) is Some
}

/// Output is a listing exactly where its first line is the header of one. It is
/// reported with the query and the count of that line and the results of the
/// others; other output is trimmed.
pub proof fn law_listings_are_reported(output: Seq<char>)
    ensures
        ({
            let lines = crate::text::lines_of(output);
            &&& lines.len() == 0 ==> crate::search::filtered(output) == crate::text::trimmed(output)
            &&& lines.len() > 0 && crate::grammar::search_header(lines[0]) is None
                ==> crate::search::filtered(output) == crate::text::trimmed(output)
            &&& lines.len() > 0 ==> (crate::grammar::search_header(lines[0]) matches Some(
                (count, query),
            ) ==> crate::search::filtered(output) == crate::search::report(
                query,
                crate::text::count_value(count) as nat,
                crate::search::results_of(lines.skip(1)),
            ))
        }),
{
}

/// There are as many results as lines that open one.
pub proof fn law_as_many_results_as_separators(lines: Seq<Seq<char>>)
    ensures
        crate::search::results_of(lines).len() == lines.filter(opens()).len(),
    decreases lines.len(),
{
    reveal(Seq::filter);
    if lines.len() > 0 {
        law_as_many_results_as_separators(lines.drop_last());
    }
}

/// The first place of some lines is that of the first line that names one.
proof fn lemma_first_place(lines: Seq<Seq<char>>, p: int)
    requires
        0 <= p <= lines.len(),
        forall|q: int|
            0 <= q < p ==> crate::grammar::search_file_line(#[trigger] lines[q]) is None,
        p < lines.len() ==> crate::grammar::search_file_line(lines[p]) is Some,
    ensures
        crate::search_laws::first_place(lines) == if p < lines.len() {
            crate::grammar::search_file_line(lines[p])
        } else {
            None
        },
    decreases lines.len(),
{
    if lines.len() > 0 {
        let shorter = lines.drop_last();
        assert forall|q: int| 0 <= q < shorter.len() implies #[trigger] shorter[q] == lines[q] by {
        }
        if p < lines.len() {
            lemma_first_place(shorter, p);
        } else {
            lemma_first_place(shorter, p - 1);
            assert(lines[p - 1] == lines.last());
        }
    }
}

/// The last count of some lines is that of the last line that gives one.
proof fn lemma_last_more(lines: Seq<Seq<char>>, m: int)
    requires
        -1 <= m < lines.len(),
        forall|q: int|
            m < q < lines.len() ==> crate::grammar::search_more_lines(#[trigger] lines[q]) is None,
        m >= 0 ==> crate::grammar::search_more_lines(lines[m]) is Some,
    ensures
        crate::search_laws::last_more(lines) == if m >= 0 {
            Some(crate::text::count_value(crate::grammar::search_more_lines(lines[m])->0))
        } else {
            None
        },
    decreases lines.len(),
{
    if lines.len() > 0 {
        let shorter = lines.drop_last();
        assert forall|q: int| 0 <= q < shorter.len() implies #[trigger] shorter[q] == lines[q] by {
        }
        if m < lines.len() - 1 {
            assert(lines[lines.len() - 1] == lines.last());
            lemma_last_more(shorter, m);
        }
    }
}

/// Lines none of which opens a result open none together.
proof fn lemma_no_separators(lines: Seq<Seq<char>>)
    requires
        forall|q: int|
            0 <= q < lines.len() ==> crate::grammar::search_separator(#[trigger] lines[q]) is None,
    ensures
        crate::search_laws::separators(lines) == 0,
    decreases lines.len(),
{
    if lines.len() > 0 {
        assert(lines[lines.len() - 1] == lines.last());
        assert forall|q: int| 0 <= q < lines.drop_last().len() implies
            crate::grammar::search_separator(#[trigger] lines.drop_last()[q]) is None by {
            assert(lines.drop_last()[q] == lines[q]);
        }
        lemma_no_separators(lines.drop_last());
    }
}

/// A result stays what it is once the next one is opened.
proof fn lemma_result_stays(lines: Seq<Seq<char>>, j: int, k: int)
    requires
        0 <= j <= lines.len(),
        0 <= k < crate::search::results_of(lines.take(j)).len(),
        j < lines.len() ==> crate::grammar::search_separator(lines[j]) is Some,
    ensures
        k < crate::search::results_of(lines).len(),
        crate::search::results_of(lines)[k] == crate::search::results_of(lines.take(j))[k],
        j < lines.len() ==> k + 1 < crate::search::results_of(lines).len(),
    decreases lines.len(),
{
    if j < lines.len() {
        let shorter = lines.drop_last();
        assert(shorter.take(j) =~= lines.take(j));
        if j < shorter.len() {
            assert(shorter[j] == lines[j]);
        } else {
            assert(lines.last() == lines[j]);
        }
        lemma_result_stays(shorter, j, k);
    } else {
        assert(lines.take(j) =~= lines);
    }
}

/// A result is what its section says: the score of the line that opens it, the
/// place of the first line that names one, line `p`, and the count of the last
/// line that marks lines left out, line `m`. Where no line names a place, `p` is
/// the end of the section and the place is empty; where none marks lines left
/// out, `m` is the line that opens the result and there is no count.
pub proof fn law_result_is_read_from_its_section(
    lines: Seq<Seq<char>>,
    i: int,
    j: int,
    p: int,
    m: int,
)
    requires
        is_section(lines, i, j),
        i < p <= j,
        forall|q: int|
            i < q < p ==> crate::grammar::search_file_line(#[trigger] lines[q]) is None,
        p < j ==> crate::grammar::search_file_line(lines[p]) is Some,
        i <= m < j,
        forall|q: int|
            m < q < j ==> crate::grammar::search_more_lines(#[trigger] lines[q]) is None,
        m > i ==> crate::grammar::search_more_lines(lines[m]) is Some,
    ensures
        ({
            let k = lines.take(i).filter(opens()).len() as int;
            let result = crate::search::results_of(lines)[k];
            &&& k < crate::search::results_of(lines).len()
            &&& crate::grammar::search_separator(lines[i]) == Some(result.score)
            &&& p < j ==> crate::grammar::search_file_line(lines[p]) == Some(
                (result.file_path, result.line_start, result.line_end),
            )
            &&& p == j ==> result.file_path.len() == 0 && result.line_start.len() == 0
                && result.line_end.len() == 0
            &&& m > i ==> result.more_lines == Some(
                crate::text::count_value(crate::grammar::search_more_lines(lines[m])->0),
            )
            &&& m == i ==> result.more_lines is None
        }),
{
    let before = lines.take(i);
    let body = lines.subrange(i + 1, j);
    let k = before.filter(opens()).len() as int;
    assert forall|q: int| 0 <= q < body.len() implies crate::grammar::search_separator(
        #[trigger] body[q],
    ) is None by {
        assert(body[q] == lines[q + i + 1]);
    }
    lemma_no_separators(body);
    crate::search_laws::law_result_is_its_section(before, lines[i], body);
    law_as_many_results_as_separators(before);
    assert(before.push(lines[i]) + body =~= lines.take(j));
    lemma_result_stays(lines, j, k);
    assert forall|q: int| 0 <= q < p - i - 1 implies crate::grammar::search_file_line(
        #[trigger] body[q],
    ) is None by {
        assert(body[q] == lines[q + i + 1]);
    }
    if p < j {
        assert(body[p - i - 1] == lines[p]);
    }
    lemma_first_place(body, p - i - 1);
    assert forall|q: int| m - i - 1 < q < body.len() implies crate::grammar::search_more_lines(
        #[trigger] body[q],
    ) is None by {
        assert(body[q] == lines[q + i + 1]);
    }
    if m > i {
        assert(body[m - i - 1] == lines[m]);
    }
    lemma_last_more(body, m - i - 1);
}

/// The first line of the report of a listing is its query and its count, or 0
/// where it opens no result.
pub proof fn law_title_shows_query_and_count(output: Seq<char>, count: Seq<char>, query: Seq<char>)
    requires
        crate::text::lines_of(output).len() > 0,
        crate::grammar::search_header(crate::text::lines_of(output)[0]) == Some((count, query)),
    ensures
        ({
            let found = crate::text::lines_of(output).skip(1).filter(opens()).len();
            let shown = crate::text::lines_of(crate::search::filtered(output));
            let total = if found == 0 {
                0
            } else {
                crate::text::count_value(count)
            };
            &&& shown.len() == if found == 0 {
                1
            } else {
                found + 2
            }
            &&& shown[0] == "grepai: \""@ + query + "\" — "@ + crate::text::decimal(total as nat)
                + " results"@
            &&& found > 0 ==> shown[1].len() == 0
        }),
{
    law_as_many_results_as_separators(crate::text::lines_of(output).skip(1));
    crate::search_laws::law_one_row_per_result(output);
}

/// The report of a search without results says `0 results`.
pub proof fn law_report_without_results(query: Seq<char>, total: nat)
    ensures
        crate::search::report(query, total, Seq::empty()) == "grepai: \""@ + query
            + "\" — 0 results"@,
{
    crate::text_laws::law_decimal_digits(0, 0);
    reveal_strlit("\" — 0 results");
    reveal_strlit("\" — ");
    reveal_strlit("0");
    reveal_strlit(" results");
    assert("\" — "@ + "0"@ + " results"@ =~= "\" — 0 results"@);
    assert(crate::search::report(query, total, Seq::empty()) =~= "grepai: \""@ + query + (
    "\" — "@ + "0"@ + " results"@));
}

/// The report of a search is the query and the count, an empty line, and a row
/// for each result: two spaces, the score, two spaces, the name of the file, a
/// colon, the first line, a hyphen, the last line, how many lines are left out
/// if any, and, where the file has a directory, the directory in brackets, one
/// column behind the widest of what stands before it in any row.
pub proof fn law_search_report_text(
    query: Seq<char>,
    total: nat,
    results: Seq<crate::search::SearchResultView>,
) -> (width: nat)
    requires
        results.len() > 0,
    ensures
        ({
            let place = |k: int|
                crate::path::file_name(results[k].file_path) + ":"@ + results[k].line_start + "-"@
                    + results[k].line_end + match results[k].more_lines {
                    Some(n) if n != 0 => " (+"@ + crate::text::decimal(n as nat) + " lines)"@,
                    _ => Seq::empty(),
                };
            &&& forall|k: int| 0 <= k < results.len() ==> (#[trigger] place(k)).len() <= width
            &&& exists|k: int| 0 <= k < results.len() && (#[trigger] place(k)).len() == width
            &&& crate::search::report(query, total, results) == crate::text::trimmed_end(
                "grepai: \""@ + query + "\" — "@ + crate::text::decimal(total) + " results\n\n"@
                    + crate::text::stacked(
                    Seq::new(
                        results.len(),
                        |k: int|
                            "  "@ + results[k].score + "  "@ + place(k) + if crate::path::parent_dir(
                                results[k].file_path,
                            ).len() == 0 {
                                Seq::empty()
                            } else {
                                crate::text::blanks(width - place(k).len()) + " ("@
                                    + crate::path::compacted(
                                    crate::path::parent_dir(results[k].file_path),
                                ) + ")"@
                            },
                    ),
                ),
            )
        }),
{
    let width = crate::search::place_width(results);
    let place = |k: int|
        crate::path::file_name(results[k].file_path) + ":"@ + results[k].line_start + "-"@
            + results[k].line_end + match results[k].more_lines {
            Some(n) if n != 0 => " (+"@ + crate::text::decimal(n as nat) + " lines)"@,
            _ => Seq::empty(),
        };
    crate::search::lemma_place_width(results);
    let widest = lemma_widest(results);
    assert forall|k: int| 0 <= k < results.len() implies #[trigger] place(k)
        == crate::search::place(results[k]) by {
    }
    assert(place(widest).len() == width);
    let shown = Seq::new(
        results.len(),
        |k: int|
            "  "@ + results[k].score + "  "@ + place(k) + if crate::path::parent_dir(
                results[k].file_path,
            ).len() == 0 {
                Seq::empty()
            } else {
                crate::text::blanks(width - place(k).len()) + " ("@ + crate::path::compacted(
                    crate::path::parent_dir(results[k].file_path),
                ) + ")"@
            },
    );
    assert forall|k: int| 0 <= k < results.len() implies #[trigger] shown[k]
        == crate::search::rows(results)[k] by {
        assert(place(k) == crate::search::place(results[k]));
    }
    assert(shown =~= crate::search::rows(results));
    reveal_strlit(" results\n\n");
    reveal_strlit(" results");
    reveal_strlit("\n\n");
    assert(" results\n\n"@ =~= " results"@ + "\n\n"@);
    assert("grepai: \""@ + query + "\" — "@ + crate::text::decimal(total) + " results\n\n"@
        + crate::text::stacked(shown) =~= crate::search::title(query, total) + "\n\n"@
        + crate::text::stacked(shown));
    width
}

/// Some place is as wide as the widest.
proof fn lemma_widest(results: Seq<crate::search::SearchResultView>) -> (k: int)
    requires
        results.len() > 0,
    ensures
        0 <= k < results.len(),
        crate::search::place(results[k]).len() == crate::search::place_width(results),
    decreases results.len(),
{
    let shorter = results.drop_last();
    if crate::search::place_width(shorter) < crate::search::place(results.last()).len() {
        results.len() - 1
    } else if shorter.len() == 0 {
        assert(crate::search::place_width(shorter) == 0);
        0
    } else {
        let k = lemma_widest(shorter);
        assert(shorter[k] == results[k]);
        k
    }
}

/// The row of a result begins with its score, the name of its file and the
/// lines that the listing gave, in the digits of the listing; behind them
/// follow only the mark of lines left out and the directory. The rows stand in
/// the order of the results.
pub proof fn law_row_shows_the_place_of_the_listing(
    output: Seq<char>,
    i: int,
    j: int,
    p: int,
    m: int,
    score: Seq<char>,
    path: Seq<char>,
    start: Seq<char>,
    end: Seq<char>,
)
    requires
        crate::text::lines_of(output).len() > 0,
        crate::grammar::search_header(crate::text::lines_of(output)[0]) is Some,
        1 <= i,
        is_section(crate::text::lines_of(output), i, j),
        crate::grammar::search_separator(crate::text::lines_of(output)[i]) == Some(score),
        i < p < j,
        crate::text::lines_of(output)[p] == "File: "@ + path + ":"@ + start + "-"@ + end,
        crate::grammar_laws::phrase(path),
        crate::grammar_laws::digits(start),
        crate::grammar_laws::digits(end),
        forall|q: int|
            i < q < p ==> crate::grammar::search_file_line(
                #[trigger] crate::text::lines_of(output)[q],
            ) is None,
        i <= m < j,
        m > i ==> crate::grammar::search_more_lines(crate::text::lines_of(output)[m]) is Some,
        forall|q: int|
            m < q < j ==> crate::grammar::search_more_lines(
                #[trigger] crate::text::lines_of(output)[q],
            ) is None,
    ensures
        ({
            let lines = crate::text::lines_of(output);
            let shown = crate::text::lines_of(crate::search::filtered(output));
            let k = lines.subrange(1, i).filter(opens()).len() as int;
            let more = if m == i {
                0
            } else {
                crate::text::count_value(crate::grammar::search_more_lines(lines[m])->0)
            };
            let mark = if more == 0 {
                Seq::empty()
            } else {
                " (+"@ + crate::text::decimal(more as nat) + " lines)"@
            };
            let begun = "  "@ + score + "  "@ + crate::path::file_name(path) + ":"@ + start + "-"@
                + end + mark;
            let parent = crate::path::parent_dir(path);
            &&& k + 2 < shown.len()
            &&& parent.len() == 0 ==> shown[k + 2] == begun
            &&& parent.len() > 0 ==> exists|n: int|
                n >= 0 && shown[k + 2] == begun + #[trigger] crate::text::blanks(n) + " ("@
                    + crate::path::compacted(parent) + ")"@
        }),
{
    let lines = crate::text::lines_of(output);
    let results = crate::search::results_of(lines.skip(1));
    let k = lines.subrange(1, i).filter(opens()).len() as int;
    let more = if m == i {
        0
    } else {
        crate::text::count_value(crate::grammar::search_more_lines(lines[m])->0)
    };
    crate::grammar_laws::law_search_file_line(lines[p], path, start, end);
    lemma_listed_result(lines, i, j, p, m);
    lemma_row_text(results, k);
    crate::search_laws::law_one_row_per_result(output);
    let shown = crate::text::lines_of(crate::search::filtered(output));
    assert(shown[k + 2] == crate::search::rows(results)[k]);
    assert(crate::search::more_mark(results[k].more_lines) == if more == 0 {
        Seq::empty()
    } else {
        " (+"@ + crate::text::decimal(more as nat) + " lines)"@
    });
}

/// The result of a section of a whole listing, whose first line is its header.
proof fn lemma_listed_result(lines: Seq<Seq<char>>, i: int, j: int, p: int, m: int)
    requires
        1 <= i,
        is_section(lines, i, j),
        i < p < j,
        crate::grammar::search_file_line(lines[p]) is Some,
        forall|q: int|
            i < q < p ==> crate::grammar::search_file_line(#[trigger] lines[q]) is None,
        i <= m < j,
        m > i ==> crate::grammar::search_more_lines(lines[m]) is Some,
        forall|q: int|
            m < q < j ==> crate::grammar::search_more_lines(#[trigger] lines[q]) is None,
    ensures
        ({
            let k = lines.subrange(1, i).filter(opens()).len() as int;
            let results = crate::search::results_of(lines.skip(1));
            &&& k < results.len()
            &&& crate::grammar::search_separator(lines[i]) == Some(results[k].score)
            &&& crate::grammar::search_file_line(lines[p]) == Some(
                (results[k].file_path, results[k].line_start, results[k].line_end),
            )
            &&& results[k].more_lines == if m == i {
                None
            } else {
                Some(crate::text::count_value(crate::grammar::search_more_lines(lines[m])->0))
            }
        }),
{
    let body = lines.skip(1);
    assert(body.take(i - 1) =~= lines.subrange(1, i));
    lemma_section_behind_the_header(lines, i, j);
    assert(body[i - 1] == lines[i]);
    assert(body[p - 1] == lines[p]);
    assert(body[m - 1] == lines[m]);
    assert forall|q: int| i - 1 < q < p - 1 implies crate::grammar::search_file_line(
        #[trigger] body[q],
    ) is None by {
        assert(body[q] == lines[q + 1]);
    }
    assert forall|q: int| m - 1 < q < j - 1 implies crate::grammar::search_more_lines(
        #[trigger] body[q],
    ) is None by {
        assert(body[q] == lines[q + 1]);
    }
    law_result_is_read_from_its_section(body, i - 1, j - 1, p - 1, m - 1);
}

/// A section of a listing is one of the lines behind its header.
proof fn lemma_section_behind_the_header(lines: Seq<Seq<char>>, i: int, j: int)
    requires
        1 <= i,
        is_section(lines, i, j),
    ensures
        is_section(lines.skip(1), i - 1, j - 1),
{
    let body = lines.skip(1);
    assert(body[i - 1] == lines[i]);
    assert forall|q: int| i - 1 < q < j - 1 implies crate::grammar::search_separator(
        #[trigger] body[q],
    ) is None by {
        assert(body[q] == lines[q + 1]);
    }
    if j < lines.len() {
        assert(body[j - 1] == lines[j]);
    }
}

/// A row in full.
proof fn lemma_row_text(results: Seq<crate::search::SearchResultView>, k: int)
    requires
        0 <= k < results.len(),
    ensures
        ({
            let result = results[k];
            let begun = "  "@ + result.score + "  "@ + crate::path::file_name(result.file_path)
                + ":"@ + result.line_start + "-"@ + result.line_end + crate::search::more_mark(
                result.more_lines,
            );
            let parent = crate::path::parent_dir(result.file_path);
            let row = crate::search::rows(results)[k];
            &&& parent.len() == 0 ==> row == begun
            &&& parent.len() > 0 ==> exists|n: int|
                n >= 0 && row == begun + #[trigger] crate::text::blanks(n) + " ("@
                    + crate::path::compacted(parent) + ")"@
        }),
{
    let result = results[k];
    let mark = crate::search::more_mark(result.more_lines);
    let begun = "  "@ + result.score + "  "@ + crate::path::file_name(result.file_path) + ":"@
        + result.line_start + "-"@ + result.line_end + mark;
    let parent = crate::path::parent_dir(result.file_path);
    let place = crate::search::place(result);
    let width = crate::search::place_width(results);
    crate::search::lemma_place_width(results);
    let row = crate::search::rows(results)[k];
    assert(begun =~= "  "@ + result.score + "  "@ + place);
    if parent.len() == 0 {
        assert(row =~= begun);
    } else {
        let n = width - place.len();
        assert(row =~= begun + crate::text::blanks(n) + " ("@ + crate::path::compacted(parent)
            + ")"@);
    }
}

/// What a result holds is what its fields hold.
pub proof fn law_views_are_the_fields(results: Seq<crate::search::SearchResult>)
    ensures
        crate::search::result_views(results).len() == results.len(),
        forall|i: int|
            0 <= i < results.len() ==> ({
                let view = #[trigger] crate::search::result_views(results)[i];
                &&& view.score == results[i].score@
                &&& view.file_path == results[i].file_path@
                &&& view.line_start == results[i].line_start@
                &&& view.line_end == results[i].line_end@
                &&& view.more_lines == results[i].more_lines
            }),
{
}

/// What `filter_search` returns: of output whose first line is the header of a
/// listing the report of its results, of other output the output, trimmed.
pub proof fn law_filter_search_reports_listings(output: &str, out: String)
    requires
        call_ensures(crate::search::filter_search, (output,), out),
    ensures
        ({
            let lines = crate::text::lines_of(output@);
            &&& lines.len() == 0 ==> out@ == crate::text::trimmed(output@)
            &&& lines.len() > 0 && crate::grammar::search_header(lines[0]) is None ==> out@
                == crate::text::trimmed(output@)
            &&& lines.len() > 0 ==> (crate::grammar::search_header(lines[0]) matches Some(
                (count, query),
            ) ==> out@ == crate::search::report(
                query,
                crate::text::count_value(count) as nat,
                crate::search::results_of(lines.skip(1)),
            ))
        }),
{
    law_listings_are_reported(output@);
}

} // verus!
