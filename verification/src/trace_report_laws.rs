//! What the report of a trace says, in the characters of listing and report.

use vstd::prelude::*;

verus! {

/// The lines that place a call.
pub open spec fn places() -> spec_fn(Seq<char>) -> bool {
    |line: Seq<char>| crate::grammar::trace_calls_at(line) is Some
}

/// The lines that place a call in `file`.
pub open spec fn places_in(file: Seq<char>) -> spec_fn(Seq<char>) -> bool {
    |line: Seq<char>|
        match crate::grammar::trace_calls_at(line) {
            Some((path, number)) => path == file,
            None => false,
        }
}

/// The file in which a line places a call.
pub open spec fn place_file() -> spec_fn(Seq<char>) -> Seq<char> {
    |line: Seq<char>|
        match crate::grammar::trace_calls_at(line) {
            Some((path, number)) => path,
            None => Seq::empty(),
        }
}

/// The line at which a line places a call.
pub open spec fn place_line() -> spec_fn(Seq<char>) -> usize {
    |line: Seq<char>|
        match crate::grammar::trace_calls_at(line) {
            Some((path, number)) => crate::trace::line_value(number),
            None => 0,
        }
}

/// Whether the first `h` lines are the header of a listing whose calls are read
/// from line `b` on: the header ends with the first of the first six lines that
/// announces callers or callees, and the calls are read behind it. Where none
/// of the six does, they are all header, and the calls are read from the start.
pub open spec fn is_header(lines: Seq<Seq<char>>, h: int, b: int) -> bool {
    if b > 0 {
        &&& b == h
        &&& h <= 6
        &&& h <= lines.len()
        &&& crate::grammar::trace_caller_count(lines[h - 1]) is Some
        &&& forall|i: int|
            0 <= i < h - 1 ==> crate::grammar::trace_caller_count(#[trigger] lines[i]) is None
    } else {
        &&& b == 0
        &&& h == if lines.len() < 6 {
            lines.len() as int
        } else {
            6
        }
        &&& forall|i: int|
            0 <= i < h ==> crate::grammar::trace_caller_count(#[trigger] lines[i]) is None
    }
}

/// The first of some lines that announces callers or callees.
proof fn lemma_first_count(lines: Seq<Seq<char>>, c: int)
    requires
        0 <= c <= lines.len(),
        forall|i: int|
            0 <= i < c ==> crate::grammar::trace_caller_count(#[trigger] lines[i]) is None,
        c < lines.len() ==> crate::grammar::trace_caller_count(lines[c]) is Some,
    ensures
        crate::trace::first_count(lines) == if c < lines.len() {
            Some(c as nat)
        } else {
            None
        },
    decreases lines.len(),
{
    if lines.len() > 0 {
        let shorter = lines.drop_last();
        assert forall|i: int| 0 <= i < shorter.len() implies #[trigger] shorter[i] == lines[i] by {
        }
        assert(lines.last() == lines[lines.len() - 1]);
        if c < lines.len() {
            lemma_first_count(shorter, c);
        } else {
            lemma_first_count(shorter, c - 1);
        }
    }
}

/// A listing is parted into its header and the lines that can place calls as
/// `is_header` says.
pub proof fn law_listing_is_parted(lines: Seq<Seq<char>>, h: int, b: int)
    requires
        is_header(lines, h, b),
    ensures
        crate::trace::header_lines(lines) == lines.take(h),
        crate::trace::body_lines(lines) == lines.skip(b),
{
    let first = crate::trace::head(lines);
    assert forall|i: int| 0 <= i < first.len() implies #[trigger] first[i] == lines[i] by {
    }
    if b > 0 {
        lemma_first_count(first, h - 1);
        assert(first.take(h) =~= lines.take(h));
    } else {
        lemma_first_count(first, first.len() as int);
        assert(first =~= lines.take(h));
        assert(lines.skip(0) =~= lines);
    }
}

/// Every listing is parted in one of these ways.
pub proof fn law_every_listing_has_a_header(lines: Seq<Seq<char>>) -> (parted: (int, int))
    ensures
        is_header(lines, parted.0, parted.1),
{
    let n = if lines.len() < 6 {
        lines.len() as int
    } else {
        6
    };
    lemma_header_from(lines, 0, n)
}

/// The first line to announce callers or callees from line `i` on.
proof fn lemma_header_from(lines: Seq<Seq<char>>, i: int, n: int) -> (parted: (int, int))
    requires
        0 <= i <= n,
        n == if lines.len() < 6 {
            lines.len() as int
        } else {
            6
        },
        forall|k: int|
            0 <= k < i ==> crate::grammar::trace_caller_count(#[trigger] lines[k]) is None,
    ensures
        is_header(lines, parted.0, parted.1),
    decreases n - i,
{
    if i == n {
        (n, 0)
    } else if crate::grammar::trace_caller_count(lines[i]) is Some {
        (i + 1, i + 1)
    } else {
        lemma_header_from(lines, i + 1, n)
    }
}

/// The symbol of some lines is that of the last line that names one.
proof fn lemma_symbol(lines: Seq<Seq<char>>, s: int)
    requires
        -1 <= s < lines.len(),
        forall|i: int|
            s < i < lines.len() ==> crate::grammar::trace_symbol(#[trigger] lines[i]) is None,
        s >= 0 ==> crate::grammar::trace_symbol(lines[s]) is Some,
    ensures
        crate::trace::symbol_in(lines) == if s >= 0 {
            crate::grammar::trace_symbol(lines[s])
        } else {
            None
        },
    decreases lines.len(),
{
    if lines.len() > 0 {
        let shorter = lines.drop_last();
        assert forall|i: int| 0 <= i < shorter.len() implies #[trigger] shorter[i] == lines[i] by {
        }
        if s < lines.len() - 1 {
            assert(lines[lines.len() - 1] == lines.last());
            lemma_symbol(shorter, s);
        }
    }
}

/// The place of some lines is that of the first line that names a file.
proof fn lemma_place(lines: Seq<Seq<char>>, p: int)
    requires
        0 <= p <= lines.len(),
        forall|i: int|
            0 <= i < p ==> crate::grammar::trace_symbol_file(#[trigger] lines[i]) is None,
        p < lines.len() ==> crate::grammar::trace_symbol_file(lines[p]) is Some,
    ensures
        crate::trace::place_in(lines) == if p < lines.len() {
            crate::grammar::trace_symbol_file(lines[p])
        } else {
            None
        },
    decreases lines.len(),
{
    if lines.len() > 0 {
        let shorter = lines.drop_last();
        assert forall|i: int| 0 <= i < shorter.len() implies #[trigger] shorter[i] == lines[i] by {
        }
        assert(lines.last() == lines[lines.len() - 1]);
        if p < lines.len() {
            lemma_place(shorter, p);
        } else {
            lemma_place(shorter, p - 1);
        }
    }
}

/// The header says the name and type of the last line `s` that names a symbol,
/// the file and line of the first line `p` that names a file, and the relation,
/// in lower case, and count of the first line `c` that announces one. What no
/// line says is empty, or 0: then `s` is -1, and `p` or `c` the number of lines.
pub proof fn law_header_is_what_its_lines_say(lines: Seq<Seq<char>>, s: int, p: int, c: int)
    requires
        -1 <= s < lines.len(),
        forall|i: int|
            s < i < lines.len() ==> crate::grammar::trace_symbol(#[trigger] lines[i]) is None,
        s >= 0 ==> crate::grammar::trace_symbol(lines[s]) is Some,
        0 <= p <= lines.len(),
        forall|i: int|
            0 <= i < p ==> crate::grammar::trace_symbol_file(#[trigger] lines[i]) is None,
        p < lines.len() ==> crate::grammar::trace_symbol_file(lines[p]) is Some,
        0 <= c <= lines.len(),
        forall|i: int|
            0 <= i < c ==> crate::grammar::trace_caller_count(#[trigger] lines[i]) is None,
        c < lines.len() ==> crate::grammar::trace_caller_count(lines[c]) is Some,
    ensures
        ({
            let header = crate::trace::header_of(lines);
            &&& s >= 0 ==> crate::grammar::trace_symbol(lines[s]) == Some(
                (header.symbol_name, header.symbol_type),
            )
            &&& s < 0 ==> header.symbol_name.len() == 0 && header.symbol_type.len() == 0
            &&& p < lines.len() ==> (crate::grammar::trace_symbol_file(lines[p]) matches Some(
                (path, number),
            ) && header.symbol_file == path && (number matches Some(n) ==> header.symbol_line == n)
                && (number is None ==> header.symbol_line.len() == 0))
            &&& p == lines.len() ==> header.symbol_file.len() == 0 && header.symbol_line.len() == 0
            &&& c < lines.len() ==> (crate::grammar::trace_caller_count(lines[c]) matches Some(
                (relation, count),
            ) && (relation == "Callers"@ ==> header.relation == "callers"@) && (relation
                == "Callees"@ ==> header.relation == "callees"@) && header.total_count
                == crate::text::count_value(count))
            &&& c == lines.len() ==> header.relation.len() == 0 && header.total_count == 0
        }),
{
    lemma_symbol(lines, s);
    lemma_place(lines, p);
    lemma_first_count(lines, c);
    reveal_strlit("Callers");
    reveal_strlit("Callees");
    assert("Callers"@[5] != "Callees"@[5]);
}

/// A trace is reported exactly where a line of its header names a symbol; other
/// output is trimmed.
pub proof fn law_listings_are_reported(output: Seq<char>, h: int, b: int)
    requires
        is_header(crate::text::lines_of(output), h, b),
    ensures
        ({
            let lines = crate::text::lines_of(output);
            &&& (exists|s: int|
                0 <= s < h && crate::grammar::trace_symbol(#[trigger] lines[s]) is Some)
                ==> crate::trace::filtered(output) == crate::trace::report(
                crate::trace::header_of(lines.take(h)),
                crate::trace::ranked(crate::trace::groups_of(lines.skip(b))),
            )
            &&& (forall|s: int|
                0 <= s < h ==> crate::grammar::trace_symbol(#[trigger] lines[s]) is None)
                ==> crate::trace::filtered(output) == crate::text::trimmed(output)
        }),
{
    let lines = crate::text::lines_of(output);
    let header = lines.take(h);
    law_listing_is_parted(lines, h, b);
    crate::trace_laws::law_other_output_passes_through(output);
    if exists|s: int| 0 <= s < h && crate::grammar::trace_symbol(#[trigger] lines[s]) is Some {
        let s = choose|s: int|
            0 <= s < h && crate::grammar::trace_symbol(#[trigger] lines[s]) is Some;
        assert(header[s] == lines[s]);
        lemma_some_symbol(header, s);
    } else {
        assert forall|i: int| 0 <= i < header.len() implies crate::grammar::trace_symbol(
            #[trigger] header[i],
        ) is None by {
            assert(header[i] == lines[i]);
        }
        lemma_symbol(header, -1);
    }
}

/// Lines one of which names a symbol name one.
proof fn lemma_some_symbol(lines: Seq<Seq<char>>, s: int)
    requires
        0 <= s < lines.len(),
        crate::grammar::trace_symbol(lines[s]) is Some,
    ensures
        crate::trace::symbol_in(lines) is Some,
    decreases lines.len(),
{
    if s < lines.len() - 1 {
        assert(lines.drop_last()[s] == lines[s]);
        lemma_some_symbol(lines.drop_last(), s);
    }
}

/// The calls of a file are the lines that the call lines with its path give, in
/// their order and each as often as it is given.
pub proof fn law_calls_are_the_call_lines(lines: Seq<Seq<char>>, file: Seq<char>)
    ensures
        crate::trace_laws::calls_in(lines, file) == lines.filter(places_in(file)).map_values(
            place_line(),
        ),
    decreases lines.len(),
{
    reveal(Seq::filter);
    let found = lines.filter(places_in(file));
    if lines.len() > 0 {
        law_calls_are_the_call_lines(lines.drop_last(), file);
        let earlier = lines.drop_last().filter(places_in(file));
        if places_in(file)(lines.last()) {
            assert(found.map_values(place_line()) =~= earlier.map_values(place_line()).push(
                place_line()(lines.last()),
            ));
        }
    }
    assert(crate::trace_laws::calls_in(lines, file) =~= found.map_values(place_line()));
}

/// The groups are the files of the call lines: as many as there are different
/// paths, one for each path, with the calls of that path.
pub proof fn law_one_group_per_path(lines: Seq<Seq<char>>)
    ensures
        ({
            let groups = crate::trace::groups_of(lines);
            let paths = lines.filter(places()).map_values(place_file());
            &&& groups.len() == paths.to_set().len()
            &&& crate::trace::ranked(groups).len() == groups.len()
            &&& forall|file: Seq<char>| #[trigger]
                paths.contains(file) <==> exists|i: int|
                    0 <= i < groups.len() && (#[trigger] groups[i]).file == file
            &&& forall|i: int|
                0 <= i < groups.len() ==> (#[trigger] groups[i]).lines == lines.filter(
                    places_in(groups[i].file),
                ).map_values(place_line())
        }),
{
    let groups = crate::trace::groups_of(lines);
    let paths = lines.filter(places()).map_values(place_file());
    let files = Seq::new(groups.len(), |i: int| groups[i].file);
    crate::trace_laws::law_groups_are_the_files(lines);
    crate::trace_laws::law_ranking_sorts(groups);
    assert forall|i: int| 0 <= i < groups.len() implies (#[trigger] groups[i]).lines
        == lines.filter(places_in(groups[i].file)).map_values(place_line()) by {
        law_calls_are_the_call_lines(lines, groups[i].file);
    }
    assert forall|file: Seq<char>| #[trigger] paths.contains(file) <==> files.contains(file) by {
        lemma_called_paths(lines, file);
        if files.contains(file) {
            let i = choose|i: int| 0 <= i < files.len() && files[i] == file;
            assert(groups[i].lines == crate::trace_laws::calls_in(lines, groups[i].file));
        }
        if paths.contains(file) {
            let i = crate::trace::group_index(groups, file) as int;
            crate::trace_laws::lemma_group_index(groups, file);
            assert(crate::trace_laws::calls_in(lines, file).len() > 0);
            assert(files[i] == file);
        }
    }
    assert forall|file: Seq<char>| #[trigger] paths.contains(file) <==> exists|i: int|
        0 <= i < groups.len() && (#[trigger] groups[i]).file == file by {
        assert(paths.contains(file) <==> files.contains(file));
        if files.contains(file) {
            let i = choose|i: int| 0 <= i < files.len() && files[i] == file;
            assert(groups[i].file == file);
        }
        if exists|i: int| 0 <= i < groups.len() && (#[trigger] groups[i]).file == file {
            let i = choose|i: int| 0 <= i < groups.len() && (#[trigger] groups[i]).file == file;
            assert(files[i] == file);
        }
    }
    assert(files.no_duplicates());
    files.unique_seq_to_set();
    assert(files.to_set() =~= paths.to_set()) by {
        assert forall|file: Seq<char>| files.to_set().contains(file) <==> paths.to_set().contains(
            file,
        ) by {
            assert(paths.contains(file) <==> files.contains(file));
        }
    }
}

/// A path of the call lines is one with a call.
proof fn lemma_called_paths(lines: Seq<Seq<char>>, file: Seq<char>)
    ensures
        lines.filter(places()).map_values(place_file()).contains(file)
            <==> crate::trace_laws::calls_in(lines, file).len() > 0,
    decreases lines.len(),
{
    reveal(Seq::filter);
    let found = lines.filter(places());
    let paths = found.map_values(place_file());
    if lines.len() > 0 {
        lemma_called_paths(lines.drop_last(), file);
        let earlier = lines.drop_last().filter(places());
        let shorter = earlier.map_values(place_file());
        if places()(lines.last()) {
            let path = place_file()(lines.last());
            assert(paths =~= shorter.push(path));
            if shorter.contains(file) {
                let k = choose|k: int| 0 <= k < shorter.len() && shorter[k] == file;
                assert(paths[k] == file);
            }
            if path == file {
                assert(paths[shorter.len() as int] == file);
            }
            if paths.contains(file) && path != file {
                let k = choose|k: int| 0 <= k < paths.len() && paths[k] == file;
                assert(shorter[k] == file);
            }
        }
    } else {
        assert(!paths.contains(file));
    }
}

/// The report of a trace is its title, an empty line, and a row for each group.
///
/// The title is the symbol, its type in brackets, where it is defined, how many
/// callers or callees there are, and in how many files. A row is two spaces and
/// the name of the file, for one call with a colon, its line and `1x`, for more
/// with the number of calls and the lines that hold them: each once, in
/// increasing order, up to five in full, of more the first three.
pub proof fn law_trace_report_text(
    header: crate::trace::TraceHeaderView,
    groups: Seq<crate::trace::CallGroupView>,
)
    ensures
        crate::trace::report(header, groups) == crate::text::trimmed_end(
            header.symbol_name + " ("@ + header.symbol_type + ") @ "@ + crate::path::file_name(
                header.symbol_file,
            ) + (if header.symbol_line.len() == 0 {
                Seq::empty()
            } else {
                ":"@ + header.symbol_line
            }) + " — "@ + crate::text::decimal(header.total_count as nat) + " "@ + header.relation
                + " in "@ + crate::text::decimal(groups.len()) + " files:\n\n"@
                + crate::text::stacked(
                Seq::new(
                    groups.len(),
                    |k: int|
                        {
                            let calls = groups[k].lines;
                            let numbers = crate::trace::sorted(calls);
                            "  "@ + crate::path::file_name(groups[k].file) + if calls.len() == 1 {
                                ":"@ + crate::text::decimal(calls[0] as nat) + "  1x"@
                            } else if numbers.len() == 1 {
                                "  "@ + crate::text::decimal(calls.len()) + "x (line: "@
                                    + crate::text::decimal(numbers[0] as nat) + ")"@
                            } else if numbers.len() <= 5 {
                                "  "@ + crate::text::decimal(calls.len()) + "x (lines: "@
                                    + crate::text::joined(crate::text::decimals(numbers), ","@)
                                    + ")"@
                            } else {
                                "  "@ + crate::text::decimal(calls.len()) + "x (lines: "@
                                    + crate::text::decimal(numbers[0] as nat) + ","@
                                    + crate::text::decimal(numbers[1] as nat) + ","@
                                    + crate::text::decimal(numbers[2] as nat) + ",...)"@
                            }
                        },
                ),
            ),
        ),
{
    let shown = Seq::new(
        groups.len(),
        |k: int|
            {
                let calls = groups[k].lines;
                let numbers = crate::trace::sorted(calls);
                "  "@ + crate::path::file_name(groups[k].file) + if calls.len() == 1 {
                    ":"@ + crate::text::decimal(calls[0] as nat) + "  1x"@
                } else if numbers.len() == 1 {
                    "  "@ + crate::text::decimal(calls.len()) + "x (line: "@
                        + crate::text::decimal(numbers[0] as nat) + ")"@
                } else if numbers.len() <= 5 {
                    "  "@ + crate::text::decimal(calls.len()) + "x (lines: "@
                        + crate::text::joined(crate::text::decimals(numbers), ","@) + ")"@
                } else {
                    "  "@ + crate::text::decimal(calls.len()) + "x (lines: "@
                        + crate::text::decimal(numbers[0] as nat) + ","@ + crate::text::decimal(
                        numbers[1] as nat,
                    ) + ","@ + crate::text::decimal(numbers[2] as nat) + ",...)"@
                }
            },
    );
    assert forall|k: int| 0 <= k < groups.len() implies #[trigger] shown[k] == crate::trace::row(
        groups[k],
    ) by {
        lemma_row_text(groups[k]);
    }
    assert(shown =~= crate::trace::rows(groups));
    let start = header.symbol_name + " ("@ + header.symbol_type + ") @ "@;
    let place = crate::path::file_name(header.symbol_file) + if header.symbol_line.len() == 0 {
        Seq::empty()
    } else {
        ":"@ + header.symbol_line
    };
    assert(place =~= crate::trace::location(header));
    reveal_strlit(" files:\n\n");
    reveal_strlit(" files:");
    reveal_strlit("\n\n");
    assert(" files:\n\n"@ =~= " files:"@ + "\n\n"@);
    let end = " — "@ + crate::text::decimal(header.total_count as nat) + " "@ + header.relation
        + " in "@ + crate::text::decimal(groups.len());
    assert(crate::trace::title(header, groups.len()) =~= start + place + end + " files:"@);
    assert(header.symbol_name + " ("@ + header.symbol_type + ") @ "@ + crate::path::file_name(
        header.symbol_file,
    ) + (if header.symbol_line.len() == 0 {
        Seq::empty()
    } else {
        ":"@ + header.symbol_line
    }) + " — "@ + crate::text::decimal(header.total_count as nat) + " "@ + header.relation
        + " in "@ + crate::text::decimal(groups.len()) + " files:\n\n"@ + crate::text::stacked(
        shown,
    ) =~= crate::trace::title(header, groups.len()) + "\n\n"@ + crate::text::stacked(shown));
}

/// A row in full.
proof fn lemma_row_text(group: crate::trace::CallGroupView)
    ensures
        ({
            let calls = group.lines;
            let numbers = crate::trace::sorted(calls);
            crate::trace::row(group) == "  "@ + crate::path::file_name(group.file)
                + if calls.len() == 1 {
                ":"@ + crate::text::decimal(calls[0] as nat) + "  1x"@
            } else if numbers.len() == 1 {
                "  "@ + crate::text::decimal(calls.len()) + "x (line: "@ + crate::text::decimal(
                    numbers[0] as nat,
                ) + ")"@
            } else if numbers.len() <= 5 {
                "  "@ + crate::text::decimal(calls.len()) + "x (lines: "@ + crate::text::joined(
                    crate::text::decimals(numbers),
                    ","@,
                ) + ")"@
            } else {
                "  "@ + crate::text::decimal(calls.len()) + "x (lines: "@ + crate::text::decimal(
                    numbers[0] as nat,
                ) + ","@ + crate::text::decimal(numbers[1] as nat) + ","@ + crate::text::decimal(
                    numbers[2] as nat,
                ) + ",...)"@
            }
        }),
{
    let calls = group.lines;
    let numbers = crate::trace::sorted(calls);
    let row = crate::trace::row(group);
    let name = crate::path::file_name(group.file);
    let count = crate::text::decimal(calls.len());
    reveal_strlit("x (");
    reveal_strlit("line: ");
    reveal_strlit("lines: ");
    reveal_strlit("x (line: ");
    reveal_strlit("x (lines: ");
    assert("x (line: "@ =~= "x ("@ + "line: "@);
    assert("x (lines: "@ =~= "x ("@ + "lines: "@);
    if calls.len() == 1 {
        assert(calls.drop_last() =~= Seq::empty());
        assert(crate::trace::sorted(calls.drop_last()) =~= Seq::empty());
        assert(numbers =~= calls);
        assert(row =~= "  "@ + name + (":"@ + crate::text::decimal(calls[0] as nat) + "  1x"@));
    } else if numbers.len() == 1 {
        assert(crate::text::decimals(numbers)[0] == crate::text::decimal(numbers[0] as nat));
        assert(row =~= "  "@ + name + ("  "@ + count + "x (line: "@ + crate::text::decimal(
            numbers[0] as nat,
        ) + ")"@));
    } else if numbers.len() <= 5 {
        assert(row =~= "  "@ + name + ("  "@ + count + "x (lines: "@ + crate::text::joined(
            crate::text::decimals(numbers),
            ","@,
        ) + ")"@));
    } else {
        lemma_three(numbers);
        reveal_strlit(",...)");
        reveal_strlit(",...");
        reveal_strlit(")");
        assert(",...)"@ =~= ",..."@ + ")"@);
        assert(row =~= "  "@ + name + ("  "@ + count + "x (lines: "@ + crate::text::decimal(
            numbers[0] as nat,
        ) + ","@ + crate::text::decimal(numbers[1] as nat) + ","@ + crate::text::decimal(
            numbers[2] as nat,
        ) + ",...)"@));
    }
}

/// Three numbers with commas between them.
proof fn lemma_three(numbers: Seq<usize>)
    requires
        numbers.len() >= 3,
    ensures
        crate::text::joined(crate::text::decimals(numbers.take(3)), ","@) == crate::text::decimal(
            numbers[0] as nat,
        ) + ","@ + crate::text::decimal(numbers[1] as nat) + ","@ + crate::text::decimal(
            numbers[2] as nat,
        ),
{
    let all = crate::text::decimals(numbers.take(3));
    let a = crate::text::decimal(numbers[0] as nat);
    let b = crate::text::decimal(numbers[1] as nat);
    let c = crate::text::decimal(numbers[2] as nat);
    assert(all =~= seq![a, b] + seq![c]);
    assert(seq![a, b] =~= seq![a] + seq![b]);
    crate::text_laws::law_joining_two_lists(seq![a], seq![b], ","@);
    crate::text_laws::law_joining_two_lists(seq![b], seq![c], ","@);
    crate::text_laws::law_joining_two_lists(seq![c], seq![c], ","@);
    crate::text_laws::law_joining_two_lists(seq![a, b], seq![c], ","@);
}

/// The first line of the report says what the header of the listing says, and
/// how many files there are: as many as different paths in the call lines, and
/// as many rows follow.
pub proof fn law_title_says_what_the_header_says(
    output: Seq<char>,
    h: int,
    b: int,
    s: int,
    p: int,
    name: Seq<char>,
    kind: Seq<char>,
)
    requires
        is_header(crate::text::lines_of(output), h, b),
        0 <= s < h,
        crate::grammar::trace_symbol(crate::text::lines_of(output)[s]) == Some((name, kind)),
        forall|i: int|
            s < i < h ==> crate::grammar::trace_symbol(
                #[trigger] crate::text::lines_of(output)[i],
            ) is None,
        0 <= p <= h,
        p < h ==> crate::grammar::trace_symbol_file(crate::text::lines_of(output)[p]) is Some,
        forall|i: int|
            0 <= i < p ==> crate::grammar::trace_symbol_file(
                #[trigger] crate::text::lines_of(output)[i],
            ) is None,
    ensures
        ({
            let lines = crate::text::lines_of(output);
            let shown = crate::text::lines_of(crate::trace::filtered(output));
            let files = lines.skip(b).filter(places()).map_values(place_file()).to_set().len();
            let place = if p == h {
                Seq::empty()
            } else {
                match crate::grammar::trace_symbol_file(lines[p]) {
                    Some((path, Some(number))) => crate::path::file_name(path) + ":"@ + number,
                    Some((path, None)) => crate::path::file_name(path),
                    None => Seq::empty(),
                }
            };
            let announced = if b == 0 {
                "0 "@
            } else {
                match crate::grammar::trace_caller_count(lines[h - 1]) {
                    Some((relation, count)) => crate::text::decimal(
                        crate::text::count_value(count) as nat,
                    ) + if relation == "Callers"@ {
                        " callers"@
                    } else {
                        " callees"@
                    },
                    None => Seq::empty(),
                }
            };
            &&& shown.len() == if files == 0 {
                1
            } else {
                files + 2
            }
            &&& shown[0] == name + " ("@ + kind + ") @ "@ + place + " — "@ + announced + " in "@
                + crate::text::decimal(files) + " files:"@
            &&& files > 0 ==> shown[1].len() == 0
        }),
{
    let lines = crate::text::lines_of(output);
    let head = lines.take(h);
    let header = crate::trace::header_of(head);
    let c = if b == 0 {
        h
    } else {
        h - 1
    };
    assert forall|i: int| 0 <= i < h implies #[trigger] head[i] == lines[i] by {
    }
    law_listing_is_parted(lines, h, b);
    lemma_some_symbol(head, s);
    crate::trace_laws::law_one_row_per_file(output);
    law_one_group_per_path(lines.skip(b));
    law_header_is_what_its_lines_say(head, s, p, c);
    lemma_title_text(header, crate::trace::groups_of(lines.skip(b)).len());
    if p == h {
        crate::path_laws::law_path_is_split_at_its_last_slash(
            Seq::empty(),
            '/',
            Seq::empty(),
        );
        assert(header.symbol_file =~= Seq::empty());
    }
    reveal_strlit("0 ");
    reveal_strlit("0");
    reveal_strlit(" ");
    reveal_strlit("callers");
    reveal_strlit("callees");
    reveal_strlit(" callers");
    reveal_strlit(" callees");
    crate::text_laws::law_decimal_digits(0, 0);
    let announced = crate::text::decimal(header.total_count as nat) + " "@ + header.relation;
    if b == 0 {
        assert(announced =~= "0 "@);
    } else {
        let (relation, count) = crate::grammar::trace_caller_count(lines[h - 1])->0;
        crate::grammar_laws::law_trace_caller_count(lines[h - 1], relation, count);
        assert(" "@ + "callers"@ =~= " callers"@);
        assert(" "@ + "callees"@ =~= " callees"@);
        assert(announced =~= crate::text::decimal(header.total_count as nat) + (" "@
            + header.relation));
    }
}

/// A title in full.
proof fn lemma_title_text(header: crate::trace::TraceHeaderView, files: nat)
    ensures
        crate::trace::title(header, files) == header.symbol_name + " ("@ + header.symbol_type
            + ") @ "@ + (if header.symbol_line.len() == 0 {
            crate::path::file_name(header.symbol_file)
        } else {
            crate::path::file_name(header.symbol_file) + ":"@ + header.symbol_line
        }) + " — "@ + (crate::text::decimal(header.total_count as nat) + " "@ + header.relation)
            + " in "@ + crate::text::decimal(files) + " files:"@,
{
    assert(crate::trace::title(header, files) =~= header.symbol_name + " ("@ + header.symbol_type
        + ") @ "@ + (if header.symbol_line.len() == 0 {
        crate::path::file_name(header.symbol_file)
    } else {
        crate::path::file_name(header.symbol_file) + ":"@ + header.symbol_line
    }) + " — "@ + (crate::text::decimal(header.total_count as nat) + " "@ + header.relation)
        + " in "@ + crate::text::decimal(files) + " files:"@);
}

/// Every file with a call has a row in the report, with the lines that the
/// listing gave: for one call the line of that call, for more how many there
/// are and the different lines in increasing order.
pub proof fn law_every_called_file_has_its_row(
    output: Seq<char>,
    h: int,
    b: int,
    s: int,
    file: Seq<char>,
    numbers: Seq<usize>,
)
    requires
        is_header(crate::text::lines_of(output), h, b),
        0 <= s < h,
        crate::grammar::trace_symbol(crate::text::lines_of(output)[s]) is Some,
        crate::text::lines_of(output).skip(b).filter(places_in(file)).len() > 0,
        forall|i: int, j: int|
            0 <= i < j < numbers.len() ==> #[trigger] numbers[i] < #[trigger] numbers[j],
        forall|n: usize| #[trigger]
            numbers.contains(n) <==> crate::text::lines_of(output).skip(b).filter(
                places_in(file),
            ).map_values(place_line()).contains(n),
    ensures
        ({
            let lines = crate::text::lines_of(output).skip(b);
            let shown = crate::text::lines_of(crate::trace::filtered(output));
            let calls = lines.filter(places_in(file)).len();
            let row = "  "@ + crate::path::file_name(file) + if calls == 1 {
                ":"@ + crate::text::decimal(numbers[0] as nat) + "  1x"@
            } else if numbers.len() == 1 {
                "  "@ + crate::text::decimal(calls) + "x (line: "@ + crate::text::decimal(
                    numbers[0] as nat,
                ) + ")"@
            } else if numbers.len() <= 5 {
                "  "@ + crate::text::decimal(calls) + "x (lines: "@ + crate::text::joined(
                    crate::text::decimals(numbers),
                    ","@,
                ) + ")"@
            } else {
                "  "@ + crate::text::decimal(calls) + "x (lines: "@ + crate::text::decimal(
                    numbers[0] as nat,
                ) + ","@ + crate::text::decimal(numbers[1] as nat) + ","@ + crate::text::decimal(
                    numbers[2] as nat,
                ) + ",...)"@
            };
            exists|k: int| 2 <= k < shown.len() && #[trigger] shown[k] == row
        }),
{
    let lines = crate::text::lines_of(output);
    let body = lines.skip(b);
    let shown = crate::text::lines_of(crate::trace::filtered(output));
    let groups = crate::trace::groups_of(body);
    let ranked = crate::trace::ranked(groups);
    let found = body.filter(places_in(file));
    let calls = found.map_values(place_line());
    let head = lines.take(h);
    assert(head[s] == lines[s]);
    law_listing_is_parted(lines, h, b);
    lemma_some_symbol(head, s);
    crate::trace_laws::law_one_row_per_file(output);
    law_calls_are_the_call_lines(body, file);
    crate::trace_laws::law_groups_are_the_files(body);
    let i = crate::trace::group_index(groups, file) as int;
    crate::trace_laws::lemma_group_index(groups, file);
    assert(crate::trace_laws::calls_in(body, file).len() > 0);
    assert(groups[i].lines == crate::trace_laws::calls_in(body, groups[i].file));
    let k = lemma_ranked_at(groups, i);
    crate::trace_laws::law_lines_are_sorted_and_distinct(calls);
    let sorted = crate::trace::sorted(calls);
    assert forall|n: usize| sorted.contains(n) <==> #[trigger] numbers.contains(n) by {
        assert(calls.contains(n) <==> sorted.contains(n));
    }
    crate::order_laws::lemma_increasing_equal(sorted, numbers);
    if calls.len() == 1 {
        assert(calls.drop_last() =~= Seq::empty());
        assert(crate::trace::sorted(calls.drop_last()) =~= Seq::empty());
        assert(sorted =~= calls);
    }
    lemma_row_text(ranked[k]);
    assert(shown[k + 2] == crate::trace::rows(ranked)[k]);
}

/// Where a group stands once ranked.
proof fn lemma_ranked_at(groups: Seq<crate::trace::CallGroupView>, i: int) -> (k: int)
    requires
        0 <= i < groups.len(),
    ensures
        0 <= k < crate::trace::ranked(groups).len(),
        crate::trace::ranked(groups)[k] == groups[i],
{
    broadcast use vstd::seq_lib::to_multiset_contains;

    let ranked = crate::trace::ranked(groups);
    crate::trace_laws::law_ranking_sorts(groups);
    assert(groups.contains(groups[i]));
    assert(groups.to_multiset().count(groups[i]) > 0);
    assert(ranked.contains(groups[i]));
    choose|k: int| 0 <= k < ranked.len() && ranked[k] == groups[i]
}

/// A file that one line of the listing calls, at line `n`, is shown with that
/// line.
pub proof fn law_single_call_is_shown_at_its_line(
    output: Seq<char>,
    h: int,
    b: int,
    s: int,
    i: int,
    indent: Seq<char>,
    path: Seq<char>,
    n: usize,
)
    requires
        is_header(crate::text::lines_of(output), h, b),
        0 <= s < h,
        crate::grammar::trace_symbol(crate::text::lines_of(output)[s]) is Some,
        b <= i < crate::text::lines_of(output).len(),
        crate::text::lines_of(output)[i] == indent + "Calls at: "@ + path + ":"@
            + crate::text::decimal(n as nat),
        crate::grammar_laws::blank(indent),
        crate::grammar_laws::phrase(path),
        forall|j: int|
            b <= j < crate::text::lines_of(output).len() && j != i ==> !places_in(path)(
                #[trigger] crate::text::lines_of(output)[j],
            ),
    ensures
        exists|k: int|
            2 <= k < crate::text::lines_of(crate::trace::filtered(output)).len()
                && #[trigger] crate::text::lines_of(crate::trace::filtered(output))[k] == "  "@
                + crate::path::file_name(path) + (":"@ + crate::text::decimal(n as nat) + "  1x"@),
{
    let lines = crate::text::lines_of(output);
    let body = lines.skip(b);
    let number = crate::text::decimal(n as nat);
    crate::layout::lemma_decimal(n as nat);
    assert(crate::grammar_laws::digits(number));
    crate::grammar_laws::law_trace_calls_at(lines[i], path, number);
    assert(Seq::<char>::empty() + number =~= number);
    crate::text_laws::law_line_numbers_read_back(Seq::empty(), n as nat);
    assert(body[i - b] == lines[i]);
    assert forall|j: int| 0 <= j < body.len() && j != i - b implies !places_in(path)(
        #[trigger] body[j],
    ) by {
        assert(body[j] == lines[j + b]);
    }
    lemma_filter_one(body, i - b, places_in(path));
    let found = body.filter(places_in(path));
    let calls = found.map_values(place_line());
    assert(calls =~= seq![n]);
    assert forall|m: usize| #[trigger] seq![n].contains(m) <==> calls.contains(m) by {
    }
    law_every_called_file_has_its_row(output, h, b, s, path, seq![n]);
}

/// One line that fits is all that is left of lines none else of which fits.
proof fn lemma_filter_one(lines: Seq<Seq<char>>, i: int, fits: spec_fn(Seq<char>) -> bool)
    requires
        0 <= i < lines.len(),
        fits(lines[i]),
        forall|j: int| 0 <= j < lines.len() && j != i ==> !fits(#[trigger] lines[j]),
    ensures
        lines.filter(fits) == seq![lines[i]],
    decreases lines.len(),
{
    reveal(Seq::filter);
    let shorter = lines.drop_last();
    assert forall|j: int| 0 <= j < shorter.len() implies #[trigger] shorter[j] == lines[j] by {
    }
    if i == lines.len() - 1 {
        lemma_filter_none(shorter, fits);
        assert(lines.filter(fits) =~= seq![lines[i]]);
    } else {
        assert(!fits(lines[lines.len() - 1]));
        lemma_filter_one(shorter, i, fits);
    }
}

/// Nothing is left of lines none of which fits.
proof fn lemma_filter_none(lines: Seq<Seq<char>>, fits: spec_fn(Seq<char>) -> bool)
    requires
        forall|j: int| 0 <= j < lines.len() ==> !fits(#[trigger] lines[j]),
    ensures
        lines.filter(fits).len() == 0,
    decreases lines.len(),
{
    reveal(Seq::filter);
    if lines.len() > 0 {
        assert(!fits(lines[lines.len() - 1]));
        assert forall|j: int| 0 <= j < lines.drop_last().len() implies !fits(
            #[trigger] lines.drop_last()[j],
        ) by {
            assert(lines.drop_last()[j] == lines[j]);
        }
        lemma_filter_none(lines.drop_last(), fits);
    }
}

/// The header ends with the first of the first six lines that announces callers
/// or callees, and the calls are read behind it.
pub proof fn law_first_count_ends_the_header(lines: Seq<Seq<char>>, c: int)
    requires
        0 <= c < lines.len(),
        c < 6,
        crate::grammar::trace_caller_count(lines[c]) is Some,
        forall|i: int|
            0 <= i < c ==> crate::grammar::trace_caller_count(#[trigger] lines[i]) is None,
    ensures
        crate::trace::header_lines(lines) == lines.take(c + 1),
        crate::trace::body_lines(lines) == lines.skip(c + 1),
{
    law_listing_is_parted(lines, c + 1, c + 1);
}

/// A listing none of whose first six lines announces callers or callees has
/// those for its header, or all lines where there are fewer, and calls are read
/// from all of its lines.
pub proof fn law_header_is_at_most_six_lines(lines: Seq<Seq<char>>)
    requires
        forall|i: int|
            0 <= i < lines.len() && i < 6 ==> crate::grammar::trace_caller_count(
                #[trigger] lines[i],
            ) is None,
    ensures
        lines.len() <= 6 ==> crate::trace::header_lines(lines) == lines,
        lines.len() > 6 ==> crate::trace::header_lines(lines) == lines.take(6),
        crate::trace::body_lines(lines) == lines,
{
    let n = if lines.len() < 6 {
        lines.len() as int
    } else {
        6
    };
    law_listing_is_parted(lines, n, 0);
    assert(lines.take(lines.len() as int) =~= lines);
    assert(lines.skip(0) =~= lines);
}

/// What a header and a group hold is what their fields hold.
pub proof fn law_views_are_the_fields(
    header: crate::trace::TraceHeader,
    groups: Seq<crate::trace::CallGroup>,
)
    ensures
        header@.symbol_name == header.symbol_name@,
        header@.symbol_type == header.symbol_type@,
        header@.symbol_file == header.symbol_file@,
        header@.symbol_line == header.symbol_line@,
        header@.relation == header.relation@,
        header@.total_count == header.total_count,
        crate::trace::group_views(groups).len() == groups.len(),
        forall|i: int|
            0 <= i < groups.len() ==> (#[trigger] crate::trace::group_views(groups)[i]).file
                == groups[i].file@ && crate::trace::group_views(groups)[i].lines
                == groups[i].lines@,
{
}

/// What `filter_trace` returns: of output whose header names a symbol the report
/// of its calls, of other output the output, trimmed.
pub proof fn law_filter_trace_reports_listings(output: &str, out: String, h: int, b: int)
    requires
        call_ensures(crate::trace::filter_trace, (output,), out),
        is_header(crate::text::lines_of(output@), h, b),
    ensures
        ({
            let lines = crate::text::lines_of(output@);
            &&& (exists|s: int|
                0 <= s < h && crate::grammar::trace_symbol(#[trigger] lines[s]) is Some) ==> out@
                == crate::trace::report(
                crate::trace::header_of(lines.take(h)),
                crate::trace::ranked(crate::trace::groups_of(lines.skip(b))),
            )
            &&& (forall|s: int|
                0 <= s < h ==> crate::grammar::trace_symbol(#[trigger] lines[s]) is None) ==> out@
                == crate::text::trimmed(output@)
        }),
{
    law_listings_are_reported(output@, h, b);
}

/// The first line to place a call in a file does so, and none before it.
proof fn lemma_first_call(lines: Seq<Seq<char>>, file: Seq<char>)
    ensures
        (crate::trace_laws::first_call(lines, file) matches Some(k) ==> k < lines.len()
            && places_in(file)(lines[k as int]) && forall|x: int|
            0 <= x < k ==> !places_in(file)(#[trigger] lines[x])),
    decreases lines.len(),
{
    if lines.len() > 0 {
        let shorter = lines.drop_last();
        lemma_first_call(shorter, file);
        assert forall|x: int| 0 <= x < shorter.len() implies #[trigger] lines[x] == shorter[x] by {
        }
        if crate::trace_laws::first_call(shorter, file) is None {
            lemma_never_called(shorter, file);
            assert(lines.last() == lines[lines.len() - 1]);
        }
    }
}

/// A file without a first call has none.
proof fn lemma_never_called(lines: Seq<Seq<char>>, file: Seq<char>)
    requires
        crate::trace_laws::first_call(lines, file) is None,
    ensures
        forall|x: int| 0 <= x < lines.len() ==> !places_in(file)(#[trigger] lines[x]),
    decreases lines.len(),
{
    if lines.len() > 0 {
        let shorter = lines.drop_last();
        lemma_never_called(shorter, file);
        assert forall|x: int| 0 <= x < lines.len() implies !places_in(file)(
            #[trigger] lines[x],
        ) by {
            if x < shorter.len() {
                assert(shorter[x] == lines[x]);
            } else {
                assert(lines[x] == lines.last());
            }
        }
    }
}

/// Files are grouped in the order of the listing: a line calls the file of an
/// earlier group before any line calls that of a later one.
pub proof fn law_files_called_first_come_first(lines: Seq<Seq<char>>, i: int, j: int) -> (x: int)
    requires
        0 <= i < j < crate::trace::groups_of(lines).len(),
    ensures
        0 <= x < lines.len(),
        places_in(crate::trace::groups_of(lines)[i].file)(lines[x]),
        forall|y: int|
            0 <= y <= x ==> !places_in(crate::trace::groups_of(lines)[j].file)(
                #[trigger] lines[y],
            ),
{
    let groups = crate::trace::groups_of(lines);
    crate::trace_laws::law_groups_keep_the_order(lines);
    lemma_first_call(lines, groups[i].file);
    lemma_first_call(lines, groups[j].file);
    crate::trace_laws::first_call(lines, groups[i].file)->0 as int
}

/// Files with equally many calls keep their order, whatever number of calls.
pub proof fn law_equal_groups_keep_their_order(
    groups: Seq<crate::trace::CallGroupView>,
    calls: nat,
)
    ensures
        crate::trace::ranked(groups).filter(
            |group: crate::trace::CallGroupView| group.lines.len() == calls,
        ) == groups.filter(|group: crate::trace::CallGroupView| group.lines.len() == calls),
{
    crate::trace_laws::law_ranking_sorts(groups);
    lemma_with_calls(crate::trace::ranked(groups), calls);
    lemma_with_calls(groups, calls);
}

/// The groups with exactly so many calls are left of all.
proof fn lemma_with_calls(groups: Seq<crate::trace::CallGroupView>, calls: nat)
    ensures
        crate::trace_laws::with_calls(groups, calls) == groups.filter(
            |group: crate::trace::CallGroupView| group.lines.len() == calls,
        ),
    decreases groups.len(),
{
    reveal(Seq::filter);
    let fits = |group: crate::trace::CallGroupView| group.lines.len() == calls;
    if groups.len() > 0 {
        let rest = groups.drop_first();
        lemma_with_calls(rest, calls);
        assert(groups =~= seq![groups[0]] + rest);
        Seq::filter_distributes_over_add(seq![groups[0]], rest, fits);
        let one = seq![groups[0]];
        assert(one.drop_last().filter(fits) =~= Seq::empty());
        assert(one.filter(fits) =~= if fits(groups[0]) {
            one
        } else {
            Seq::empty()
        });
        assert(crate::trace_laws::with_calls(groups, calls) =~= groups.filter(fits));
    } else {
        assert(crate::trace_laws::with_calls(groups, calls) =~= groups.filter(fits));
    }
}

} // verus!
