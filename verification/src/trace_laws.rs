//! What holds of every trace listing and its report.

use vstd::prelude::*;

verus! {

/// Whether the header of `output` names a symbol.
pub open spec fn is_listing(output: Seq<char>) -> bool {
    crate::trace::symbol_in(crate::trace::header_lines(crate::text::lines_of(output))) is Some
}

/// The lines of the calls in `file`, in the order of the listing.
pub open spec fn calls_in(lines: Seq<Seq<char>>, file: Seq<char>) -> Seq<usize>
    decreases lines.len(),
{
    if lines.len() == 0 {
        Seq::empty()
    } else {
        match crate::grammar::trace_calls_at(lines.last()) {
            Some((path, number)) if path == file => calls_in(lines.drop_last(), file).push(
                crate::trace::line_value(number),
            ),
            _ => calls_in(lines.drop_last(), file),
        }
    }
}

/// Where the listing first places a call in `file`.
pub open spec fn first_call(lines: Seq<Seq<char>>, file: Seq<char>) -> Option<nat>
    decreases lines.len(),
{
    if lines.len() == 0 {
        None
    } else {
        match first_call(lines.drop_last(), file) {
            Some(k) => Some(k),
            None => match crate::grammar::trace_calls_at(lines.last()) {
                Some((path, number)) if path == file => Some((lines.len() - 1) as nat),
                _ => None,
            },
        }
    }
}

/// The groups with exactly `calls` calls, in their order.
pub open spec fn with_calls(groups: Seq<crate::trace::CallGroupView>, calls: nat) -> Seq<
    crate::trace::CallGroupView,
>
    decreases groups.len(),
{
    if groups.len() == 0 {
        Seq::empty()
    } else if groups[0].lines.len() == calls {
        seq![groups[0]] + with_calls(groups.drop_first(), calls)
    } else {
        with_calls(groups.drop_first(), calls)
    }
}

/// A symbol that lines name has a name and a type, both without line endings.
proof fn lemma_symbol_in(lines: Seq<Seq<char>>)
    requires
        crate::trace::symbol_in(lines) is Some,
    ensures
        crate::trace::symbol_in(lines) matches Some((name, kind)) && crate::pattern::is_phrase(name)
            && crate::pattern::is_word(kind),
    decreases lines.len(),
{
    if crate::grammar::trace_symbol(lines.last()) is Some {
        let (name, kind) = crate::grammar::trace_symbol(lines.last())->0;
        assert(crate::pattern::is_trace_symbol(lines.last(), name, kind));
    } else {
        lemma_symbol_in(lines.drop_last());
    }
}

/// A trace is reported exactly where its header names a symbol; other output
/// passes through, trimmed.
pub proof fn law_other_output_passes_through(output: Seq<char>)
    ensures
        ({
            let lines = crate::text::lines_of(output);
            if is_listing(output) {
                crate::trace::filtered(output) == crate::trace::report(
                    crate::trace::header_of(crate::trace::header_lines(lines)),
                    crate::trace::ranked(
                        crate::trace::groups_of(crate::trace::body_lines(lines)),
                    ),
                )
            } else {
                crate::trace::filtered(output) == crate::text::trimmed(output)
            }
        }),
{
    if is_listing(output) {
        lemma_symbol_in(crate::trace::header_lines(crate::text::lines_of(output)));
    }
}

/// The header is read as it is laid out: the symbol, its file, an empty line,
/// and the announcement of callers or callees, behind which the body begins.
pub proof fn law_header_is_read(
    lines: Seq<Seq<char>>,
    name: Seq<char>,
    kind: Seq<char>,
    path: Seq<char>,
    number: Option<Seq<char>>,
    relation: Seq<char>,
    count: Seq<char>,
)
    requires
        lines.len() >= 4,
        crate::pattern::is_trace_symbol(lines[0], name, kind),
        crate::pattern::is_trace_symbol_file(lines[1], path, number),
        lines[2].len() == 0,
        crate::pattern::is_trace_caller_count(lines[3], relation, count),
    ensures
        crate::trace::header_of(crate::trace::header_lines(lines)) == (
        crate::trace::TraceHeaderView {
            symbol_name: name,
            symbol_type: kind,
            symbol_file: path,
            symbol_line: match number {
                Some(number) => number,
                None => Seq::empty(),
            },
            relation: crate::trace::lower_relation(relation),
            total_count: crate::text::count_value(count),
        }),
        crate::trace::body_lines(lines) == lines.skip(4),
{
    crate::grammar::lemma_trace_symbol(lines[0], name, kind);
    crate::grammar::lemma_trace_symbol_file(lines[1], path, number);
    crate::grammar::lemma_trace_caller_count(lines[3], relation, count);
    reveal_strlit("Symbol: ");
    reveal_strlit("File: ");
    reveal_strlit("Callers");
    reveal_strlit("Callees");
    assert(lines[0][0] == 'S');
    assert(lines[1][0] == 'F') by {
        if number is Some {
            assert(crate::pattern::is_numbered_file(lines[1], path, number->0));
        }
    }
    assert(lines[3][0] == 'C');
    assert forall|k: int| 0 <= k < 3 implies crate::grammar::trace_caller_count(
        #[trigger] lines[k],
    ) is None by {
        lemma_no_caller_count(lines[k]);
    }
    assert forall|k: int| 1 <= k < 4 implies crate::grammar::trace_symbol(#[trigger] lines[k])
        is None by {
        assert forall|n: Seq<char>, t: Seq<char>|
            !crate::pattern::is_trace_symbol(lines[k], n, t) by {
            if crate::pattern::is_trace_symbol(lines[k], n, t) {
                assert(lines[k][0] == 'S');
            }
        }
    }
    assert(crate::grammar::trace_symbol_file(lines[0]) is None) by {
        crate::trace::lemma_symbol_is_no_file(lines[0]);
    }
    let l1 = lines.take(1);
    let l2 = lines.take(2);
    let l3 = lines.take(3);
    let l4 = lines.take(4);
    assert(l1.drop_last() =~= Seq::empty());
    assert(l2.drop_last() =~= l1);
    assert(l3.drop_last() =~= l2);
    assert(l4.drop_last() =~= l3);
    assert(crate::trace::first_count(l1.drop_last()) is None);
    assert(crate::trace::first_count(l1) is None);
    assert(crate::trace::first_count(l2) is None);
    assert(crate::trace::first_count(l3) is None);
    assert(crate::trace::first_count(l4) == Some(3nat));
    let first = crate::trace::head(lines);
    assert(first.take(4) =~= l4);
    crate::trace::lemma_first_count_stays(first, 4);
    assert(crate::trace::header_lines(lines) == l4);
    assert(crate::trace::place_in(l1.drop_last()) is None);
    assert(crate::trace::place_in(l1) is None);
    assert(crate::trace::place_in(l2) == Some((path, number)));
    assert(crate::trace::place_in(l3) == Some((path, number)));
    assert(crate::trace::symbol_in(l1) == Some((name, kind)));
    assert(crate::trace::symbol_in(l2) == Some((name, kind)));
    assert(crate::trace::symbol_in(l3) == Some((name, kind)));
}

/// A line that does not start with a `C` announces nothing.
proof fn lemma_no_caller_count(line: Seq<char>)
    requires
        line.len() == 0 || line[0] != 'C',
    ensures
        crate::grammar::trace_caller_count(line) is None,
{
    reveal_strlit("Callers");
    reveal_strlit("Callees");
    assert forall|relation: Seq<char>, count: Seq<char>|
        !crate::pattern::is_trace_caller_count(line, relation, count) by {
        if crate::pattern::is_trace_caller_count(line, relation, count) {
            assert(line[0] == relation[0]);
        }
    }
}

/// Code bodies are stripped: a line behind the one that announces callers or
/// callees that places no call makes no difference to the report.
pub proof fn law_code_is_stripped(
    output: Seq<char>,
    shorter: Seq<char>,
    before: Seq<Seq<char>>,
    code: Seq<char>,
    after: Seq<Seq<char>>,
)
    requires
        is_listing(output),
        crate::trace::first_count(crate::trace::head(before)) is Some,
        crate::grammar::trace_calls_at(code) is None,
        crate::text::lines_of(output) == before.push(code) + after,
        crate::text::lines_of(shorter) == before + after,
    ensures
        crate::trace::filtered(output) == crate::trace::filtered(shorter),
{
    let long = before.push(code) + after;
    let short = before + after;
    let k = crate::trace::first_count(crate::trace::head(before))->0 as int;
    assert(long =~= before + (seq![code] + after));
    lemma_header_stays(before, seq![code] + after);
    lemma_header_stays(before, after);
    assert(long.skip(k + 1) =~= before.skip(k + 1).push(code) + after);
    assert(short.skip(k + 1) =~= before.skip(k + 1) + after);
    lemma_code_adds_nothing(before.skip(k + 1), code, after);
    law_other_output_passes_through(output);
    law_other_output_passes_through(shorter);
}

/// Lines behind the one that announces callers or callees change nothing in
/// the header.
pub proof fn lemma_header_stays(before: Seq<Seq<char>>, after: Seq<Seq<char>>)
    requires
        crate::trace::first_count(crate::trace::head(before)) is Some,
    ensures
        ({
            let k = crate::trace::first_count(crate::trace::head(before))->0 as int;
            &&& k < before.len()
            &&& crate::trace::header_lines(before + after) == before.take(k + 1)
            &&& crate::trace::body_lines(before + after) == (before + after).skip(k + 1)
        }),
{
    let first = crate::trace::head(before);
    let all = crate::trace::head(before + after);
    lemma_first_count(first);
    assert(all.take(first.len() as int) =~= first);
    crate::trace::lemma_first_count_stays(all, first.len() as int);
    let k = crate::trace::first_count(first)->0 as int;
    assert(all.take(k + 1) =~= before.take(k + 1));
}

/// A line that places no call changes no group.
proof fn lemma_code_adds_nothing(before: Seq<Seq<char>>, code: Seq<char>, after: Seq<Seq<char>>)
    requires
        crate::grammar::trace_calls_at(code) is None,
    ensures
        crate::trace::groups_of(before.push(code) + after) == crate::trace::groups_of(
            before + after,
        ),
    decreases after.len(),
{
    let long = before.push(code) + after;
    let short = before + after;
    if after.len() == 0 {
        assert(long =~= before.push(code));
        assert(short =~= before);
        assert(before.push(code).drop_last() =~= before);
    } else {
        assert(long.drop_last() =~= before.push(code) + after.drop_last());
        assert(short.drop_last() =~= before + after.drop_last());
        lemma_code_adds_nothing(before, code, after.drop_last());
    }
}

/// Where the group of a file stands, if there is one.
pub proof fn lemma_group_index(groups: Seq<crate::trace::CallGroupView>, file: Seq<char>)
    ensures
        crate::trace::group_index(groups, file) <= groups.len(),
        crate::trace::group_index(groups, file) < groups.len() ==> groups[crate::trace::group_index(
            groups,
            file,
        ) as int].file == file,
        forall|i: int|
            0 <= i < crate::trace::group_index(groups, file) ==> (#[trigger] groups[i]).file
                != file,
    decreases groups.len(),
{
    if groups.len() > 0 && groups[0].file != file {
        let rest = groups.drop_first();
        lemma_group_index(rest, file);
        let n = crate::trace::group_index(groups, file) as int;
        assert(n < groups.len() ==> groups[n] == rest[n - 1]);
        assert forall|i: int| 0 <= i < n implies (#[trigger] groups[i]).file != file by {
            if i > 0 {
                assert(groups[i] == rest[i - 1]);
            }
        }
    }
}

/// Calls are grouped by file: every group holds all calls in its file, in the
/// order of the listing, and at least one; no file has two groups; and every
/// file in which the listing places a call has a group.
pub proof fn law_groups_are_the_files(lines: Seq<Seq<char>>)
    ensures
        forall|i: int|
            0 <= i < crate::trace::groups_of(lines).len() ==> (
            #[trigger] crate::trace::groups_of(lines)[i]).lines == calls_in(
                lines,
                crate::trace::groups_of(lines)[i].file,
            ) && crate::trace::groups_of(lines)[i].lines.len() > 0,
        forall|i: int, j: int|
            0 <= i < j < crate::trace::groups_of(lines).len() ==> (
            #[trigger] crate::trace::groups_of(lines)[i]).file != (
            #[trigger] crate::trace::groups_of(lines)[j]).file,
        forall|file: Seq<char>| #[trigger]
            calls_in(lines, file).len() > 0 ==> crate::trace::group_index(
                crate::trace::groups_of(lines),
                file,
            ) < crate::trace::groups_of(lines).len(),
    decreases lines.len(),
{
    let groups = crate::trace::groups_of(lines);
    if lines.len() > 0 {
        let shorter = lines.drop_last();
        let earlier = crate::trace::groups_of(shorter);
        law_groups_are_the_files(shorter);
        if crate::grammar::trace_calls_at(lines.last()) is Some {
            let (file, number) = crate::grammar::trace_calls_at(lines.last())->0;
            let n = crate::trace::group_index(earlier, file) as int;
            lemma_group_index(earlier, file);
            if n >= earlier.len() {
                assert(calls_in(shorter, file).len() == 0);
            }
            assert forall|i: int| 0 <= i < groups.len() implies (#[trigger] groups[i]).lines
                == calls_in(lines, groups[i].file) && groups[i].lines.len() > 0 by {
                if i < earlier.len() {
                    assert(earlier[i].lines == calls_in(shorter, earlier[i].file));
                    if i == n {
                        assert(groups[i].file == file);
                        assert(earlier[i].file == file);
                    } else {
                        assert(groups[i] == earlier[i]);
                        if earlier[i].file == file {
                            if i < n {
                                assert(earlier[i].file != file);
                            } else {
                                assert(earlier[n].file != earlier[i].file);
                            }
                        }
                    }
                } else {
                    assert(groups[i].lines =~= calls_in(lines, file));
                }
            }
            assert forall|i: int, j: int| 0 <= i < j < groups.len() implies (
            #[trigger] groups[i]).file != (#[trigger] groups[j]).file by {
                assert(i < earlier.len());
                assert(groups[i].file == earlier[i].file);
                if j < earlier.len() {
                    assert(groups[j].file == earlier[j].file);
                    assert(earlier[i].file != earlier[j].file);
                }
            }
            assert forall|f: Seq<char>| #[trigger] calls_in(lines, f).len() > 0 implies
                crate::trace::group_index(groups, f) < groups.len() by {
                lemma_group_index(groups, f);
                if f == file {
                    if n < earlier.len() {
                        assert(groups[n].file == f);
                    } else {
                        assert(groups[earlier.len() as int].file == f);
                    }
                } else {
                    assert(calls_in(shorter, f).len() > 0);
                    let m = crate::trace::group_index(earlier, f) as int;
                    lemma_group_index(earlier, f);
                    assert(groups[m].file == earlier[m].file);
                }
            }
        } else {
            assert forall|i: int| 0 <= i < groups.len() implies (#[trigger] groups[i]).lines
                == calls_in(lines, groups[i].file) && groups[i].lines.len() > 0 by {
                assert(earlier[i].lines == calls_in(shorter, earlier[i].file));
            }
            assert forall|f: Seq<char>| #[trigger] calls_in(lines, f).len() > 0 implies
                crate::trace::group_index(groups, f) < groups.len() by {
                assert(calls_in(shorter, f).len() > 0);
            }
        }
    }
}

/// The groups come in the order in which the listing first places a call in
/// their files.
pub proof fn law_groups_keep_the_order(lines: Seq<Seq<char>>)
    ensures
        forall|i: int|
            0 <= i < crate::trace::groups_of(lines).len() ==> first_call(
                lines,
                (#[trigger] crate::trace::groups_of(lines)[i]).file,
            ) is Some,
        forall|i: int, j: int|
            0 <= i < j < crate::trace::groups_of(lines).len() ==> first_call(
                lines,
                (#[trigger] crate::trace::groups_of(lines)[i]).file,
            )->0 < first_call(lines, (#[trigger] crate::trace::groups_of(lines)[j]).file)->0,
        forall|file: Seq<char>|
            (#[trigger] first_call(lines, file) matches Some(k) ==> k < lines.len()),
    decreases lines.len(),
{
    let groups = crate::trace::groups_of(lines);
    if lines.len() > 0 {
        let shorter = lines.drop_last();
        let earlier = crate::trace::groups_of(shorter);
        law_groups_keep_the_order(shorter);
        assert forall|file: Seq<char>|
            (#[trigger] first_call(lines, file) matches Some(k) ==> k < lines.len()) by {
            assert(first_call(shorter, file) matches Some(k) ==> k < shorter.len());
        }
        assert forall|i: int| 0 <= i < earlier.len() implies first_call(
            lines,
            (#[trigger] earlier[i]).file,
        ) == first_call(shorter, earlier[i].file) by {
        }
        if crate::grammar::trace_calls_at(lines.last()) is Some {
            let (file, number) = crate::grammar::trace_calls_at(lines.last())->0;
            lemma_group_index(earlier, file);
            let n = crate::trace::group_index(earlier, file) as int;
            assert forall|i: int| 0 <= i < earlier.len() implies (#[trigger] groups[i]).file
                == earlier[i].file by {
            }
            if n >= earlier.len() {
                assert(first_call(shorter, file) is None) by {
                    law_groups_are_the_files(shorter);
                    lemma_first_call(shorter, file);
                }
                assert(groups[n].file == file);
            }
        }
        assert forall|i: int| 0 <= i < groups.len() implies first_call(
            lines,
            (#[trigger] groups[i]).file,
        ) is Some by {
            if i < earlier.len() {
                assert(groups[i].file == earlier[i].file);
            }
        }
        assert forall|i: int, j: int| 0 <= i < j < groups.len() implies first_call(
            lines,
            (#[trigger] groups[i]).file,
        )->0 < first_call(lines, (#[trigger] groups[j]).file)->0 by {
            assert(groups[i].file == earlier[i].file);
            if j < earlier.len() {
                assert(groups[j].file == earlier[j].file);
                assert(first_call(shorter, earlier[i].file)->0 < first_call(
                    shorter,
                    earlier[j].file,
                )->0);
            } else {
                assert(first_call(shorter, earlier[i].file) is Some);
            }
        }
    }
}

/// A file with a first call has calls.
proof fn lemma_first_call(lines: Seq<Seq<char>>, file: Seq<char>)
    ensures
        first_call(lines, file) is Some <==> calls_in(lines, file).len() > 0,
    decreases lines.len(),
{
    if lines.len() > 0 {
        lemma_first_call(lines.drop_last(), file);
    }
}

/// Where a group of so many calls belongs.
proof fn lemma_rank(groups: Seq<crate::trace::CallGroupView>, calls: nat)
    ensures
        crate::trace::rank(groups, calls) <= groups.len(),
        forall|i: int|
            0 <= i < crate::trace::rank(groups, calls) ==> (#[trigger] groups[i]).lines.len()
                > calls,
        crate::trace::rank(groups, calls) < groups.len() ==> groups[crate::trace::rank(
            groups,
            calls,
        ) as int].lines.len() <= calls,
    decreases groups.len(),
{
    if groups.len() > 0 && groups[0].lines.len() > calls {
        let rest = groups.drop_first();
        lemma_rank(rest, calls);
        let n = crate::trace::rank(groups, calls) as int;
        assert(n < groups.len() ==> groups[n] == rest[n - 1]);
        assert forall|i: int| 0 <= i < n implies (#[trigger] groups[i]).lines.len() > calls by {
            if i > 0 {
                assert(groups[i] == rest[i - 1]);
            }
        }
    }
}

/// A group among others is found with those of as many calls: in front of
/// them, where no group before it has as many or fewer.
proof fn lemma_with_calls_insert(
    groups: Seq<crate::trace::CallGroupView>,
    at: int,
    group: crate::trace::CallGroupView,
    calls: nat,
)
    requires
        0 <= at <= groups.len(),
        forall|i: int| 0 <= i < at ==> (#[trigger] groups[i]).lines.len() > group.lines.len(),
    ensures
        with_calls(groups.insert(at, group), calls) == if group.lines.len() == calls {
            seq![group] + with_calls(groups, calls)
        } else {
            with_calls(groups, calls)
        },
    decreases at,
{
    let all = groups.insert(at, group);
    groups.insert_ensures(at, group);
    if at == 0 {
        assert(all.drop_first() =~= groups);
        assert(all[0] == group);
    } else {
        let rest = groups.drop_first();
        assert(all[0] == groups[0]);
        assert(all.drop_first() =~= rest.insert(at - 1, group));
        assert forall|i: int| 0 <= i < at - 1 implies (#[trigger] rest[i]).lines.len()
            > group.lines.len() by {
            assert(rest[i] == groups[i + 1]);
        }
        lemma_with_calls_insert(rest, at - 1, group, calls);
        assert(groups[0].lines.len() > group.lines.len());
    }
}

/// Ranking orders the groups by number of calls, most first. It keeps every
/// group, adds none, and leaves groups with equally many calls in their order.
pub proof fn law_ranking_sorts(groups: Seq<crate::trace::CallGroupView>)
    ensures
        crate::trace::ranked(groups).to_multiset() == groups.to_multiset(),
        crate::trace::ranked(groups).len() == groups.len(),
        forall|i: int, j: int|
            0 <= i < j < groups.len() ==> (#[trigger] crate::trace::ranked(groups)[i]).lines.len()
                >= (#[trigger] crate::trace::ranked(groups)[j]).lines.len(),
        forall|calls: nat| #[trigger]
            with_calls(crate::trace::ranked(groups), calls) == with_calls(groups, calls),
    decreases groups.len(),
{
    if groups.len() > 0 {
        let rest = groups.drop_first();
        let first = groups[0];
        let later = crate::trace::ranked(rest);
        law_ranking_sorts(rest);
        let calls = first.lines.len();
        lemma_rank(later, calls);
        let at = crate::trace::rank(later, calls) as int;
        let all = crate::trace::ranked(groups);
        later.insert_ensures(at, first);
        assert(all == later.insert(at, first));
        vstd::seq_lib::to_multiset_insert(later, at, first);
        vstd::seq_lib::to_multiset_insert(rest, 0, first);
        assert(rest.insert(0, first) =~= groups);
        assert forall|i: int, j: int| 0 <= i < j < groups.len() implies (
        #[trigger] all[i]).lines.len() >= (#[trigger] all[j]).lines.len() by {
            let p = if i < at {
                i
            } else {
                i - 1
            };
            let q = if j < at {
                j
            } else {
                j - 1
            };
            assert(i != at ==> all[i] == later[p]);
            assert(j != at ==> all[j] == later[q]);
            if i == at {
                assert(later[at].lines.len() <= calls);
                if q > at {
                    assert(later[at].lines.len() >= later[q].lines.len());
                }
            } else if j == at {
                assert(later[p].lines.len() > calls);
            } else if p < q {
                assert(later[p].lines.len() >= later[q].lines.len());
            }
        }
        assert forall|n: nat| #[trigger] with_calls(all, n) == with_calls(groups, n) by {
            lemma_with_calls_insert(later, at, first, n);
            assert(with_calls(later, n) == with_calls(rest, n));
        }
    } else {
        assert(crate::trace::ranked(groups) =~= groups);
    }
}

/// Where a number belongs among increasing ones.
proof fn lemma_number_index(numbers: Seq<usize>, n: usize)
    ensures
        crate::trace::number_index(numbers, n) <= numbers.len(),
        forall|i: int|
            0 <= i < crate::trace::number_index(numbers, n) ==> #[trigger] numbers[i] < n,
        crate::trace::number_index(numbers, n) < numbers.len()
            ==> numbers[crate::trace::number_index(numbers, n) as int] >= n,
    decreases numbers.len(),
{
    if numbers.len() > 0 && numbers[0] < n {
        let rest = numbers.drop_first();
        lemma_number_index(rest, n);
        let k = crate::trace::number_index(numbers, n) as int;
        assert(k < numbers.len() ==> numbers[k] == rest[k - 1]);
        assert forall|i: int| 0 <= i < k implies #[trigger] numbers[i] < n by {
            if i > 0 {
                assert(numbers[i] == rest[i - 1]);
            }
        }
    }
}

/// Whether the numbers increase from each to the next.
pub open spec fn is_increasing(numbers: Seq<usize>) -> bool {
    forall|i: int, j: int|
        0 <= i < j < numbers.len() ==> #[trigger] numbers[i] < #[trigger] numbers[j]
}

/// A number among increasing ones leaves them increasing.
proof fn lemma_with_number_increases(numbers: Seq<usize>, n: usize)
    requires
        is_increasing(numbers),
    ensures
        is_increasing(crate::trace::with_number(numbers, n)),
{
    let all = crate::trace::with_number(numbers, n);
    let at = crate::trace::number_index(numbers, n) as int;
    lemma_number_index(numbers, n);
    if !(at < numbers.len() && numbers[at] == n) {
        numbers.insert_ensures(at, n);
        assert forall|i: int, j: int| 0 <= i < j < all.len() implies #[trigger] all[i]
            < #[trigger] all[j] by {
            let p = if i < at {
                i
            } else {
                i - 1
            };
            let q = if j < at {
                j
            } else {
                j - 1
            };
            assert(i != at ==> all[i] == numbers[p]);
            assert(j != at ==> all[j] == numbers[q]);
            if i == at {
                if q > at {
                    assert(numbers[at] < numbers[q]);
                }
            } else if j == at {
                assert(numbers[p] < n);
            } else if p < q {
                assert(numbers[p] < numbers[q]);
            }
        }
    }
}

/// A number among others is there with them.
proof fn lemma_with_number_contains(numbers: Seq<usize>, n: usize, m: usize)
    ensures
        crate::trace::with_number(numbers, n).contains(m) <==> numbers.contains(m) || m == n,
{
    let all = crate::trace::with_number(numbers, n);
    let at = crate::trace::number_index(numbers, n) as int;
    lemma_number_index(numbers, n);
    if !(at < numbers.len() && numbers[at] == n) {
        numbers.insert_ensures(at, n);
        assert(all[at] == n);
        if numbers.contains(m) {
            let k = choose|k: int| 0 <= k < numbers.len() && numbers[k] == m;
            assert(k < at ==> all[k] == m);
            assert(k >= at ==> all[k + 1] == m);
        }
        if all.contains(m) && m != n {
            let k = choose|k: int| 0 <= k < all.len() && all[k] == m;
            assert(k < at ==> numbers[k] == m);
            assert(k > at ==> numbers[k - 1] == m);
        }
    }
}

/// The lines of a row are the lines of the calls, in increasing order, each
/// once.
pub proof fn law_lines_are_sorted_and_distinct(numbers: Seq<usize>)
    ensures
        is_increasing(crate::trace::sorted(numbers)),
        forall|n: usize|
            crate::trace::sorted(numbers).contains(n) <==> #[trigger] numbers.contains(n),
    decreases numbers.len(),
{
    if numbers.len() > 0 {
        let shorter = numbers.drop_last();
        let last = numbers.last();
        let earlier = crate::trace::sorted(shorter);
        law_lines_are_sorted_and_distinct(shorter);
        lemma_with_number_increases(earlier, last);
        assert forall|n: usize|
            crate::trace::sorted(numbers).contains(n) <==> #[trigger] numbers.contains(n) by {
            lemma_with_number_contains(earlier, last, n);
            assert(earlier.contains(n) <==> shorter.contains(n));
            if numbers.contains(n) {
                let k = choose|k: int| 0 <= k < numbers.len() && numbers[k] == n;
                assert(k < shorter.len() ==> shorter[k] == n);
            }
            if shorter.contains(n) {
                let k = choose|k: int| 0 <= k < shorter.len() && shorter[k] == n;
                assert(numbers[k] == n);
            }
            assert(numbers[numbers.len() - 1] == last);
        }
    }
}

/// What is read of a header holds no line ending.
proof fn lemma_header_of(lines: Seq<Seq<char>>)
    ensures
        crate::layout::one_line(crate::trace::header_of(lines).symbol_name),
        crate::layout::one_line(crate::trace::header_of(lines).symbol_type),
        crate::layout::one_line(crate::trace::header_of(lines).symbol_file),
        crate::layout::one_line(crate::trace::header_of(lines).symbol_line),
        crate::layout::one_line(crate::trace::header_of(lines).relation),
{
    reveal_strlit("callers");
    reveal_strlit("callees");
    if crate::trace::symbol_in(lines) is Some {
        lemma_symbol_in(lines);
    }
    if crate::trace::place_in(lines) is Some {
        lemma_place_in(lines);
    }
}

/// A place that lines name has no line endings.
proof fn lemma_place_in(lines: Seq<Seq<char>>)
    requires
        crate::trace::place_in(lines) is Some,
    ensures
        crate::trace::place_in(lines) matches Some((path, number)) && crate::layout::one_line(path)
            && (number matches Some(n) ==> crate::layout::one_line(n)),
    decreases lines.len(),
{
    if crate::trace::place_in(lines.drop_last()) is Some {
        lemma_place_in(lines.drop_last());
    } else {
        let (path, number) = crate::grammar::trace_symbol_file(lines.last())->0;
        assert(crate::pattern::is_trace_symbol_file(lines.last(), path, number));
        if number is Some {
            assert(crate::pattern::is_numbered_file(lines.last(), path, number->0));
        }
    }
}

/// The title of a report is one line and ends in something visible.
proof fn lemma_title_visible(lines: Seq<Seq<char>>, files: nat)
    ensures
        crate::layout::visible(crate::trace::title(crate::trace::header_of(lines), files)),
        crate::trace::title(crate::trace::header_of(lines), files).last() == ':',
{
    broadcast use crate::layout::lemma_one_line_concat;

    let header = crate::trace::header_of(lines);
    lemma_header_of(lines);
    reveal_strlit(" (");
    reveal_strlit(") @ ");
    reveal_strlit(":");
    reveal_strlit(" — ");
    reveal_strlit(" ");
    reveal_strlit(" in ");
    reveal_strlit(" files:");
    crate::layout::lemma_decimal(header.total_count as nat);
    crate::layout::lemma_decimal(files);
    crate::layout::lemma_path_parts(header.symbol_file);
    assert(crate::layout::one_line(crate::trace::location(header)));
    let title = crate::trace::title(header, files);
    assert(title.last() == " files:"@[6]);
}

/// The files of a listing have no line endings in their names.
proof fn lemma_group_files(lines: Seq<Seq<char>>)
    ensures
        forall|i: int|
            0 <= i < crate::trace::groups_of(lines).len() ==> crate::layout::one_line(
                (#[trigger] crate::trace::groups_of(lines)[i]).file,
            ),
    decreases lines.len(),
{
    if lines.len() > 0 {
        let earlier = crate::trace::groups_of(lines.drop_last());
        lemma_group_files(lines.drop_last());
        if crate::grammar::trace_calls_at(lines.last()) is Some {
            let (file, number) = crate::grammar::trace_calls_at(lines.last())->0;
            assert(crate::pattern::is_trace_calls_at(lines.last(), file, number));
            let indent = choose|indent: Seq<char>|
                crate::pattern::is_call_after(lines.last(), indent, file, number);
            assert(crate::pattern::is_phrase(file));
            assert forall|i: int|
                0 <= i < crate::trace::groups_of(lines).len() implies crate::layout::one_line(
                (#[trigger] crate::trace::groups_of(lines)[i]).file,
            ) by {
                if i < earlier.len() {
                    assert(crate::layout::one_line(earlier[i].file));
                }
            }
        }
    }
}

/// The row of a file is one line and ends in something visible.
proof fn lemma_row_visible(group: crate::trace::CallGroupView)
    requires
        crate::layout::one_line(group.file),
    ensures
        crate::layout::visible(crate::trace::row(group)),
        crate::trace::row(group)[0] == ' ',
{
    broadcast use crate::layout::lemma_one_line_concat;

    let numbers = crate::trace::sorted(group.lines);
    reveal_strlit("  ");
    reveal_strlit(":");
    reveal_strlit("  1x");
    reveal_strlit("x (");
    reveal_strlit("line: ");
    reveal_strlit("lines: ");
    reveal_strlit(")");
    reveal_strlit(",");
    reveal_strlit(",...");
    crate::layout::lemma_path_parts(group.file);
    crate::layout::lemma_decimal(group.lines.len());
    let row = crate::trace::row(group);
    if group.lines.len() == 1 {
        crate::layout::lemma_decimal(numbers[0] as nat);
        assert(row.last() == "  1x"@[3]);
    } else {
        lemma_decimals(numbers);
        lemma_decimals(numbers.take(3));
        crate::layout::lemma_joined(crate::text::decimals(numbers), ","@);
        crate::layout::lemma_joined(crate::text::decimals(numbers.take(3)), ","@);
        assert(crate::layout::one_line(crate::trace::number_list(numbers)));
        assert(row.last() == ")"@[0]);
    }
}

/// Numbers in decimal have no line endings.
proof fn lemma_decimals(numbers: Seq<usize>)
    ensures
        forall|i: int|
            0 <= i < crate::text::decimals(numbers).len() ==> crate::layout::one_line(
                #[trigger] crate::text::decimals(numbers)[i],
            ),
{
    assert forall|i: int| 0 <= i < crate::text::decimals(numbers).len() implies
        crate::layout::one_line(#[trigger] crate::text::decimals(numbers)[i]) by {
        crate::layout::lemma_decimal(numbers[i] as nat);
    }
}

/// The rows of a listing are lines that end in something visible.
proof fn lemma_rows_visible(lines: Seq<Seq<char>>)
    ensures
        ({
            let rows = crate::trace::rows(crate::trace::ranked(crate::trace::groups_of(lines)));
            forall|k: int|
                0 <= k < rows.len() ==> crate::layout::visible(#[trigger] rows[k]) && rows[k][0]
                    == ' '
        }),
{
    let groups = crate::trace::groups_of(lines);
    let ranked = crate::trace::ranked(groups);
    let rows = crate::trace::rows(ranked);
    lemma_group_files(lines);
    law_ranking_sorts(groups);
    assert forall|k: int| 0 <= k < rows.len() implies crate::layout::visible(#[trigger] rows[k])
        && rows[k][0] == ' ' by {
        broadcast use vstd::seq_lib::to_multiset_contains;

        assert(ranked.contains(ranked[k]));
        assert(ranked.to_multiset().count(ranked[k]) > 0);
        assert(groups.contains(ranked[k]));
        let i = choose|i: int| 0 <= i < groups.len() && groups[i] == ranked[k];
        assert(crate::layout::one_line(groups[i].file));
        lemma_row_visible(ranked[k]);
    }
}

/// One line per file: the report of a trace is its title alone where it places
/// no call, and else the title, an empty line and one row per file. The title
/// says how many files there are.
pub proof fn law_one_row_per_file(output: Seq<char>)
    requires
        is_listing(output),
    ensures
        ({
            let lines = crate::text::lines_of(output);
            let header = crate::trace::header_of(crate::trace::header_lines(lines));
            let groups = crate::trace::ranked(
                crate::trace::groups_of(crate::trace::body_lines(lines)),
            );
            let title = crate::trace::title(header, groups.len());
            let shown = crate::text::lines_of(crate::trace::filtered(output));
            if groups.len() == 0 {
                shown == seq![title]
            } else {
                shown == seq![title, Seq::empty()] + crate::trace::rows(groups)
            }
        }),
{
    let lines = crate::text::lines_of(output);
    let header_lines = crate::trace::header_lines(lines);
    let header = crate::trace::header_of(header_lines);
    let body = crate::trace::body_lines(lines);
    let groups = crate::trace::ranked(crate::trace::groups_of(body));
    let title = crate::trace::title(header, groups.len());
    law_other_output_passes_through(output);
    lemma_title_visible(header_lines, groups.len());
    lemma_rows_visible(body);
    crate::layout::lemma_page(title, crate::trace::rows(groups));
    crate::layout::lemma_single_line(title);
}

/// A report is final: it is no listing itself, and passes through unchanged.
/// This leaves out a symbol whose name starts with white space: that report
/// starts with white space too, which a second pass trims away.
pub proof fn law_report_is_final(output: Seq<char>)
    requires
        is_listing(output),
        !crate::text::is_white_space(
            crate::trace::header_of(
                crate::trace::header_lines(crate::text::lines_of(output)),
            ).symbol_name[0],
        ),
    ensures
        crate::trace::filtered(crate::trace::filtered(output)) == crate::trace::filtered(output),
{
    let lines = crate::text::lines_of(output);
    let header_lines = crate::trace::header_lines(lines);
    let header = crate::trace::header_of(header_lines);
    let body = crate::trace::body_lines(lines);
    let groups = crate::trace::ranked(crate::trace::groups_of(body));
    let title = crate::trace::title(header, groups.len());
    let rows = crate::trace::rows(groups);
    let shown = crate::trace::filtered(output);
    let shown_lines = crate::text::lines_of(shown);
    law_other_output_passes_through(output);
    law_one_row_per_file(output);
    lemma_symbol_in(header_lines);
    lemma_title_visible(header_lines, groups.len());
    lemma_rows_visible(body);
    crate::layout::lemma_page(title, rows);
    assert(title[0] == header.symbol_name[0]);
    crate::layout::lemma_trimmed(shown);
    reveal_strlit("Symbol: ");
    reveal_strlit(")");
    assert forall|k: int| 0 <= k < shown_lines.len() implies crate::grammar::trace_symbol(
        #[trigger] shown_lines[k],
    ) is None by {
        let line = shown_lines[k];
        assert forall|name: Seq<char>, kind: Seq<char>|
            !crate::pattern::is_trace_symbol(line, name, kind) by {
            if crate::pattern::is_trace_symbol(line, name, kind) {
                assert(line.last() == ')');
                assert(line[0] == 'S');
                if k > 1 {
                    assert(line == rows[k - 2]);
                }
            }
        }
    }
    lemma_first_count(crate::trace::head(shown_lines));
    assert forall|k: int|
        0 <= k < crate::trace::header_lines(shown_lines).len() implies
        crate::grammar::trace_symbol(
        #[trigger] crate::trace::header_lines(shown_lines)[k],
    ) is None by {
        assert(crate::trace::header_lines(shown_lines)[k] == shown_lines[k]);
    }
    lemma_no_symbol(crate::trace::header_lines(shown_lines));
    law_other_output_passes_through(shown);
}

/// The first line to announce callers or callees does so, and none before it.
proof fn lemma_first_count(lines: Seq<Seq<char>>)
    ensures
        match crate::trace::first_count(lines) {
            Some(k) => k < lines.len() && crate::grammar::trace_caller_count(lines[k as int])
                is Some && forall|i: int|
                0 <= i < k ==> crate::grammar::trace_caller_count(#[trigger] lines[i]) is None,
            None => forall|i: int|
                0 <= i < lines.len() ==> crate::grammar::trace_caller_count(
                    #[trigger] lines[i],
                ) is None,
        },
    decreases lines.len(),
{
    if lines.len() > 0 {
        let shorter = lines.drop_last();
        lemma_first_count(shorter);
        assert forall|i: int| 0 <= i < shorter.len() implies #[trigger] lines[i] == shorter[i] by {
        }
    }
}

/// Lines none of which names a symbol name none together.
proof fn lemma_no_symbol(lines: Seq<Seq<char>>)
    requires
        forall|k: int|
            0 <= k < lines.len() ==> crate::grammar::trace_symbol(#[trigger] lines[k]) is None,
    ensures
        crate::trace::symbol_in(lines) is None,
    decreases lines.len(),
{
    if lines.len() > 0 {
        assert(lines[lines.len() - 1] == lines.last());
        assert forall|k: int| 0 <= k < lines.drop_last().len() implies
            crate::grammar::trace_symbol(#[trigger] lines.drop_last()[k]) is None by {
            assert(lines.drop_last()[k] == lines[k]);
        }
        lemma_no_symbol(lines.drop_last());
    }
}

} // verus!
