//! Why the order of the calls in a trace does not matter.

use vstd::prelude::*;

verus! {

/// The calls that the lines place, file and line of each, in their order.
pub open spec fn calls_of(lines: Seq<Seq<char>>) -> Seq<(Seq<char>, usize)>
    decreases lines.len(),
{
    if lines.len() == 0 {
        Seq::empty()
    } else {
        match crate::grammar::trace_calls_at(lines.last()) {
            Some((file, number)) => calls_of(lines.drop_last()).push(
                (file, crate::trace::line_value(number)),
            ),
            None => calls_of(lines.drop_last()),
        }
    }
}

/// Whether no two files hold equally many calls.
pub open spec fn no_ties(lines: Seq<Seq<char>>) -> bool {
    forall|a: Seq<char>, b: Seq<char>|
        a != b && crate::trace_laws::calls_in(lines, a).len() > 0 && crate::trace_laws::calls_in(
            lines,
            b,
        ).len() > 0 ==> (#[trigger] crate::trace_laws::calls_in(lines, a)).len() != (
        #[trigger] crate::trace_laws::calls_in(lines, b)).len()
}

/// The order of the calls does not matter: two listings with the same header,
/// whose bodies hold the same calls in any order and any other lines, have the
/// same report. This leaves out bodies in which two files hold equally many
/// calls, since those come in the order of the listing.
pub proof fn law_order_of_calls_does_not_matter(
    output: Seq<char>,
    other: Seq<char>,
    header: Seq<Seq<char>>,
    body: Seq<Seq<char>>,
    other_body: Seq<Seq<char>>,
)
    requires
        crate::trace_laws::is_listing(output),
        crate::trace::first_count(crate::trace::head(header)) == Some((header.len() - 1) as nat),
        crate::text::lines_of(output) == header + body,
        crate::text::lines_of(other) == header + other_body,
        calls_of(body).to_multiset() == calls_of(other_body).to_multiset(),
        no_ties(body),
    ensures
        crate::trace::filtered(output) == crate::trace::filtered(other),
{
    crate::trace_laws::lemma_header_stays(header, body);
    crate::trace_laws::lemma_header_stays(header, other_body);
    assert((header + body).skip(header.len() as int) =~= body);
    assert((header + other_body).skip(header.len() as int) =~= other_body);
    lemma_same_rows(body, other_body);
    crate::trace_laws::law_other_output_passes_through(output);
    crate::trace_laws::law_other_output_passes_through(other);
}

/// Lines in any order hold the same calls.
pub proof fn law_permuted_lines_hold_the_same_calls(a: Seq<Seq<char>>, b: Seq<Seq<char>>)
    requires
        a.to_multiset() == b.to_multiset(),
    ensures
        calls_of(a).to_multiset() == calls_of(b).to_multiset(),
    decreases a.len(),
{
    broadcast use {
        vstd::seq_lib::to_multiset_contains,
        vstd::seq_lib::to_multiset_len,
        vstd::seq_lib::to_multiset_remove,
    };

    assert(a.to_multiset().len() == b.to_multiset().len());
    if a.len() == 0 {
        assert(a.len() == a.to_multiset().len());
        assert(b.len() == b.to_multiset().len());
        assert(a =~= b);
    } else {
        let line = a.last();
        assert(a.contains(line)) by {
            assert(a[a.len() - 1] == line);
        }
        assert(a.to_multiset().count(line) > 0);
        assert(b.contains(line));
        let j = choose|j: int| 0 <= j < b.len() && b[j] == line;
        let before = b.take(j);
        let after = b.skip(j + 1);
        assert(b =~= before.push(line) + after);
        assert(b.remove(j) =~= before + after);
        assert(a.remove(a.len() - 1) =~= a.drop_last());
        assert(a.remove(a.len() - 1).to_multiset() == b.remove(j).to_multiset());
        law_permuted_lines_hold_the_same_calls(a.drop_last(), before + after);
        lemma_calls_of_inserted(a.drop_last(), line, Seq::empty());
        lemma_calls_of_inserted(before, line, after);
        assert(a.drop_last().push(line) + Seq::<Seq<char>>::empty() =~= a);
        assert(a.drop_last() + Seq::<Seq<char>>::empty() =~= a.drop_last());
    }
}

/// The lines that place a call, in their order.
pub open spec fn call_lines(lines: Seq<Seq<char>>) -> Seq<Seq<char>>
    decreases lines.len(),
{
    if lines.len() == 0 {
        Seq::empty()
    } else if crate::grammar::trace_calls_at(lines.last()) is Some {
        call_lines(lines.drop_last()).push(lines.last())
    } else {
        call_lines(lines.drop_last())
    }
}

/// Behind the header, lines can change places and lines that place no call can
/// come and go without a difference to the report, as long as no two files
/// hold equally many calls.
pub proof fn law_only_the_call_lines_matter(
    output: Seq<char>,
    other: Seq<char>,
    header: Seq<Seq<char>>,
    body: Seq<Seq<char>>,
    other_body: Seq<Seq<char>>,
)
    requires
        crate::trace_laws::is_listing(output),
        crate::trace::first_count(crate::trace::head(header)) == Some((header.len() - 1) as nat),
        crate::text::lines_of(output) == header + body,
        crate::text::lines_of(other) == header + other_body,
        call_lines(body).to_multiset() == call_lines(other_body).to_multiset(),
        no_ties(body),
    ensures
        crate::trace::filtered(output) == crate::trace::filtered(other),
{
    lemma_call_lines_hold_the_calls(body);
    lemma_call_lines_hold_the_calls(other_body);
    law_permuted_lines_hold_the_same_calls(call_lines(body), call_lines(other_body));
    law_order_of_calls_does_not_matter(output, other, header, body, other_body);
}

/// The lines that place calls hold all of them.
proof fn lemma_call_lines_hold_the_calls(lines: Seq<Seq<char>>)
    ensures
        calls_of(call_lines(lines)) == calls_of(lines),
    decreases lines.len(),
{
    if lines.len() > 0 {
        lemma_call_lines_hold_the_calls(lines.drop_last());
        let earlier = call_lines(lines.drop_last());
        assert(earlier.push(lines.last()).drop_last() =~= earlier);
    }
}

/// A line adds the call that it places, if any.
proof fn lemma_calls_of_inserted(before: Seq<Seq<char>>, line: Seq<char>, after: Seq<Seq<char>>)
    ensures
        calls_of(before.push(line) + after).to_multiset() == match crate::grammar::trace_calls_at(
            line,
        ) {
            Some((file, number)) => calls_of(before + after).to_multiset().insert(
                (file, crate::trace::line_value(number)),
            ),
            None => calls_of(before + after).to_multiset(),
        },
    decreases after.len(),
{
    broadcast use vstd::seq_lib::to_multiset_build;

    let long = before.push(line) + after;
    let short = before + after;
    if after.len() == 0 {
        assert(long =~= before.push(line));
        assert(short =~= before);
        assert(long.drop_last() =~= before);
    } else {
        assert(long.drop_last() =~= before.push(line) + after.drop_last());
        assert(short.drop_last() =~= before + after.drop_last());
        lemma_calls_of_inserted(before, line, after.drop_last());
        assert(calls_of(long).to_multiset() =~= match crate::grammar::trace_calls_at(line) {
            Some((file, number)) => calls_of(short).to_multiset().insert(
                (file, crate::trace::line_value(number)),
            ),
            None => calls_of(short).to_multiset(),
        });
    }
}

/// The calls in a file are the calls with that file.
proof fn lemma_calls_in_count(lines: Seq<Seq<char>>, file: Seq<char>, n: usize)
    ensures
        crate::trace_laws::calls_in(lines, file).to_multiset().count(n) == calls_of(
            lines,
        ).to_multiset().count((file, n)),
    decreases lines.len(),
{
    broadcast use vstd::seq_lib::to_multiset_build;
    broadcast use vstd::seq_lib::to_multiset_contains;

    if lines.len() == 0 {
        assert(!crate::trace_laws::calls_in(lines, file).contains(n));
        assert(!calls_of(lines).contains((file, n)));
    } else {
        lemma_calls_in_count(lines.drop_last(), file, n);
    }
}

/// The same calls in any order are the same calls in each file.
proof fn lemma_same_calls_in(a: Seq<Seq<char>>, b: Seq<Seq<char>>, file: Seq<char>)
    requires
        calls_of(a).to_multiset() == calls_of(b).to_multiset(),
    ensures
        crate::trace_laws::calls_in(a, file).to_multiset() == crate::trace_laws::calls_in(
            b,
            file,
        ).to_multiset(),
        crate::trace_laws::calls_in(a, file).len() == crate::trace_laws::calls_in(b, file).len(),
        crate::trace::sorted(crate::trace_laws::calls_in(a, file)) == crate::trace::sorted(
            crate::trace_laws::calls_in(b, file),
        ),
{
    broadcast use vstd::seq_lib::to_multiset_contains;
    broadcast use vstd::seq_lib::to_multiset_len;

    let x = crate::trace_laws::calls_in(a, file);
    let y = crate::trace_laws::calls_in(b, file);
    assert forall|n: usize| x.to_multiset().count(n) == y.to_multiset().count(n) by {
        lemma_calls_in_count(a, file, n);
        lemma_calls_in_count(b, file, n);
    }
    assert(x.to_multiset() =~= y.to_multiset());
    assert(x.len() == x.to_multiset().len());
    assert(y.len() == y.to_multiset().len());
    crate::trace_laws::law_lines_are_sorted_and_distinct(x);
    crate::trace_laws::law_lines_are_sorted_and_distinct(y);
    assert forall|n: usize|
        crate::trace::sorted(x).contains(n) <==> #[trigger] crate::trace::sorted(y).contains(n) by {
        assert(x.contains(n) <==> x.to_multiset().count(n) > 0);
        assert(y.contains(n) <==> y.to_multiset().count(n) > 0);
    }
    lemma_increasing_equal(crate::trace::sorted(x), crate::trace::sorted(y));
}

/// Increasing numbers are determined by which they are.
pub proof fn lemma_increasing_equal(a: Seq<usize>, b: Seq<usize>)
    requires
        crate::trace_laws::is_increasing(a),
        crate::trace_laws::is_increasing(b),
        forall|n: usize| a.contains(n) <==> #[trigger] b.contains(n),
    ensures
        a == b,
    decreases a.len(),
{
    if a.len() == 0 {
        if b.len() > 0 {
            assert(b.contains(b[0]));
        }
        assert(a =~= b);
    } else {
        assert(a.contains(a[0]));
        assert(b.contains(a[0]));
        let j = choose|j: int| 0 <= j < b.len() && b[j] == a[0];
        assert(b.contains(b[0]));
        let i = choose|i: int| 0 <= i < a.len() && a[i] == b[0];
        assert(i == 0 && j == 0);
        let x = a.drop_first();
        let y = b.drop_first();
        assert forall|n: usize| x.contains(n) <==> #[trigger] y.contains(n) by {
            if x.contains(n) {
                let k = choose|k: int| 0 <= k < x.len() && x[k] == n;
                assert(a[k + 1] == n);
                assert(a.contains(n));
                assert(b.contains(n));
                let m = choose|m: int| 0 <= m < b.len() && b[m] == n;
                assert(m > 0);
                assert(y[m - 1] == n);
            }
            if y.contains(n) {
                let k = choose|k: int| 0 <= k < y.len() && y[k] == n;
                assert(b[k + 1] == n);
                assert(b.contains(n));
                assert(a.contains(n));
                let m = choose|m: int| 0 <= m < a.len() && a[m] == n;
                assert(m > 0);
                assert(x[m - 1] == n);
            }
        }
        lemma_increasing_equal(x, y);
        assert(a =~= seq![a[0]] + x);
        assert(b =~= seq![b[0]] + y);
    }
}

/// File and number of calls of each group.
spec fn sizes(groups: Seq<crate::trace::CallGroupView>) -> Seq<(Seq<char>, nat)> {
    Seq::new(groups.len(), |i: int| (groups[i].file, groups[i].lines.len()))
}

/// Pairs that fall in their second part are determined by which they are.
proof fn lemma_falling_equal(a: Seq<(Seq<char>, nat)>, b: Seq<(Seq<char>, nat)>)
    requires
        forall|i: int, j: int| 0 <= i < j < a.len() ==> (#[trigger] a[i]).1 > (#[trigger] a[j]).1,
        forall|i: int, j: int| 0 <= i < j < b.len() ==> (#[trigger] b[i]).1 > (#[trigger] b[j]).1,
        forall|p: (Seq<char>, nat)| a.contains(p) <==> #[trigger] b.contains(p),
    ensures
        a == b,
    decreases a.len(),
{
    if a.len() == 0 {
        if b.len() > 0 {
            assert(b.contains(b[0]));
        }
        assert(a =~= b);
    } else {
        assert(a.contains(a[0]));
        assert(b.contains(a[0]));
        let j = choose|j: int| 0 <= j < b.len() && b[j] == a[0];
        assert(b.contains(b[0]));
        let i = choose|i: int| 0 <= i < a.len() && a[i] == b[0];
        assert(i == 0 && j == 0);
        let x = a.drop_first();
        let y = b.drop_first();
        assert forall|p: (Seq<char>, nat)| x.contains(p) <==> #[trigger] y.contains(p) by {
            if x.contains(p) {
                let k = choose|k: int| 0 <= k < x.len() && x[k] == p;
                assert(a[k + 1] == p);
                assert(a.contains(p));
                assert(b.contains(p));
                let m = choose|m: int| 0 <= m < b.len() && b[m] == p;
                assert(m > 0);
                assert(y[m - 1] == p);
            }
            if y.contains(p) {
                let k = choose|k: int| 0 <= k < y.len() && y[k] == p;
                assert(b[k + 1] == p);
                assert(b.contains(p));
                assert(a.contains(p));
                let m = choose|m: int| 0 <= m < a.len() && a[m] == p;
                assert(m > 0);
                assert(x[m - 1] == p);
            }
        }
        lemma_falling_equal(x, y);
        assert(a =~= seq![a[0]] + x);
        assert(b =~= seq![b[0]] + y);
    }
}

/// Each ranked group is the group of its file.
proof fn lemma_ranked_groups(lines: Seq<Seq<char>>)
    ensures
        ({
            let ranked = crate::trace::ranked(crate::trace::groups_of(lines));
            &&& forall|k: int|
                0 <= k < ranked.len() ==> (#[trigger] ranked[k]).lines
                    == crate::trace_laws::calls_in(lines, ranked[k].file) && ranked[k].lines.len() > 0
            &&& forall|file: Seq<char>| #[trigger]
                crate::trace_laws::calls_in(lines, file).len() > 0 ==> sizes(ranked).contains(
                    (file, crate::trace_laws::calls_in(lines, file).len()),
                )
        }),
{
    broadcast use vstd::seq_lib::to_multiset_contains;

    let groups = crate::trace::groups_of(lines);
    let ranked = crate::trace::ranked(groups);
    crate::trace_laws::law_groups_are_the_files(lines);
    crate::trace_laws::law_ranking_sorts(groups);
    assert forall|k: int| 0 <= k < ranked.len() implies (#[trigger] ranked[k]).lines
        == crate::trace_laws::calls_in(lines, ranked[k].file) && ranked[k].lines.len() > 0 by {
        assert(ranked.contains(ranked[k]));
        assert(ranked.to_multiset().count(ranked[k]) > 0);
        assert(groups.contains(ranked[k]));
        let i = choose|i: int| 0 <= i < groups.len() && groups[i] == ranked[k];
        assert(groups[i].lines == crate::trace_laws::calls_in(lines, groups[i].file));
    }
    assert forall|file: Seq<char>| #[trigger]
        crate::trace_laws::calls_in(lines, file).len() > 0 implies sizes(ranked).contains(
        (file, crate::trace_laws::calls_in(lines, file).len()),
    ) by {
        let i = crate::trace::group_index(groups, file) as int;
        crate::trace_laws::lemma_group_index(groups, file);
        assert(groups[i].lines == crate::trace_laws::calls_in(lines, groups[i].file));
        assert(groups.contains(groups[i]));
        assert(groups.to_multiset().count(groups[i]) > 0);
        assert(ranked.contains(groups[i]));
        let k = choose|k: int| 0 <= k < ranked.len() && ranked[k] == groups[i];
        assert(sizes(ranked)[k] == (file, crate::trace_laws::calls_in(lines, file).len()));
    }
}

/// Without ties the ranking falls in every step.
proof fn lemma_ranking_falls(lines: Seq<Seq<char>>)
    requires
        no_ties(lines),
    ensures
        ({
            let pairs = sizes(crate::trace::ranked(crate::trace::groups_of(lines)));
            forall|i: int, j: int|
                0 <= i < j < pairs.len() ==> (#[trigger] pairs[i]).1 > (#[trigger] pairs[j]).1
        }),
{
    broadcast use vstd::seq_lib::to_multiset_contains;

    let groups = crate::trace::groups_of(lines);
    let ranked = crate::trace::ranked(groups);
    let pairs = sizes(ranked);
    crate::trace_laws::law_groups_are_the_files(lines);
    crate::trace_laws::law_ranking_sorts(groups);
    lemma_ranked_groups(lines);
    assert forall|i: int, j: int| 0 <= i < j < pairs.len() implies (#[trigger] pairs[i]).1 > (
    #[trigger] pairs[j]).1 by {
        assert(ranked[i].lines.len() >= ranked[j].lines.len());
        assert(ranked[i].lines == crate::trace_laws::calls_in(lines, ranked[i].file));
        assert(ranked[j].lines == crate::trace_laws::calls_in(lines, ranked[j].file));
        if ranked[i].file == ranked[j].file {
            assert(ranked[i] == ranked[j]);
            lemma_repeated_twice(ranked, i, j);
            lemma_distinct_once(groups, ranked[i]);
        }
    }
}

/// What stands at two places of a list occurs twice in it.
proof fn lemma_repeated_twice(groups: Seq<crate::trace::CallGroupView>, i: int, j: int)
    requires
        0 <= i < j < groups.len(),
        groups[i] == groups[j],
    ensures
        groups.to_multiset().count(groups[i]) >= 2,
{
    broadcast use vstd::seq_lib::to_multiset_contains;
    broadcast use vstd::seq_lib::to_multiset_remove;

    let rest = groups.remove(j);
    assert(rest[i] == groups[i]);
    assert(rest.contains(groups[i]));
    assert(rest.to_multiset().count(groups[i]) > 0);
    assert(groups.contains(groups[j]));
}

/// A group of a list without repeated files occurs at most once.
proof fn lemma_distinct_once(
    groups: Seq<crate::trace::CallGroupView>,
    group: crate::trace::CallGroupView,
)
    requires
        forall|i: int, j: int|
            0 <= i < j < groups.len() ==> (#[trigger] groups[i]).file != (
            #[trigger] groups[j]).file,
    ensures
        groups.to_multiset().count(group) <= 1,
{
    broadcast use vstd::seq_lib::to_multiset_contains;

    assert(groups.no_duplicates());
    groups.lemma_multiset_has_no_duplicates();
    if groups.to_multiset().count(group) > 0 {
        assert(groups.to_multiset().contains(group));
    }
}

/// The same calls in any order, without ties, give the same rows.
proof fn lemma_same_rows(a: Seq<Seq<char>>, b: Seq<Seq<char>>)
    requires
        calls_of(a).to_multiset() == calls_of(b).to_multiset(),
        no_ties(a),
    ensures
        crate::trace::rows(crate::trace::ranked(crate::trace::groups_of(a)))
            == crate::trace::rows(crate::trace::ranked(crate::trace::groups_of(b))),
        crate::trace::ranked(crate::trace::groups_of(a)).len() == crate::trace::ranked(
            crate::trace::groups_of(b),
        ).len(),
{
    let x = crate::trace::ranked(crate::trace::groups_of(a));
    let y = crate::trace::ranked(crate::trace::groups_of(b));
    assert forall|file: Seq<char>|
        (#[trigger] crate::trace_laws::calls_in(a, file)).len() == crate::trace_laws::calls_in(b, file).len()
            && crate::trace::sorted(crate::trace_laws::calls_in(a, file)) == crate::trace::sorted(
            crate::trace_laws::calls_in(b, file),
        ) by {
        lemma_same_calls_in(a, b, file);
    }
    assert(no_ties(b)) by {
        assert forall|f: Seq<char>, g: Seq<char>|
            f != g && crate::trace_laws::calls_in(b, f).len() > 0 && crate::trace_laws::calls_in(
                b,
                g,
            ).len() > 0 implies (#[trigger] crate::trace_laws::calls_in(b, f)).len() != (
        #[trigger] crate::trace_laws::calls_in(b, g)).len() by {
            assert(crate::trace_laws::calls_in(a, f).len() != crate::trace_laws::calls_in(
                a,
                g,
            ).len());
        }
    }
    lemma_ranked_groups(a);
    lemma_ranked_groups(b);
    lemma_ranking_falls(a);
    lemma_ranking_falls(b);
    assert forall|p: (Seq<char>, nat)| sizes(x).contains(p) <==> #[trigger] sizes(y).contains(
        p,
    ) by {
        if sizes(x).contains(p) {
            let k = choose|k: int| 0 <= k < sizes(x).len() && sizes(x)[k] == p;
            assert(x[k].lines == crate::trace_laws::calls_in(a, x[k].file));
            assert(crate::trace_laws::calls_in(b, x[k].file).len() > 0);
        }
        if sizes(y).contains(p) {
            let k = choose|k: int| 0 <= k < sizes(y).len() && sizes(y)[k] == p;
            assert(y[k].lines == crate::trace_laws::calls_in(b, y[k].file));
            assert(crate::trace_laws::calls_in(a, y[k].file).len() > 0);
        }
    }
    lemma_falling_equal(sizes(x), sizes(y));
    assert(x.len() == sizes(x).len() && y.len() == sizes(y).len());
    assert forall|k: int| 0 <= k < x.len() implies crate::trace::row(#[trigger] x[k])
        == crate::trace::row(y[k]) by {
        assert(sizes(x)[k] == sizes(y)[k]);
        assert(x[k].lines == crate::trace_laws::calls_in(a, x[k].file));
        assert(y[k].lines == crate::trace_laws::calls_in(b, y[k].file));
    }
    assert(crate::trace::rows(x) =~= crate::trace::rows(y));
}

} // verus!
