//! Trace listings: one row per file that calls a symbol, or that it calls.

use crate::grammar::{read_trace_caller_count, read_trace_calls_at};
use crate::grammar::{read_trace_symbol, read_trace_symbol_file};
use crate::path::split_path;
use crate::text::{append_decimal, join, lines, number_text, parse_number, trim, trim_end};
use vstd::prelude::*;

verus! {

/// How many lines at the start of a listing can belong to its header.
pub const HEADER_LINES: usize = 6;

/// The header of a trace.
pub struct TraceHeader {
    pub symbol_name: String,
    pub symbol_type: String,
    pub symbol_file: String,
    pub symbol_line: String,
    pub relation: String,
    pub total_count: u32,
}

/// What the header of a trace holds.
#[verifier::ext_equal]
pub struct TraceHeaderView {
    pub symbol_name: Seq<char>,
    pub symbol_type: Seq<char>,
    pub symbol_file: Seq<char>,
    pub symbol_line: Seq<char>,
    pub relation: Seq<char>,
    pub total_count: u32,
}

impl View for TraceHeader {
    type V = TraceHeaderView;

    open spec fn view(&self) -> TraceHeaderView {
        TraceHeaderView {
            symbol_name: self.symbol_name@,
            symbol_type: self.symbol_type@,
            symbol_file: self.symbol_file@,
            symbol_line: self.symbol_line@,
            relation: self.relation@,
            total_count: self.total_count,
        }
    }
}

/// The calls in one file: its path, and the line of each call.
pub struct CallGroup {
    pub file: String,
    pub lines: Vec<usize>,
}

/// What the calls in one file are.
#[verifier::ext_equal]
pub struct CallGroupView {
    pub file: Seq<char>,
    pub lines: Seq<usize>,
}

impl View for CallGroup {
    type V = CallGroupView;

    open spec fn view(&self) -> CallGroupView {
        CallGroupView { file: self.file@, lines: self.lines@ }
    }
}

/// What a list of groups holds.
pub open spec fn group_views(groups: Seq<CallGroup>) -> Seq<CallGroupView> {
    Seq::new(groups.len(), |i: int| groups[i]@)
}

/// The first of the lines that announces callers or callees.
pub open spec fn first_count(lines: Seq<Seq<char>>) -> Option<nat>
    decreases lines.len(),
{
    if lines.len() == 0 {
        None
    } else {
        match first_count(lines.drop_last()) {
            Some(k) => Some(k),
            None => if crate::grammar::trace_caller_count(lines.last()) is Some {
                Some((lines.len() - 1) as nat)
            } else {
                None
            },
        }
    }
}

/// The first lines of a listing, as many as can belong to its header.
pub open spec fn head(lines: Seq<Seq<char>>) -> Seq<Seq<char>> {
    if lines.len() <= HEADER_LINES {
        lines
    } else {
        lines.take(HEADER_LINES as int)
    }
}

/// The header of a listing: its first lines, up to the one that announces
/// callers or callees.
pub open spec fn header_lines(lines: Seq<Seq<char>>) -> Seq<Seq<char>> {
    match first_count(head(lines)) {
        Some(k) => head(lines).take(k + 1int),
        None => head(lines),
    }
}

/// The lines of a listing that can place calls: those behind the header, or
/// all of them where no line of the header announces callers or callees.
pub open spec fn body_lines(lines: Seq<Seq<char>>) -> Seq<Seq<char>> {
    match first_count(head(lines)) {
        Some(k) => lines.skip(k + 1int),
        None => lines,
    }
}

/// The symbol that the last of the lines to name one names.
pub open spec fn symbol_in(lines: Seq<Seq<char>>) -> Option<(Seq<char>, Seq<char>)>
    decreases lines.len(),
{
    if lines.len() == 0 {
        None
    } else {
        match crate::grammar::trace_symbol(lines.last()) {
            Some(symbol) => Some(symbol),
            None => symbol_in(lines.drop_last()),
        }
    }
}

/// The place that the first of the lines to name a file names.
pub open spec fn place_in(lines: Seq<Seq<char>>) -> Option<(Seq<char>, Option<Seq<char>>)>
    decreases lines.len(),
{
    if lines.len() == 0 {
        None
    } else {
        match place_in(lines.drop_last()) {
            Some(place) => Some(place),
            None => crate::grammar::trace_symbol_file(lines.last()),
        }
    }
}

/// `Callers` or `Callees`, in lower case.
pub open spec fn lower_relation(relation: Seq<char>) -> Seq<char> {
    if relation == "Callers"@ {
        "callers"@
    } else {
        "callees"@
    }
}

/// What header lines say. What no line says is empty, or 0.
pub open spec fn header_of(lines: Seq<Seq<char>>) -> TraceHeaderView {
    let symbol = symbol_in(lines);
    let place = place_in(lines);
    let count = match first_count(lines) {
        Some(k) => crate::grammar::trace_caller_count(lines[k as int]),
        None => None,
    };
    TraceHeaderView {
        symbol_name: match symbol {
            Some((name, kind)) => name,
            None => Seq::empty(),
        },
        symbol_type: match symbol {
            Some((name, kind)) => kind,
            None => Seq::empty(),
        },
        symbol_file: match place {
            Some((path, number)) => path,
            None => Seq::empty(),
        },
        symbol_line: match place {
            Some((path, Some(number))) => number,
            _ => Seq::empty(),
        },
        relation: match count {
            Some((relation, count)) => lower_relation(relation),
            None => Seq::empty(),
        },
        total_count: match count {
            Some((relation, count)) => crate::text::count_value(count),
            None => 0,
        },
    }
}

/// Where the group of `file` stands; the number of groups where there is none.
pub open spec fn group_index(groups: Seq<CallGroupView>, file: Seq<char>) -> nat
    decreases groups.len(),
{
    if groups.len() == 0 || groups[0].file == file {
        0
    } else {
        1 + group_index(groups.drop_first(), file)
    }
}

/// The groups with one more call: in the group of its file, or in a new group
/// behind the others.
pub open spec fn with_call(groups: Seq<CallGroupView>, file: Seq<char>, line: usize) -> Seq<
    CallGroupView,
> {
    let i = group_index(groups, file) as int;
    if i < groups.len() {
        groups.update(i, CallGroupView { file, lines: groups[i].lines.push(line) })
    } else {
        groups.push(CallGroupView { file, lines: seq![line] })
    }
}

/// The line number that `number` writes, 0 where it does not fit.
pub open spec fn line_value(number: Seq<char>) -> usize {
    crate::text::parsed(number, usize::MAX as nat) as usize
}

/// The calls that the lines place, by file, in the order in which the files
/// first occur.
pub open spec fn groups_of(lines: Seq<Seq<char>>) -> Seq<CallGroupView>
    decreases lines.len(),
{
    if lines.len() == 0 {
        Seq::empty()
    } else {
        let earlier = groups_of(lines.drop_last());
        match crate::grammar::trace_calls_at(lines.last()) {
            Some((file, number)) => with_call(earlier, file, line_value(number)),
            None => earlier,
        }
    }
}

/// Where the first group with at most `calls` calls stands.
pub open spec fn rank(groups: Seq<CallGroupView>, calls: nat) -> nat
    decreases groups.len(),
{
    if groups.len() == 0 || groups[0].lines.len() <= calls {
        0
    } else {
        1 + rank(groups.drop_first(), calls)
    }
}

/// The groups by number of calls, most calls first; groups with equally many
/// keep their order.
pub open spec fn ranked(groups: Seq<CallGroupView>) -> Seq<CallGroupView>
    decreases groups.len(),
{
    if groups.len() == 0 {
        Seq::empty()
    } else {
        let later = ranked(groups.drop_first());
        later.insert(rank(later, groups[0].lines.len()) as int, groups[0])
    }
}

/// Where the first number from `n` on stands.
pub open spec fn number_index(numbers: Seq<usize>, n: usize) -> nat
    decreases numbers.len(),
{
    if numbers.len() == 0 || numbers[0] >= n {
        0
    } else {
        1 + number_index(numbers.drop_first(), n)
    }
}

/// Increasing numbers with `n` among them.
pub open spec fn with_number(numbers: Seq<usize>, n: usize) -> Seq<usize> {
    let i = number_index(numbers, n) as int;
    if i < numbers.len() && numbers[i] == n {
        numbers
    } else {
        numbers.insert(i, n)
    }
}

/// The numbers in increasing order, each once.
pub open spec fn sorted(numbers: Seq<usize>) -> Seq<usize>
    decreases numbers.len(),
{
    if numbers.len() == 0 {
        Seq::empty()
    } else {
        with_number(sorted(numbers.drop_last()), numbers.last())
    }
}

/// Line numbers for display: up to five in full, of more the first three.
pub open spec fn number_list(numbers: Seq<usize>) -> Seq<char> {
    if numbers.len() <= 5 {
        crate::text::joined(crate::text::decimals(numbers), ","@)
    } else {
        crate::text::joined(crate::text::decimals(numbers.take(3)), ","@) + ",..."@
    }
}

/// The row of a file: its name, how many calls it holds, and the lines that
/// hold them, each once.
pub open spec fn row(group: CallGroupView) -> Seq<char> {
    let numbers = sorted(group.lines);
    let name = crate::path::file_name(group.file);
    if group.lines.len() == 1 {
        "  "@ + name + ":"@ + crate::text::decimal(numbers[0] as nat) + "  1x"@
    } else {
        "  "@ + name + "  "@ + crate::text::decimal(group.lines.len()) + "x ("@ + (
        if numbers.len() == 1 {
            "line: "@
        } else {
            "lines: "@
        }) + number_list(numbers) + ")"@
    }
}

/// The rows of the groups.
pub open spec fn rows(groups: Seq<CallGroupView>) -> Seq<Seq<char>> {
    Seq::new(groups.len(), |i: int| row(groups[i]))
}

/// Where the symbol is defined: file name and, if known, line.
pub open spec fn location(header: TraceHeaderView) -> Seq<char> {
    if header.symbol_line.len() == 0 {
        crate::path::file_name(header.symbol_file)
    } else {
        crate::path::file_name(header.symbol_file) + ":"@ + header.symbol_line
    }
}

/// The first line of a report.
pub open spec fn title(header: TraceHeaderView, files: nat) -> Seq<char> {
    header.symbol_name + " ("@ + header.symbol_type + ") @ "@ + location(header) + " — "@
        + crate::text::decimal(header.total_count as nat) + " "@ + header.relation + " in "@
        + crate::text::decimal(files) + " files:"@
}

/// The report of a trace with this header and these groups, in this order.
pub open spec fn report(header: TraceHeaderView, groups: Seq<CallGroupView>) -> Seq<char> {
    crate::text::page(title(header, groups.len()), rows(groups))
}

/// What becomes of the output of a trace: a report where its header names a
/// symbol, else the output, trimmed.
pub open spec fn filtered(output: Seq<char>) -> Seq<char> {
    let lines = crate::text::lines_of(output);
    let header = header_of(header_lines(lines));
    if header.symbol_name.len() == 0 {
        crate::text::trimmed(output)
    } else {
        report(header, ranked(groups_of(body_lines(lines))))
    }
}

/// A line that names a symbol names no file.
pub proof fn lemma_symbol_is_no_file(line: Seq<char>)
    requires
        crate::grammar::trace_symbol(line) is Some,
    ensures
        crate::grammar::trace_symbol_file(line) is None,
{
    reveal_strlit("Symbol: ");
    reveal_strlit("File: ");
    let (name, kind) = crate::grammar::trace_symbol(line)->0;
    assert(crate::pattern::is_trace_symbol(line, name, kind));
    assert(line[0] == 'S');
    assert forall|path: Seq<char>, number: Option<Seq<char>>|
        !crate::pattern::is_trace_symbol_file(line, path, number) by {
        if crate::pattern::is_trace_symbol_file(line, path, number) {
            assert(line[0] == 'F');
        }
    }
}

/// The first of some lines to announce callers or callees stays the first.
pub proof fn lemma_first_count_stays(lines: Seq<Seq<char>>, n: int)
    requires
        0 <= n <= lines.len(),
        first_count(lines.take(n)) is Some,
    ensures
        first_count(lines) == first_count(lines.take(n)),
    decreases lines.len(),
{
    if n < lines.len() {
        assert(lines.drop_last().take(n) =~= lines.take(n));
        lemma_first_count_stays(lines.drop_last(), n);
    } else {
        assert(lines.take(n) =~= lines);
    }
}

/// Reads the header of a listing; also tells where its body begins.
pub fn parse_header(lines: &Vec<String>) -> (parsed: (TraceHeader, usize))
    ensures
        parsed.0@ == header_of(header_lines(crate::text::texts(lines@))),
        parsed.1 <= lines@.len(),
        crate::text::texts(lines@).skip(parsed.1 as int) == body_lines(
            crate::text::texts(lines@),
        ),
{
    let ghost all = crate::text::texts(lines@);
    let ghost first = head(all);
    let mut header = TraceHeader {
        symbol_name: String::new(),
        symbol_type: String::new(),
        symbol_file: String::new(),
        symbol_line: String::new(),
        relation: String::new(),
        total_count: 0,
    };
    let count: usize = if lines.len() < HEADER_LINES {
        lines.len()
    } else {
        HEADER_LINES
    };
    let mut i: usize = 0;
    assert(header@ =~= header_of(first.take(0)));
    while i < count
        invariant
            i <= count <= lines@.len(),
            count == first.len(),
            all == crate::text::texts(lines@),
            first == head(all),
            first_count(first.take(i as int)) is None,
            header@ == header_of(first.take(i as int)),
            header.symbol_file@.len() == 0 <==> place_in(first.take(i as int)) is None,
        decreases count - i,
    {
        let line = lines[i].as_str();
        let ghost seen = first.take(i + 1);
        proof {
            assert(seen.drop_last() =~= first.take(i as int));
            assert(first[i as int] == all[i as int]);
            assert(seen.last() == line@);
        }
        if let Some((name, kind)) = read_trace_symbol(line) {
            proof {
                lemma_symbol_is_no_file(line@);
            }
            header.symbol_name = name;
            header.symbol_type = kind;
        } else if header.symbol_file.as_str().is_empty() {
            if let Some((path, number)) = read_trace_symbol_file(line) {
                header.symbol_file = path;
                header.symbol_line = match number {
                    Some(number) => number,
                    None => String::new(),
                };
            }
        }
        assert(header.symbol_file@.len() == 0 <==> place_in(seen) is None);
        if let Some((relation, total)) = read_trace_caller_count(line) {
            header.relation = if relation == "Callers".to_string() {
                "callers".to_string()
            } else {
                "callees".to_string()
            };
            header.total_count = parse_number(total.as_str(), u32::MAX as usize) as u32;
            proof {
                assert(first_count(seen) == Some(i as nat));
                lemma_first_count_stays(first, i + 1);
                assert(header_lines(all) == seen);
                assert(header@ =~= header_of(seen));
            }
            return (header, i + 1);
        }
        i += 1;
        assert(header@ =~= header_of(seen));
    }
    assert(first.take(i as int) =~= first);
    assert(all.skip(0) =~= all);
    (header, 0)
}

/// Adds a call to the group of its file.
fn add_call(groups: &mut Vec<CallGroup>, file: String, line: usize)
    ensures
        group_views(final(groups)@) == with_call(group_views(old(groups)@), file@, line),
{
    let ghost views = group_views(groups@);
    let mut i: usize = 0;
    assert(views.skip(0) =~= views);
    while i < groups.len() && groups[i].file != file
        invariant
            i <= groups@.len(),
            views == group_views(groups@),
            group_index(views, file@) == i + group_index(views.skip(i as int), file@),
        decreases groups@.len() - i,
    {
        assert(views.skip(i as int)[0] == groups@[i as int]@);
        assert(views.skip(i as int).drop_first() =~= views.skip(i + 1));
        i += 1;
    }
    if i < groups.len() {
        assert(views.skip(i as int)[0] == groups@[i as int]@);
        groups[i].lines.push(line);
        assert(group_views(groups@) =~= with_call(views, file@, line));
    } else {
        let mut lines: Vec<usize> = Vec::new();
        lines.push(line);
        assert(lines@ =~= seq![line]);
        groups.push(CallGroup { file, lines });
        assert(group_views(groups@) =~= with_call(views, file@, line));
    }
}

/// Reads the calls that the lines from `start` on place, by file.
pub fn parse_groups(lines: &Vec<String>, start: usize) -> (groups: Vec<CallGroup>)
    requires
        start <= lines@.len(),
    ensures
        group_views(groups@) == groups_of(crate::text::texts(lines@).skip(start as int)),
{
    let ghost body = crate::text::texts(lines@).skip(start as int);
    let mut groups: Vec<CallGroup> = Vec::new();
    let mut i: usize = start;
    assert(group_views(groups@) =~= groups_of(body.take(0)));
    while i < lines.len()
        invariant
            start <= i <= lines@.len(),
            body == crate::text::texts(lines@).skip(start as int),
            group_views(groups@) == groups_of(body.take(i - start)),
        decreases lines@.len() - i,
    {
        proof {
            assert(body.take(i - start + 1).drop_last() =~= body.take(i - start));
            assert(body.take(i - start + 1).last() == lines@[i as int]@);
        }
        if let Some((file, number)) = read_trace_calls_at(lines[i].as_str()) {
            let line = parse_number(number.as_str(), usize::MAX);
            add_call(&mut groups, file, line);
        }
        i += 1;
    }
    assert(body.take(i - start) =~= body);
    groups
}

/// Orders groups by number of calls, most calls first.
pub fn rank_groups(groups: Vec<CallGroup>) -> (out: Vec<CallGroup>)
    ensures
        group_views(out@) == ranked(group_views(groups@)),
{
    let ghost all = group_views(groups@);
    let mut rest = groups;
    let mut out: Vec<CallGroup> = Vec::new();
    assert(all.skip(all.len() as int) =~= Seq::empty());
    assert(group_views(out@) =~= ranked(all.skip(all.len() as int)));
    while rest.len() > 0
        invariant
            rest@.len() <= all.len(),
            group_views(rest@) == all.take(rest@.len() as int),
            group_views(out@) == ranked(all.skip(rest@.len() as int)),
        decreases rest@.len(),
    {
        let ghost n = rest@.len() - 1;
        let ghost before = group_views(out@);
        assert(group_views(rest@)[n] == rest@[n]@);
        if let Some(group) = rest.pop() {
            let calls = group.lines.len();
            let mut i: usize = 0;
            assert(before.skip(0) =~= before);
            while i < out.len() && out[i].lines.len() > calls
                invariant
                    i <= out@.len(),
                    before == group_views(out@),
                    rank(before, calls as nat) == i + rank(before.skip(i as int), calls as nat),
                decreases out@.len() - i,
            {
                assert(before.skip(i as int)[0] == out@[i as int]@);
                assert(before.skip(i as int).drop_first() =~= before.skip(i + 1));
                i += 1;
            }
            assert(i < out@.len() ==> before.skip(i as int)[0] == out@[i as int]@);
            out.insert(i, group);
            assert(all.skip(n)[0] == group@);
            assert(all.skip(n).drop_first() =~= all.skip(n + 1));
            assert(group_views(out@) =~= before.insert(i as int, group@));
            assert(group_views(rest@) =~= all.take(n));
        }
    }
    assert(all.skip(0) =~= all);
    out
}

/// The numbers in increasing order, each once.
pub fn sort_numbers(numbers: &Vec<usize>) -> (out: Vec<usize>)
    ensures
        out@ == sorted(numbers@),
{
    let mut out: Vec<usize> = Vec::new();
    let mut i: usize = 0;
    assert(out@ =~= sorted(numbers@.take(0)));
    while i < numbers.len()
        invariant
            i <= numbers@.len(),
            out@ == sorted(numbers@.take(i as int)),
        decreases numbers@.len() - i,
    {
        let n: usize = numbers[i];
        let ghost before = out@;
        assert(numbers@.take(i + 1).drop_last() =~= numbers@.take(i as int));
        let mut k: usize = 0;
        assert(before.skip(0) =~= before);
        while k < out.len() && out[k] < n
            invariant
                k <= out@.len(),
                before == out@,
                number_index(before, n) == k + number_index(before.skip(k as int), n),
            decreases out@.len() - k,
        {
            assert(before.skip(k as int)[0] == out@[k as int]);
            assert(before.skip(k as int).drop_first() =~= before.skip(k + 1));
            k += 1;
        }
        assert(k < out@.len() ==> before.skip(k as int)[0] == out@[k as int]);
        if !(k < out.len() && out[k] == n) {
            out.insert(k, n);
        }
        i += 1;
    }
    assert(numbers@.take(i as int) =~= numbers@);
    out
}

/// The first `count` numbers in decimal, with commas between them.
fn join_numbers(numbers: &Vec<usize>, count: usize) -> (out: String)
    requires
        count <= numbers@.len(),
    ensures
        out@ == crate::text::joined(crate::text::decimals(numbers@.take(count as int)), ","@),
{
    let mut parts: Vec<String> = Vec::new();
    let ghost all = crate::text::decimals(numbers@.take(count as int));
    let mut i: usize = 0;
    while i < count
        invariant
            i <= count <= numbers@.len(),
            all == crate::text::decimals(numbers@.take(count as int)),
            crate::text::texts(parts@) == all.take(i as int),
        decreases count - i,
    {
        let ghost before = crate::text::texts(parts@);
        parts.push(number_text(numbers[i]));
        assert(crate::text::texts(parts@) =~= before.push(all[i as int]));
        assert(all.take(i + 1) =~= all.take(i as int).push(all[i as int]));
        i += 1;
    }
    assert(crate::text::texts(parts@) =~= all);
    join(parts.as_slice(), ",")
}

/// One number is sorted.
proof fn lemma_sorted_one(numbers: Seq<usize>)
    requires
        numbers.len() == 1,
    ensures
        sorted(numbers) == numbers,
{
    assert(sorted(numbers.drop_last()) =~= Seq::empty());
    assert(sorted(numbers) =~= numbers);
}

/// Appends the row of a group and a line ending.
fn append_row(out: &mut String, group: &CallGroup)
    ensures
        final(out)@ == old(out)@ + row(group@) + "\n"@,
{
    let numbers = sort_numbers(&group.lines);
    let (name, _parent) = split_path(group.file.as_str());
    out.append("  ");
    out.append(name.as_str());
    if group.lines.len() == 1 {
        proof {
            lemma_sorted_one(group.lines@);
        }
        out.append(":");
        append_decimal(out, numbers[0]);
        out.append("  1x");
        assert(out@ =~= old(out)@ + row(group@));
    } else {
        out.append("  ");
        append_decimal(out, group.lines.len());
        out.append("x (");
        if numbers.len() == 1 {
            out.append("line: ");
        } else {
            out.append("lines: ");
        }
        if numbers.len() <= 5 {
            assert(numbers@.take(numbers@.len() as int) =~= numbers@);
            out.append(join_numbers(&numbers, numbers.len()).as_str());
        } else {
            out.append(join_numbers(&numbers, 3).as_str());
            out.append(",...");
        }
        out.append(")");
        assert(out@ =~= old(out)@ + row(group@));
    }
    out.append("\n");
}

/// Writes the report of a trace with this header and these groups.
pub fn write_report(header: &TraceHeader, groups: &Vec<CallGroup>) -> (out: String)
    ensures
        out@ == report(header@, group_views(groups@)),
{
    let mut out = String::new();
    out.append(header.symbol_name.as_str());
    out.append(" (");
    out.append(header.symbol_type.as_str());
    out.append(") @ ");
    let ghost before = out@;
    let (name, _parent) = split_path(header.symbol_file.as_str());
    out.append(name.as_str());
    if !header.symbol_line.as_str().is_empty() {
        out.append(":");
        out.append(header.symbol_line.as_str());
    }
    assert(out@ =~= before + location(header@));
    out.append(" — ");
    append_decimal(&mut out, header.total_count as usize);
    out.append(" ");
    out.append(header.relation.as_str());
    out.append(" in ");
    append_decimal(&mut out, groups.len());
    out.append(" files:");
    assert(out@ =~= title(header@, groups@.len()));
    out.append("\n\n");
    let ghost start = out@;
    let ghost all = rows(group_views(groups@));
    let mut i: usize = 0;
    assert(out@ =~= start + crate::text::stacked(all.take(0)));
    while i < groups.len()
        invariant
            i <= groups@.len(),
            all == rows(group_views(groups@)),
            out@ == start + crate::text::stacked(all.take(i as int)),
        decreases groups@.len() - i,
    {
        append_row(&mut out, &groups[i]);
        i += 1;
        assert(all.take(i as int).drop_last() =~= all.take(i - 1));
        assert(all.take(i as int).last() == row(groups@[i - 1]@));
        assert(out@ =~= start + crate::text::stacked(all.take(i as int)));
    }
    assert(all.take(i as int) =~= all);
    trim_end(out.as_str())
}

/// Filter grepai trace callers/callees output: group by file, deduplicate.
///
/// Input format:
/// ```text
/// Symbol: login (function)
/// File: backend/src/auth.py:117
///
/// Callers (27):
///
///   Caller 1:
///     Function: test_login_success (function)
///     Calls at: tests/authRepository.test.ts:61
///     ... code ...
///
///   Caller 2:
///     Function: test_login_failure (function)
///     Calls at: tests/authRepository.test.ts:96
///     ... code ...
/// ```
///
/// Output format:
/// ```text
/// login (function) @ auth.py:117 — 27 callers in 8 files:
///
///   authRepository.test.ts  18x (lines: 61,96,126,...)
///   test_exercise_library.py  2x (line: 120)
///   conftest.py:598  1x
/// ```
///
/// The files with the most calls come first; files with equally many calls
/// come in the order in which the listing first names them. A row counts the
/// calls and lists the lines that hold them in increasing order, each once: up
/// to five lines in full, of more the first three.
///
/// Output whose header names no symbol is returned as it is, but for the white
/// space at its ends.
pub fn filter_trace(output: &str) -> (out: String)
    ensures
        out@ == filtered(output@),
{
    let lines = lines(output);
    let (header, start) = parse_header(&lines);
    if header.symbol_name.as_str().is_empty() {
        return trim(output);
    }
    let groups = parse_groups(&lines, start);
    let ordered = rank_groups(groups);
    write_report(&header, &ordered)
}

} // verus!
