//! How text that is put together from lines falls into lines again.

use vstd::prelude::*;

verus! {

/// Whether `s` holds no line ending.
pub open spec fn one_line(s: Seq<char>) -> bool {
    forall|i: int| 0 <= i < s.len() ==> #[trigger] s[i] != '\n'
}

/// Whether a line can begin behind `s`.
pub open spec fn at_line_start(s: Seq<char>) -> bool {
    s.len() == 0 || s.last() == '\n'
}

/// Two texts without line endings make up one.
pub broadcast proof fn lemma_one_line_concat(a: Seq<char>, b: Seq<char>)
    requires
        one_line(a),
        one_line(b),
    ensures
        #[trigger] one_line(a + b),
{
    assert forall|i: int| 0 <= i < (a + b).len() implies #[trigger] (a + b)[i] != '\n' by {
        if i < a.len() {
            assert((a + b)[i] == a[i]);
        } else {
            assert((a + b)[i] == b[i - a.len()]);
        }
    }
}

/// Where the line ending behind a text without one stands.
pub proof fn lemma_run_len(a: Seq<char>, rest: Seq<char>)
    requires
        one_line(a),
        rest.len() == 0 || rest[0] == '\n',
    ensures
        crate::text::run_len(a + rest, '\n') == a.len(),
    decreases a.len(),
{
    if a.len() == 0 {
        assert(a + rest =~= rest);
    } else {
        assert((a + rest)[0] == a[0]);
        assert((a + rest).drop_first() =~= a.drop_first() + rest);
        assert forall|i: int| 0 <= i < a.drop_first().len() implies #[trigger] a.drop_first()[i]
            != '\n' by {
            assert(a.drop_first()[i] == a[i + 1]);
        }
        lemma_run_len(a.drop_first(), rest);
    }
}

/// What a run holds, and what ends it.
pub proof fn lemma_run(s: Seq<char>, sep: char)
    ensures
        crate::text::run_len(s, sep) <= s.len(),
        forall|i: int| 0 <= i < crate::text::run_len(s, sep) ==> s[i] != sep,
        crate::text::run_len(s, sep) < s.len() ==> s[crate::text::run_len(s, sep) as int] == sep,
    decreases s.len(),
{
    if s.len() > 0 && s[0] != sep {
        lemma_run(s.drop_first(), sep);
        let n = crate::text::run_len(s, sep) as int;
        assert forall|i: int| 0 <= i < n implies s[i] != sep by {
            if i > 0 {
                assert(s[i] == s.drop_first()[i - 1]);
            }
        }
        assert(n < s.len() ==> s[n] == s.drop_first()[n - 1]);
    }
}

/// A text without a line ending is one line.
pub proof fn lemma_single_line(a: Seq<char>)
    requires
        one_line(a),
        a.len() > 0,
    ensures
        crate::text::lines_of(a) == seq![a],
{
    assert(a + Seq::<char>::empty() =~= a);
    lemma_run_len(a, Seq::empty());
}

/// The first line of a text is what stands before its first line ending.
pub proof fn lemma_first_line(a: Seq<char>, rest: Seq<char>)
    requires
        one_line(a),
    ensures
        crate::text::lines_of(a + "\n"@ + rest) == seq![crate::text::without_return(a)]
            + crate::text::lines_of(rest),
{
    reveal_strlit("\n");
    let s = a + "\n"@ + rest;
    assert(s =~= a + ("\n"@ + rest));
    assert(("\n"@ + rest)[0] == '\n');
    lemma_run_len(a, "\n"@ + rest);
    assert(s.take(a.len() as int) =~= a);
    assert(s.skip(a.len() + 1int) =~= rest);
}

/// Text that ends in a line ending and what follows it fall into lines one by
/// one.
pub proof fn lemma_lines_concat(a: Seq<char>, b: Seq<char>)
    requires
        at_line_start(a),
    ensures
        crate::text::lines_of(a + b) == crate::text::lines_of(a) + crate::text::lines_of(b),
    decreases a.len(),
{
    if a.len() == 0 {
        assert(a + b =~= b);
        assert(Seq::<Seq<char>>::empty() + crate::text::lines_of(b) =~= crate::text::lines_of(b));
    } else {
        reveal_strlit("\n");
        let n = crate::text::run_len(a, '\n') as int;
        lemma_run(a, '\n');
        assert(n < a.len()) by {
            if n >= a.len() {
                assert(a[a.len() - 1] != '\n');
            }
        }
        let line = a.take(n);
        let rest = a.skip(n + 1);
        assert(a =~= line + "\n"@ + rest);
        assert(a + b =~= line + "\n"@ + (rest + b));
        assert(at_line_start(rest)) by {
            if rest.len() > 0 {
                assert(rest.last() == a.last());
            }
        }
        lemma_first_line(line, rest);
        lemma_first_line(line, rest + b);
        lemma_lines_concat(rest, b);
        let first = seq![crate::text::without_return(line)];
        assert(first + (crate::text::lines_of(rest) + crate::text::lines_of(b)) =~= (first
            + crate::text::lines_of(rest)) + crate::text::lines_of(b));
    }
}

/// A line ending behind text that ends in something visible is trimmed away,
/// and nothing more.
pub proof fn lemma_trim_line_end(s: Seq<char>, ending: Seq<char>)
    requires
        s.len() > 0,
        !crate::text::is_white_space(s.last()),
        forall|i: int| 0 <= i < ending.len() ==> #[trigger] ending[i] == '\n',
    ensures
        crate::text::trimmed_end(s + ending) == s,
    decreases ending.len(),
{
    if ending.len() == 0 {
        assert(s + ending =~= s);
    } else {
        assert((s + ending).last() == ending.last());
        assert(ending[ending.len() - 1] == '\n');
        assert((s + ending).drop_last() =~= s + ending.drop_last());
        lemma_trim_line_end(s, ending.drop_last());
    }
}

/// A number in decimal is digits.
pub proof fn lemma_decimal(n: nat)
    ensures
        crate::text::decimal(n).len() > 0,
        crate::text::all_ascii_digits(crate::text::decimal(n)),
        one_line(crate::text::decimal(n)),
        crate::text::decimal_value(crate::text::decimal(n)) == n,
    decreases n,
{
    let s = crate::text::decimal(n);
    if n < 10 {
        assert(s.drop_last() =~= Seq::empty());
        assert(crate::text::decimal_value(s.drop_last()) == 0);
    } else {
        lemma_decimal(n / 10);
        assert(s.drop_last() =~= crate::text::decimal(n / 10));
        assert forall|i: int| 0 <= i < s.len() implies '0' <= #[trigger] s[i] <= '9' by {
            if i < s.len() - 1 {
                assert(s[i] == crate::text::decimal(n / 10)[i]);
            }
        }
    }
}

/// Parts without line endings and a separator without one are joined to one
/// text without line endings.
pub proof fn lemma_joined(parts: Seq<Seq<char>>, sep: Seq<char>)
    requires
        one_line(sep),
        forall|i: int| 0 <= i < parts.len() ==> one_line(#[trigger] parts[i]),
    ensures
        one_line(crate::text::joined(parts, sep)),
    decreases parts.len(),
{
    broadcast use lemma_one_line_concat;

    if parts.len() == 1 {
        assert(one_line(parts[0]));
    } else if parts.len() > 1 {
        assert forall|i: int| 0 <= i < parts.drop_last().len() implies one_line(
            #[trigger] parts.drop_last()[i],
        ) by {
            assert(parts.drop_last()[i] == parts[i]);
        }
        lemma_joined(parts.drop_last(), sep);
        assert(one_line(parts[parts.len() - 1]));
    }
}

/// The pieces of a text without line endings have none.
pub proof fn lemma_pieces(s: Seq<char>, sep: char)
    requires
        one_line(s),
    ensures
        forall|k: int|
            0 <= k < crate::text::pieces(s, sep).len() ==> one_line(
                #[trigger] crate::text::pieces(s, sep)[k],
            ),
    decreases s.len(),
{
    let n = crate::text::run_len(s, sep) as int;
    lemma_run(s, sep);
    if n < s.len() {
        let rest = s.skip(n + 1);
        assert(one_line(rest)) by {
            assert forall|i: int| 0 <= i < rest.len() implies #[trigger] rest[i] != '\n' by {
                assert(rest[i] == s[i + n + 1]);
            }
        }
        lemma_pieces(rest, sep);
        assert(one_line(s.take(n))) by {
            assert forall|i: int| 0 <= i < s.take(n).len() implies #[trigger] s.take(n)[i]
                != '\n' by {
                assert(s.take(n)[i] == s[i]);
            }
        }
        assert forall|k: int| 0 <= k < crate::text::pieces(s, sep).len() implies one_line(
            #[trigger] crate::text::pieces(s, sep)[k],
        ) by {
            if k > 0 {
                assert(crate::text::pieces(s, sep)[k] == crate::text::pieces(rest, sep)[k - 1]);
            }
        }
    }
}

/// The parts that hold something are parts.
pub proof fn lemma_nonempty(parts: Seq<Seq<char>>)
    requires
        forall|i: int| 0 <= i < parts.len() ==> one_line(#[trigger] parts[i]),
    ensures
        forall|i: int|
            0 <= i < crate::text::nonempty(parts).len() ==> one_line(
                #[trigger] crate::text::nonempty(parts)[i],
            ),
    decreases parts.len(),
{
    if parts.len() > 0 {
        assert forall|i: int| 0 <= i < parts.drop_last().len() implies one_line(
            #[trigger] parts.drop_last()[i],
        ) by {
            assert(parts.drop_last()[i] == parts[i]);
        }
        lemma_nonempty(parts.drop_last());
        assert(one_line(parts[parts.len() - 1]));
        let earlier = crate::text::nonempty(parts.drop_last());
        assert forall|i: int| 0 <= i < crate::text::nonempty(parts).len() implies one_line(
            #[trigger] crate::text::nonempty(parts)[i],
        ) by {
            if i < earlier.len() {
                assert(crate::text::nonempty(parts)[i] == earlier[i]);
            }
        }
    }
}

/// The parts of a path without line endings have none.
pub proof fn lemma_path_parts(path: Seq<char>)
    requires
        one_line(path),
    ensures
        one_line(crate::path::file_name(path)),
        one_line(crate::path::parent_dir(path)),
        one_line(crate::path::compacted(crate::path::parent_dir(path))),
{
    broadcast use lemma_one_line_concat;

    let s = crate::path::with_slashes(path);
    crate::path::lemma_name_start(s);
    let start = crate::path::name_start(s) as int;
    let name = crate::path::file_name(path);
    assert forall|i: int| 0 <= i < name.len() implies #[trigger] name[i] != '\n' by {
        assert(name[i] == s[i + start]);
        assert(path[i + start] != '\n');
    }
    let parent = crate::path::parent_dir(path);
    assert forall|i: int| 0 <= i < parent.len() implies #[trigger] parent[i] != '\n' by {
        assert(parent[i] == s[i]);
        assert(path[i] != '\n');
    }
    lemma_pieces(parent, '/');
    lemma_nonempty(crate::text::pieces(parent, '/'));
    reveal_strlit("/");
    reveal_strlit("/.../");
    let parts = crate::path::components(parent);
    if parts.len() > 3 {
        assert(one_line(parts[0]));
        assert(one_line(parts[1]));
        assert(one_line(parts[parts.len() - 1]));
    }
}

/// Rows, each with a line ending, fall into the rows again.
pub proof fn lemma_stacked(rows: Seq<Seq<char>>)
    requires
        forall|k: int| 0 <= k < rows.len() ==> visible(#[trigger] rows[k]),
    ensures
        at_line_start(crate::text::stacked(rows)),
        crate::text::lines_of(crate::text::stacked(rows)) == rows,
    decreases rows.len(),
{
    if rows.len() == 0 {
        assert(crate::text::lines_of(crate::text::stacked(rows)) =~= rows);
    } else {
        let earlier = rows.drop_last();
        let row = rows.last();
        assert(visible(rows[rows.len() - 1]));
        assert forall|k: int| 0 <= k < earlier.len() implies visible(#[trigger] earlier[k]) by {
            assert(earlier[k] == rows[k]);
        }
        lemma_stacked(earlier);
        reveal_strlit("\n");
        let all = crate::text::stacked(rows);
        assert(all.last() == '\n');
        assert(all =~= crate::text::stacked(earlier) + (row + "\n"@));
        lemma_lines_concat(crate::text::stacked(earlier), row + "\n"@);
        assert(row + "\n"@ =~= row + "\n"@ + Seq::<char>::empty());
        lemma_first_line(row, Seq::empty());
        assert(crate::text::lines_of(row + "\n"@) =~= seq![row]);
        assert(earlier + seq![row] =~= rows);
    }
}

/// A line that ends in something visible.
pub open spec fn visible(line: Seq<char>) -> bool {
    &&& one_line(line)
    &&& line.len() > 0
    &&& !crate::text::is_white_space(line.last())
}

/// A title, a blank line and rows fall into the title, an empty line and the
/// rows; without rows the title is all there is.
pub proof fn lemma_page(title: Seq<char>, rows: Seq<Seq<char>>)
    requires
        visible(title),
        forall|k: int| 0 <= k < rows.len() ==> visible(#[trigger] rows[k]),
    ensures
        rows.len() == 0 ==> crate::text::page(title, rows) == title,
        rows.len() > 0 ==> crate::text::lines_of(crate::text::page(title, rows)) == seq![
            title,
            Seq::empty(),
        ] + rows,
        crate::text::page(title, rows).len() >= title.len(),
        crate::text::page(title, rows)[0] == title[0],
        !crate::text::is_white_space(crate::text::page(title, rows).last()),
{
    reveal_strlit("\n\n");
    reveal_strlit("\n");
    let full = title + "\n\n"@ + crate::text::stacked(rows);
    if rows.len() == 0 {
        assert(full =~= title + "\n\n"@);
        lemma_trim_line_end(title, "\n\n"@);
    } else {
        let earlier = rows.drop_last();
        let row = rows.last();
        assert(visible(rows[rows.len() - 1]));
        assert forall|k: int| 0 <= k < earlier.len() implies visible(#[trigger] earlier[k]) by {
            assert(earlier[k] == rows[k]);
        }
        lemma_stacked(earlier);
        let start = title + "\n\n"@ + crate::text::stacked(earlier);
        assert(at_line_start(start)) by {
            if earlier.len() > 0 {
                assert(crate::text::stacked(earlier).len() > 0);
                assert(start.last() == crate::text::stacked(earlier).last());
            } else {
                assert(start =~= title + "\n\n"@);
                assert(start.last() == "\n\n"@[1]);
            }
        }
        let body = start + row;
        assert(body.last() == row.last());
        assert(full =~= body + "\n"@);
        lemma_trim_line_end(body, "\n"@);
        assert(crate::text::page(title, rows) == body);
        assert(body[0] == title[0]);
        lemma_lines_concat(start, row);
        lemma_single_line(row);
        let blank = Seq::<char>::empty();
        let rest = "\n"@ + crate::text::stacked(earlier);
        assert(start =~= title + "\n"@ + rest);
        lemma_first_line(title, rest);
        assert(rest =~= blank + "\n"@ + crate::text::stacked(earlier));
        lemma_first_line(blank, crate::text::stacked(earlier));
        assert(crate::text::without_return(title) == title);
        assert(crate::text::lines_of(body) =~= seq![title, blank] + rows);
    }
}

/// Text that neither starts nor ends in white space is trimmed already.
pub proof fn lemma_trimmed(s: Seq<char>)
    requires
        s.len() > 0 ==> !crate::text::is_white_space(s[0]) && !crate::text::is_white_space(
            s.last(),
        ),
    ensures
        crate::text::trimmed(s) == s,
{
}

/// Where the text begins behind the white space at its start.
proof fn lemma_trimmed_start(s: Seq<char>) -> (from: int)
    ensures
        0 <= from <= s.len(),
        crate::text::trimmed_start(s) == s.skip(from),
        forall|i: int| 0 <= i < from ==> crate::text::is_white_space(#[trigger] s[i]),
        from < s.len() ==> !crate::text::is_white_space(s[from]),
    decreases s.len(),
{
    if s.len() > 0 && crate::text::is_white_space(s[0]) {
        let rest = s.drop_first();
        let from = lemma_trimmed_start(rest);
        assert(rest.skip(from) =~= s.skip(from + 1));
        assert forall|i: int| 0 <= i < from + 1 implies crate::text::is_white_space(
            #[trigger] s[i],
        ) by {
            if i > 0 {
                assert(s[i] == rest[i - 1]);
            }
        }
        from + 1
    } else {
        assert(s.skip(0) =~= s);
        0
    }
}

/// Where the text ends before the white space at its end.
proof fn lemma_trimmed_end(s: Seq<char>) -> (to: int)
    ensures
        0 <= to <= s.len(),
        crate::text::trimmed_end(s) == s.take(to),
        forall|i: int| to <= i < s.len() ==> crate::text::is_white_space(#[trigger] s[i]),
        to > 0 ==> !crate::text::is_white_space(s[to - 1]),
    decreases s.len(),
{
    if s.len() > 0 && crate::text::is_white_space(s.last()) {
        let rest = s.drop_last();
        let to = lemma_trimmed_end(rest);
        assert(rest.take(to) =~= s.take(to));
        assert forall|i: int| to <= i < s.len() implies crate::text::is_white_space(
            #[trigger] s[i],
        ) by {
            if i < rest.len() {
                assert(s[i] == rest[i]);
            }
        }
        to
    } else {
        assert(s.take(s.len() as int) =~= s);
        s.len() as int
    }
}

/// Trimming keeps the text: it cuts off white space at both ends, all of it,
/// and nothing else.
pub proof fn law_trimming_keeps_the_text(s: Seq<char>)
    ensures
        exists|from: int, to: int|
            {
                &&& 0 <= from <= to <= s.len()
                &&& #[trigger] s.subrange(from, to) == crate::text::trimmed(s)
                &&& forall|i: int| 0 <= i < from ==> crate::text::is_white_space(#[trigger] s[i])
                &&& forall|i: int|
                    to <= i < s.len() ==> crate::text::is_white_space(#[trigger] s[i])
                &&& from < to ==> !crate::text::is_white_space(s[from])
                    && !crate::text::is_white_space(s[to - 1])
            },
{
    let from = lemma_trimmed_start(s);
    let rest = s.skip(from);
    let len = lemma_trimmed_end(rest);
    let to = from + len;
    assert(s.subrange(from, to) =~= rest.take(len));
    assert forall|i: int| to <= i < s.len() implies crate::text::is_white_space(
        #[trigger] s[i],
    ) by {
        assert(s[i] == rest[i - from]);
    }
    assert(len > 0 ==> s[to - 1] == rest[len - 1]);
}

} // verus!
