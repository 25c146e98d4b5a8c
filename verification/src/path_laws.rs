//! What a report shows of a path, character by character.

use vstd::prelude::*;

verus! {

/// Whether `s` is slashes and nothing else, or empty.
pub open spec fn only_slashes(s: Seq<char>) -> bool {
    forall|i: int| 0 <= i < s.len() ==> #[trigger] s[i] == '/'
}

/// A path is split at its last slash or backslash: the name is what stands
/// behind it, the parent what stands before it, with slashes for backslashes
/// and every other character as it is.
pub proof fn law_path_is_split_at_its_last_slash(dir: Seq<char>, sep: char, name: Seq<char>)
    requires
        sep == '/' || sep == '\\',
        !name.contains('/'),
        !name.contains('\\'),
    ensures
        crate::path::file_name(dir + seq![sep] + name) == name,
        crate::path::parent_dir(dir + seq![sep] + name).len() == dir.len(),
        forall|i: int|
            0 <= i < dir.len() ==> #[trigger] crate::path::parent_dir(dir + seq![sep] + name)[i]
                == if dir[i] == '\\' {
                '/'
            } else {
                dir[i]
            },
        crate::path::file_name(name) == name,
        crate::path::parent_dir(name).len() == 0,
{
    assert forall|i: int| 0 <= i < name.len() implies name[i] != '/' && name[i] != '\\' by {
        assert(name.contains(name[i]));
    }
    let path = dir + seq![sep] + name;
    let s = crate::path::with_slashes(path);
    let start = dir.len() + 1;
    crate::path::lemma_name_start(s);
    assert(s[dir.len() as int] == '/');
    let at = crate::path::name_start(s) as int;
    assert(at >= start);
    if at > start {
        assert(s[at - 1] == path[at - 1]);
        assert(path[at - 1] == name[at - 1 - start]);
    }
    assert(crate::path::file_name(path) =~= name);
    let alone = crate::path::with_slashes(name);
    crate::path::lemma_name_start(alone);
    if crate::path::name_start(alone) > 0 {
        assert(alone[crate::path::name_start(alone) - 1] == '/');
        assert(name[crate::path::name_start(alone) - 1] == '/');
    }
    assert(crate::path::file_name(name) =~= name);
}

/// A deep directory, of four names or more between slashes, is shown by its
/// first two names and its last, the directory that holds the file.
pub proof fn law_deep_directories_are_compacted(
    before: Seq<char>,
    first: Seq<char>,
    gap: Seq<char>,
    second: Seq<char>,
    next: Seq<char>,
    middle: Seq<char>,
    end: Seq<char>,
    last: Seq<char>,
    after: Seq<char>,
)
    requires
        only_slashes(before) && only_slashes(gap) && only_slashes(next) && only_slashes(end)
            && only_slashes(after),
        gap.len() > 0 && next.len() > 0 && end.len() > 0,
        first.len() > 0 && !first.contains('/'),
        second.len() > 0 && !second.contains('/'),
        last.len() > 0 && !last.contains('/'),
        middle.len() > 0 && middle[0] != '/',
    ensures
        crate::path::compacted(
            before + first + gap + second + next + middle + end + last + after,
        ) == first + "/"@ + second + "/.../"@ + last + "/"@,
{
    let r3 = last + after;
    let r2 = middle + end + r3;
    let r1 = second + next + r2;
    let r0 = first + gap + r1;
    assert(before + first + gap + second + next + middle + end + last + after =~= before + r0);
    lemma_slashes_before(before, r0);
    lemma_slashes_between(first, gap, r1);
    lemma_slashes_between(second, next, r2);
    lemma_slashes_between(middle, end, r3);
    lemma_slashes_behind(last, after);
    lemma_one_name(first);
    lemma_one_name(second);
    lemma_one_name(last);
    lemma_some_name(middle);
    let parts = crate::path::components(before + r0);
    assert(parts =~= seq![first, second] + crate::path::components(middle) + seq![last]);
}

/// A directory of up to three names between slashes is shown as it is, with a
/// slash behind it.
pub proof fn law_short_directories_are_shown_in_full(
    before: Seq<char>,
    first: Seq<char>,
    gap: Seq<char>,
    second: Seq<char>,
    next: Seq<char>,
    third: Seq<char>,
    after: Seq<char>,
)
    requires
        only_slashes(before) && only_slashes(gap) && only_slashes(next) && only_slashes(after),
        !first.contains('/') && !second.contains('/') && !third.contains('/'),
    ensures
        crate::path::compacted(before + first + gap + second + next + third + after) == before
            + first + gap + second + next + third + after + "/"@,
{
    let r2 = third + after;
    let r1 = second + (next + r2);
    let r0 = first + (gap + r1);
    assert(before + first + gap + second + next + third + after =~= before + r0);
    lemma_slashes_before(before, r0);
    lemma_slashes_before(gap, r1);
    lemma_slashes_before(next, r2);
    lemma_slashes_behind(third, after);
    lemma_at_most_one_more(first, gap + r1);
    lemma_at_most_one_more(second, next + r2);
    lemma_at_most_one_more(third, Seq::empty());
    assert(third + Seq::<char>::empty() =~= third);
    lemma_no_name();
}

/// Text in front of a separator and text behind it are split one by one.
proof fn lemma_pieces_concat(a: Seq<char>, b: Seq<char>, sep: char)
    ensures
        crate::text::pieces(a + seq![sep] + b, sep) == crate::text::pieces(a, sep)
            + crate::text::pieces(b, sep),
    decreases a.len(),
{
    let s = a + seq![sep] + b;
    let n = crate::text::run_len(a, sep) as int;
    let m = crate::text::run_len(s, sep) as int;
    crate::layout::lemma_run(a, sep);
    crate::layout::lemma_run(s, sep);
    assert(s[a.len() as int] == sep);
    assert(m <= a.len());
    if m < n {
        assert(s[m] == a[m]);
    }
    if n < m {
        assert(s[n] == if n < a.len() {
            a[n]
        } else {
            sep
        });
    }
    assert(m == n);
    if n < a.len() {
        let rest = a.skip(n + 1);
        assert(s.take(n) =~= a.take(n));
        assert(s.skip(n + 1) =~= rest + seq![sep] + b);
        lemma_pieces_concat(rest, b, sep);
        assert(crate::text::pieces(s, sep) =~= crate::text::pieces(a, sep) + crate::text::pieces(
            b,
            sep,
        ));
    } else {
        assert(s.take(n) =~= a);
        assert(s.skip(n + 1) =~= b);
    }
}

/// The parts of two lists that hold something.
proof fn lemma_nonempty_concat(a: Seq<Seq<char>>, b: Seq<Seq<char>>)
    ensures
        crate::text::nonempty(a + b) == crate::text::nonempty(a) + crate::text::nonempty(b),
    decreases b.len(),
{
    if b.len() == 0 {
        assert(a + b =~= a);
        assert(crate::text::nonempty(a) + crate::text::nonempty(b) =~= crate::text::nonempty(a));
    } else {
        assert((a + b).drop_last() =~= a + b.drop_last());
        lemma_nonempty_concat(a, b.drop_last());
        assert(crate::text::nonempty(a + b) =~= crate::text::nonempty(a) + crate::text::nonempty(
            b,
        ));
    }
}

/// The names before and behind a slash.
proof fn lemma_components_concat(a: Seq<char>, b: Seq<char>)
    ensures
        crate::path::components(a + seq!['/'] + b) == crate::path::components(a)
            + crate::path::components(b),
{
    lemma_pieces_concat(a, b, '/');
    lemma_nonempty_concat(crate::text::pieces(a, '/'), crate::text::pieces(b, '/'));
}

/// Nothing holds no name.
proof fn lemma_no_name()
    ensures
        crate::path::components(Seq::empty()) == Seq::<Seq<char>>::empty(),
{
    let parts = crate::text::pieces(Seq::empty(), '/');
    assert(parts =~= seq![Seq::<char>::empty()]);
    assert(crate::text::nonempty(parts.drop_last()) =~= Seq::empty());
    assert(crate::text::nonempty(parts) =~= Seq::empty());
}

/// A text without a slash is one piece.
proof fn lemma_one_piece(name: Seq<char>)
    requires
        !name.contains('/'),
    ensures
        crate::text::pieces(name, '/') == seq![name],
{
    let n = crate::text::run_len(name, '/') as int;
    crate::layout::lemma_run(name, '/');
    if n < name.len() {
        assert(name.contains(name[n]));
    }
}

/// A text without a slash is one name, if it holds anything.
proof fn lemma_one_name(name: Seq<char>)
    requires
        !name.contains('/'),
        name.len() > 0,
    ensures
        crate::path::components(name) == seq![name],
{
    lemma_one_piece(name);
    assert(crate::text::nonempty(seq![name].drop_last()) =~= Seq::empty());
    assert(crate::path::components(name) =~= seq![name]);
}

/// A text that starts with no slash holds a name.
proof fn lemma_some_name(s: Seq<char>)
    requires
        s.len() > 0,
        s[0] != '/',
    ensures
        crate::path::components(s).len() > 0,
{
    let n = crate::text::run_len(s, '/') as int;
    crate::layout::lemma_run(s, '/');
    let first = s.take(n);
    assert(!first.contains('/'));
    lemma_one_name(first);
    if n < s.len() {
        assert(s =~= first + seq!['/'] + s.skip(n + 1));
        lemma_components_concat(first, s.skip(n + 1));
    } else {
        assert(first =~= s);
    }
}

/// Slashes at the start make no difference to the names.
proof fn lemma_slashes_before(slashes: Seq<char>, s: Seq<char>)
    requires
        only_slashes(slashes),
    ensures
        crate::path::components(slashes + s) == crate::path::components(s),
    decreases slashes.len(),
{
    if slashes.len() == 0 {
        assert(slashes + s =~= s);
    } else {
        let rest = slashes.drop_first();
        assert forall|i: int| 0 <= i < rest.len() implies #[trigger] rest[i] == '/' by {
            assert(rest[i] == slashes[i + 1]);
        }
        assert(slashes[0] == '/');
        assert(slashes + s =~= Seq::<char>::empty() + seq!['/'] + (rest + s));
        lemma_components_concat(Seq::empty(), rest + s);
        lemma_no_name();
        lemma_slashes_before(rest, s);
        assert(Seq::<Seq<char>>::empty() + crate::path::components(s) =~= crate::path::components(
            s,
        ));
    }
}

/// Slashes between two texts part their names.
proof fn lemma_slashes_between(a: Seq<char>, slashes: Seq<char>, b: Seq<char>)
    requires
        only_slashes(slashes),
        slashes.len() > 0,
    ensures
        crate::path::components(a + slashes + b) == crate::path::components(a)
            + crate::path::components(b),
{
    let rest = slashes.drop_first();
    assert forall|i: int| 0 <= i < rest.len() implies #[trigger] rest[i] == '/' by {
        assert(rest[i] == slashes[i + 1]);
    }
    assert(slashes[0] == '/');
    assert(a + slashes + b =~= a + seq!['/'] + (rest + b));
    lemma_components_concat(a, rest + b);
    lemma_slashes_before(rest, b);
}

/// Slashes at the end make no difference to the names.
proof fn lemma_slashes_behind(s: Seq<char>, slashes: Seq<char>)
    requires
        only_slashes(slashes),
    ensures
        crate::path::components(s + slashes) == crate::path::components(s),
{
    if slashes.len() == 0 {
        assert(s + slashes =~= s);
    } else {
        lemma_slashes_between(s, slashes, Seq::empty());
        lemma_no_name();
        assert(s + slashes + Seq::<char>::empty() =~= s + slashes);
        assert(crate::path::components(s) + Seq::<Seq<char>>::empty() =~= crate::path::components(
            s,
        ));
    }
}

/// A text without a slash in front adds at most one name.
proof fn lemma_at_most_one_more(name: Seq<char>, rest: Seq<char>)
    requires
        !name.contains('/'),
    ensures
        crate::path::components(name + rest).len() <= 1 + crate::path::components(rest).len(),
{
    let n = crate::text::run_len(rest, '/') as int;
    crate::layout::lemma_run(rest, '/');
    let first = name + rest.take(n);
    assert(!first.contains('/')) by {
        assert forall|i: int| 0 <= i < first.len() implies first[i] != '/' by {
            if i < name.len() {
                assert(name.contains(name[i]));
            } else {
                assert(first[i] == rest[i - name.len()]);
            }
        }
    }
    lemma_no_name();
    if first.len() > 0 {
        lemma_one_name(first);
    } else {
        assert(first =~= Seq::empty());
    }
    if n < rest.len() {
        let later = rest.skip(n + 1);
        assert(name + rest =~= first + seq!['/'] + later);
        assert(rest =~= rest.take(n) + seq!['/'] + later);
        lemma_components_concat(first, later);
        lemma_components_concat(rest.take(n), later);
    } else {
        assert(name + rest =~= first);
    }
}

/// What `split_path` returns: what stands behind the last slash or backslash,
/// and what stands before it, with slashes for backslashes.
pub proof fn law_split_path_returns_name_and_parent(
    path: &str,
    parts: (String, String),
    dir: Seq<char>,
    sep: char,
    name: Seq<char>,
)
    requires
        call_ensures(crate::path::split_path, (path,), parts),
        sep == '/' || sep == '\\',
        !name.contains('/'),
        !name.contains('\\'),
    ensures
        path@ == dir + seq![sep] + name ==> parts.0@ == name && parts.1@.len() == dir.len()
            && forall|i: int|
            0 <= i < dir.len() ==> #[trigger] parts.1@[i] == if dir[i] == '\\' {
                '/'
            } else {
                dir[i]
            },
        path@ == name ==> parts.0@ == name && parts.1@.len() == 0,
{
    law_path_is_split_at_its_last_slash(dir, sep, name);
}

/// What `compact_parent` returns: of a directory of four names or more the
/// first two and the last, which holds no slash and is the last in it.
pub proof fn law_compact_parent_keeps_the_last_name(
    parent: &str,
    out: String,
    above: Seq<char>,
    last: Seq<char>,
)
    requires
        call_ensures(crate::path::compact_parent, (parent,), out),
        parent@ == above + seq!['/'] + last,
        last.len() > 0,
        !last.contains('/'),
    ensures
        crate::path::components(above).len() >= 3 ==> exists|front: Seq<char>|
            out@ == #[trigger] (front + "/.../"@ + last + "/"@),
        crate::path::components(above).len() < 3 ==> out@ == parent@ + "/"@,
{
    lemma_components_concat(above, last);
    lemma_one_name(last);
    let parts = crate::path::components(parent@);
    if crate::path::components(above).len() >= 3 {
        assert(parts.last() == last);
        let front = parts[0] + "/"@ + parts[1];
        assert(out@ =~= front + "/.../"@ + last + "/"@);
    }
}

/// The names of a directory are what stands between its slashes, without the
/// empty parts, in their order.
pub proof fn law_components_are_the_names(parent: Seq<char>)
    ensures
        crate::path::components(parent) == crate::text::pieces(parent, '/').filter(
            |part: Seq<char>| part.len() > 0,
        ),
{
    crate::text_laws::law_only_empty_parts_are_dropped(crate::text::pieces(parent, '/'));
}

} // verus!
