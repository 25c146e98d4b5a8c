//! File paths as a report shows them.

use crate::text::{chars_of, keep_nonempty, split, string_of};
use vstd::prelude::*;

verus! {

/// `path` with every backslash turned into a slash.
pub open spec fn with_slashes(path: Seq<char>) -> Seq<char> {
    Seq::new(
        path.len(),
        |i: int|
            if path[i] == '\\' {
                '/'
            } else {
                path[i]
            },
    )
}

/// Where the part of `path` after its last slash begins.
pub open spec fn name_start(path: Seq<char>) -> nat
    decreases path.len(),
{
    if path.len() == 0 || path.last() == '/' {
        path.len()
    } else {
        name_start(path.drop_last())
    }
}

/// The last component of a path, behind its last slash or backslash.
pub open spec fn file_name(path: Seq<char>) -> Seq<char> {
    let path = with_slashes(path);
    path.skip(name_start(path) as int)
}

/// The path in front of its last slash or backslash, with slashes only; empty
/// where there is none.
pub open spec fn parent_dir(path: Seq<char>) -> Seq<char> {
    let path = with_slashes(path);
    if name_start(path) == 0 {
        Seq::empty()
    } else {
        path.take(name_start(path) - 1)
    }
}

/// The names between the slashes of a directory path.
pub open spec fn components(path: Seq<char>) -> Seq<Seq<char>> {
    crate::text::nonempty(crate::text::pieces(path, '/'))
}

/// A directory path for display: as it is and with a slash behind it up to
/// three components, else the first two and the last.
pub open spec fn compacted(parent: Seq<char>) -> Seq<char> {
    let parts = components(parent);
    if parts.len() <= 3 {
        parent + "/"@
    } else {
        parts[0] + "/"@ + parts[1] + "/.../"@ + parts.last() + "/"@
    }
}

/// Turns every backslash into a slash.
fn slashed(path: &str) -> (out: Vec<char>)
    ensures
        out@ == with_slashes(path@),
{
    let chars = chars_of(path);
    let mut out: Vec<char> = Vec::new();
    let mut i: usize = 0;
    while i < chars.len()
        invariant
            i <= chars@.len(),
            chars@ == path@,
            out@ == with_slashes(path@).take(i as int),
        decreases chars@.len() - i,
    {
        let c = chars[i];
        out.push(if c == '\\' { '/' } else { c });
        i += 1;
        assert(out@ =~= with_slashes(path@).take(i as int));
    }
    assert(out@ =~= with_slashes(path@));
    out
}

/// Split a path into (filename, parent_directory).
///
/// Backslashes count as slashes. A path without a directory has the empty
/// parent.
pub fn split_path(path: &str) -> (parts: (String, String))
    ensures
        parts.0@ == file_name(path@),
        parts.1@ == parent_dir(path@),
{
    let chars = slashed(path);
    let mut start: usize = chars.len();
    assert(chars@.take(start as int) =~= chars@);
    while start > 0 && chars[start - 1] != '/'
        invariant
            start <= chars@.len(),
            name_start(chars@.take(start as int)) == name_start(chars@),
        decreases start,
    {
        assert(chars@.take(start as int).drop_last() =~= chars@.take(start - 1));
        start -= 1;
    }
    assert(start > 0 ==> chars@.take(start as int).last() == '/');
    assert(start == name_start(chars@));
    let name = string_of(&chars, start, chars.len());
    assert(name@ =~= chars@.skip(start as int));
    let parent = if start == 0 {
        String::new()
    } else {
        string_of(&chars, 0, start - 1)
    };
    assert(parent@ =~= parent_dir(path@));
    (name, parent)
}

/// Compact a parent directory path for display.
/// e.g. "backend/src/some/deep/path/api" becomes "backend/src/.../api/"
pub fn compact_parent(parent: &str) -> (out: String)
    ensures
        out@ == compacted(parent@),
{
    let pieces = split(parent, '/');
    let parts = keep_nonempty(&pieces);
    assert(crate::text::texts(parts@) == components(parent@));
    let mut out = String::new();
    if parts.len() <= 3 {
        out.append(parent);
        out.append("/");
        assert(out@ =~= compacted(parent@));
    } else {
        out.append(parts[0].as_str());
        out.append("/");
        out.append(parts[1].as_str());
        out.append("/.../");
        out.append(parts[parts.len() - 1].as_str());
        out.append("/");
        assert(out@ =~= compacted(parent@));
    }
    out
}

/// The parts of a path make up the path again: with a slash between parent and
/// name where the path has one, and the name alone where it has none.
pub proof fn law_split_path_rejoins(path: Seq<char>)
    ensures
        with_slashes(path).contains('/') ==> parent_dir(path) + "/"@ + file_name(path)
            == with_slashes(path),
        !with_slashes(path).contains('/') ==> file_name(path) == with_slashes(path) && parent_dir(
            path,
        ).len() == 0,
{
    let s = with_slashes(path);
    lemma_name_start(s);
    reveal_strlit("/");
    if s.contains('/') {
        let i = choose|i: int| 0 <= i < s.len() && s[i] == '/';
        assert(i < name_start(s));
        assert(parent_dir(path) + "/"@ + file_name(path) =~= s);
    } else {
        if name_start(s) > 0 {
            assert(s[name_start(s) - 1] == '/');
        }
        assert(file_name(path) =~= s);
    }
}

/// The name of a file holds neither a slash nor a backslash.
pub proof fn law_file_name_is_one_component(path: Seq<char>)
    ensures
        !file_name(path).contains('/'),
        !file_name(path).contains('\\'),
{
    let s = with_slashes(path);
    lemma_name_start(s);
    assert forall|i: int| 0 <= i < file_name(path).len() implies file_name(path)[i] != '/'
        && file_name(path)[i] != '\\' by {
        assert(file_name(path)[i] == s[i + name_start(s)]);
    }
}

/// Slashes and backslashes are alike.
pub proof fn law_backslashes_are_slashes(path: Seq<char>)
    ensures
        file_name(path) == file_name(with_slashes(path)),
        parent_dir(path) == parent_dir(with_slashes(path)),
{
    assert(with_slashes(with_slashes(path)) =~= with_slashes(path));
}

/// The start of the name: no slash stands behind it, and one right before it.
pub proof fn lemma_name_start(path: Seq<char>)
    ensures
        name_start(path) <= path.len(),
        name_start(path) > 0 ==> path[name_start(path) - 1] == '/',
        forall|i: int| name_start(path) <= i < path.len() ==> path[i] != '/',
    decreases path.len(),
{
    if path.len() > 0 && path.last() != '/' {
        lemma_name_start(path.drop_last());
        assert forall|i: int| name_start(path) <= i < path.len() implies path[i] != '/' by {
            if i < path.len() - 1 {
                assert(path.drop_last()[i] != '/');
            }
        }
    }
}

} // verus!
