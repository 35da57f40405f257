//! Paths as texts: components separated by `/`.

use vstd::prelude::*;
use vstd::pervasive::unreached;
use crate::text::chars_of;

verus! {

/// `relative` below `base`: the two with one separator between them, which
/// is not added where `base` is empty or already ends in one.
pub open spec fn join(base: Seq<char>, relative: Seq<char>) -> Seq<char> {
    if base.len() == 0 {
        relative
    } else if base.last() == '/' {
        base + relative
    } else {
        base + seq!['/'] + relative
    }
}

/// The path of `relative` below `base`: see [`join`].
pub fn join_path(base: &str, relative: &str) -> (joined: String)
    ensures
        joined@ == join(base@, relative@),
{
    let len = base.unicode_len();
    if len == 0 {
        return relative.to_owned();
    }
    let mut joined = base.to_owned();
    if base.get_char(len - 1) != '/' {
        proof {
            reveal_strlit("/");
        }
        joined.append("/");
        assert("/"@ =~= seq!['/']);
    }
    joined.append(relative);
    joined
}

/// The component `..` stands in `path` at index `at`: two dots between
/// separators or the ends of the path.
pub open spec fn parent_at(path: Seq<char>, at: int) -> bool {
    &&& 0 <= at
    &&& at + 2 <= path.len()
    &&& path[at] == '.'
    &&& path[at + 1] == '.'
    &&& (at == 0 || path[at - 1] == '/')
    &&& (at + 2 == path.len() || path[at + 2] == '/')
}

/// Some component of `path` is `..`.
pub open spec fn has_parent_component(path: Seq<char>) -> bool {
    exists|at: int| parent_at(path, at)
}

/// `path` begins at the root of the file system.
pub open spec fn is_absolute(path: Seq<char>) -> bool {
    path.len() > 0 && path[0] == '/'
}

/// `path` stays below whatever directory it is joined to: it is not
/// absolute, and none of its components is `..`.
pub open spec fn is_contained(path: Seq<char>) -> bool {
    !is_absolute(path) && !has_parent_component(path)
}

fn is_parent_at(chars: &Vec<char>, at: usize) -> (found: bool)
    requires
        at < chars.len(),
    ensures
        found == parent_at(chars@, at as int),
{
    let len = chars.len();
    len - at >= 2 && chars[at] == '.' && chars[at + 1] == '.' && (at == 0 || chars[at - 1] == '/')
        && (len - at == 2 || chars[at + 2] == '/')
}

/// Whether `path` stays below whatever directory it is joined to: see
/// [`is_contained`].
pub fn is_contained_path(path: &str) -> (contained: bool)
    ensures
        contained == is_contained(path@),
{
    let chars = chars_of(path);
    if chars.len() > 0 && chars[0] == '/' {
        return false;
    }
    let mut at: usize = 0;
    while at < chars.len()
        invariant
            at <= chars.len(),
            chars@ == path@,
            !is_absolute(path@),
            forall|k: int| 0 <= k < at ==> !parent_at(path@, k),
        decreases chars.len() - at,
    {
        if is_parent_at(&chars, at) {
            return false;
        }
        at += 1;
    }
    true
}

/// The index at which the component of `path` that ends before `end` begins:
/// one past the last separator before `end`, or 0 where there is none.
pub open spec fn component_start(path: Seq<char>, end: int) -> int
    decreases end,
{
    if end <= 0 {
        0
    } else if path[end - 1] == '/' {
        end
    } else {
        component_start(path, end - 1)
    }
}

/// The bounds `(start, end)` of the file name in the first `len` characters of
/// `path`, where there is one.
///
/// The file name is the last component of a `/`-separated path. Empty
/// components (a trailing or doubled separator) and `.` components do not
/// count; a path that ends in `..`, or has no component left, has no file name.
pub open spec fn file_name_bounds(path: Seq<char>, len: int) -> Option<(int, int)>
    decreases len,
    via file_name_bounds_terminates
{
    if len <= 0 {
        None
    } else {
        let start = component_start(path, len);
        let last = path.subrange(start, len);
        if last.len() == 0 || last == seq!['.'] {
            if start == 0 {
                None
            } else {
                file_name_bounds(path, start - 1)
            }
        } else if last == seq!['.', '.'] {
            None
        } else {
            Some((start, len))
        }
    }
}

/// The file name of `path`, where it has one.
pub open spec fn file_name(path: Seq<char>) -> Option<Seq<char>> {
    match file_name_bounds(path, path.len() as int) {
        Some((start, end)) => Some(path.subrange(start, end)),
        None => None,
    }
}

#[via_fn]
proof fn file_name_bounds_terminates(path: Seq<char>, len: int) {
    lemma_component_start(path, len);
}

/// A component begins at the start of the path or behind a separator, and
/// holds no separator.
proof fn lemma_component_start(path: Seq<char>, end: int)
    ensures
        0 <= component_start(path, end),
        0 <= end ==> component_start(path, end) <= end,
        component_start(path, end) > 0 ==> path[component_start(path, end) - 1] == '/',
        forall|k: int| component_start(path, end) <= k < end ==> path[k] != '/',
    decreases end,
{
    if end > 0 && path[end - 1] != '/' {
        lemma_component_start(path, end - 1);
    }
}

/// The bounds that [`file_name_bounds`] gives lie within the path, in order,
/// and no separator stands between them.
pub proof fn lemma_file_name_bounds(path: Seq<char>, len: int)
    requires
        0 <= len <= path.len(),
    ensures
        file_name_bounds(path, len) matches Some((start, end)) ==> 0 <= start < end <= len
            && forall|k: int| start <= k < end ==> path[k] != '/',
    decreases len,
{
    if len > 0 {
        lemma_component_start(path, len);
        let start = component_start(path, len);
        let last = path.subrange(start, len);
        if (last.len() == 0 || last == seq!['.']) && start > 0 {
            lemma_file_name_bounds(path, start - 1);
        }
    }
}

fn find_component_start(chars: &Vec<char>, end: usize) -> (start: usize)
    requires
        end <= chars.len(),
    ensures
        start == component_start(chars@, end as int),
{
    let mut start = end;
    while start > 0 && chars[start - 1] != '/'
        invariant
            start <= end <= chars.len(),
            component_start(chars@, end as int) == component_start(chars@, start as int),
        decreases start,
    {
        start -= 1;
    }
    start
}

fn find_file_name(chars: &Vec<char>) -> (bounds: Option<(usize, usize)>)
    ensures
        match bounds {
            Some((start, end)) => file_name_bounds(chars@, chars.len() as int) == Some(
                (start as int, end as int),
            ),
            None => file_name_bounds(chars@, chars.len() as int) is None,
        },
{
    let mut len = chars.len();
    while len > 0
        invariant
            len <= chars.len(),
            file_name_bounds(chars@, chars.len() as int) == file_name_bounds(chars@, len as int),
        decreases len,
    {
        let start = find_component_start(chars, len);
        proof {
            lemma_component_start(chars@, len as int);
        }
        let ghost last = chars@.subrange(start as int, len as int);
        let skipped = len == start || (len - start == 1 && chars[start] == '.');
        assert(skipped == (last.len() == 0 || last == seq!['.'])) by {
            if len - start == 1 {
                assert(last[0] == chars@[start as int]);
                if chars@[start as int] == '.' {
                    assert(last =~= seq!['.']);
                }
            } else {
                assert(last.len() != 1);
            }
        }
        if skipped {
            if start == 0 {
                return None;
            }
            len = start - 1;
        } else {
            let parent = len - start == 2 && chars[start] == '.' && chars[start + 1] == '.';
            assert(parent == (last == seq!['.', '.'])) by {
                if len - start == 2 {
                    assert(last[0] == chars@[start as int]);
                    assert(last[1] == chars@[start + 1]);
                    if parent {
                        assert(last =~= seq!['.', '.']);
                    }
                } else {
                    assert(last.len() != 2);
                }
            }
            if parent {
                return None;
            }
            return Some((start, len));
        }
    }
    None
}

/// The file name of `path`, where it has one: `None` exactly where
/// [`file_name`] gives none.
pub fn file_name_of(path: &str) -> (name: Option<String>)
    ensures
        match name {
            Some(n) => file_name(path@) == Some(n@),
            None => file_name(path@) is None,
        },
{
    let chars = chars_of(path);
    match find_file_name(&chars) {
        Some((start, end)) => {
            proof {
                lemma_file_name_bounds(path@, path@.len() as int);
            }
            Some(path.substring_char(start, end).to_owned())
        },
        None => None,
    }
}

/// The file name of `path`: the name under which a copy of the file at
/// `path` is stored, whatever directories `path` names before it.
pub fn parse_file_name_from_path(path: &String) -> (name: String)
    requires
        file_name(path@) is Some,
    ensures
        file_name(path@) == Some(name@),
{
    match file_name_of(path.as_str()) {
        Some(name) => name,
        None => unreached(),
    }
}

/// A file name holds a character at least, and no separator.
pub proof fn lemma_file_name_has_no_separator(path: Seq<char>)
    ensures
        file_name(path) matches Some(name) ==> name.len() > 0 && !name.contains('/'),
{
    lemma_file_name_bounds(path, path.len() as int);
    if let Some((start, end)) = file_name_bounds(path, path.len() as int) {
        let name = path.subrange(start, end);
        assert forall|k: int| 0 <= k < name.len() implies name[k] != '/' by {
            assert(name[k] == path[start + k]);
        }
    }
}

/// The file name of a file in a directory is the file's name, whatever the
/// directory: a name that holds no separator and is neither `.` nor `..`
/// comes back from below any path.
pub proof fn lemma_file_name_of_joined(directory: Seq<char>, name: Seq<char>)
    requires
        name.len() > 0,
        !name.contains('/'),
        name != seq!['.'],
        name != seq!['.', '.'],
    ensures
        file_name(name) == Some(name),
        file_name(join(directory, name)) == Some(name),
{
    lemma_file_name_of_last(Seq::empty(), name);
    assert(Seq::<char>::empty() + name =~= name);
    if directory.len() > 0 {
        if directory.last() == '/' {
            lemma_file_name_of_last(directory, name);
        } else {
            lemma_file_name_of_last(directory + seq!['/'], name);
        }
    }
}

proof fn lemma_file_name_of_last(before: Seq<char>, name: Seq<char>)
    requires
        name.len() > 0,
        !name.contains('/'),
        name != seq!['.'],
        name != seq!['.', '.'],
        before.len() > 0 ==> before.last() == '/',
    ensures
        file_name(before + name) == Some(name),
{
    let path = before + name;
    let len = path.len() as int;
    lemma_component_start(path, len);
    let start = component_start(path, len);
    assert forall|k: int| before.len() <= k < len implies path[k] != '/' by {
        assert(path[k] == name[k - before.len()]);
        assert(name.contains(name[k - before.len()]));
    }
    if start < before.len() {
        assert(path[before.len() - 1] == before.last());
    }
    assert(start == before.len());
    assert(path.subrange(start, len) =~= name);
}

/// A contained path stays below the directory that it is joined to: the
/// joined path begins with the directory, and has a `..` component only
/// where the directory has one.
pub proof fn lemma_contained_stays_below(root: Seq<char>, path: Seq<char>)
    requires
        is_contained(path),
    ensures
        join(root, path).len() >= root.len(),
        join(root, path).subrange(0, root.len() as int) == root,
        has_parent_component(join(root, path)) ==> has_parent_component(root),
{
    let joined = join(root, path);
    assert(joined.subrange(0, root.len() as int) =~= root);
    if has_parent_component(joined) && root.len() > 0 {
        let at = choose|at: int| parent_at(joined, at);
        let offset = joined.len() - path.len();
        assert(forall|k: int| 0 <= k < root.len() ==> joined[k] == root[k]);
        assert(forall|k: int| 0 <= k < path.len() ==> joined[offset + k] == path[k]);
        assert(joined[offset - 1] == '/');
        if at + 2 <= root.len() {
            assert(parent_at(root, at));
        } else if at >= offset {
            assert(parent_at(path, at - offset));
        }
    }
}

} // verus!
