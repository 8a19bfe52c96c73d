//! File paths as text: components parted by `/`, as in a configuration file. On a
//! system that parts them by another character too, paths are handed over in this
//! form, which it takes as well.
use vstd::prelude::*;

use crate::text;

verus! {

/// The path of `name` inside `base`; a `name` from the root replaces `base`.
pub open spec fn joined(base: Seq<char>, name: Seq<char>) -> Seq<char> {
    if name.len() > 0 && name[0] == '/' {
        name
    } else if base.len() == 0 || base.last() == '/' {
        base + name
    } else {
        base.push('/') + name
    }
}

/// Appends a path to a directory.
pub fn join(base: &str, name: &str) -> (path: String)
    ensures
        path@ == joined(base@, name@),
{
    let base_chars: Vec<char> = text::chars_of(base);
    let name_chars: Vec<char> = text::chars_of(name);
    if name_chars.len() > 0 && name_chars[0] == '/' {
        return name.to_owned();
    }
    let mut path: String = base.to_owned();
    if base_chars.len() > 0 && base_chars[base_chars.len() - 1] != '/' {
        path.push('/');
    }
    path.append(name);
    path
}

/// A path without the separators and the `.` components at its end. A `.` that
/// is the whole path stays.
pub open spec fn without_idle_tail(path: Seq<char>) -> Seq<char>
    decreases path.len(),
{
    if path.len() > 0 && path.last() == '/' {
        without_idle_tail(path.drop_last())
    } else if path.len() > 1 && path.last() == '.' && path[path.len() - 2] == '/' {
        without_idle_tail(path.drop_last())
    } else {
        path
    }
}

/// Where the last component of a path begins.
pub open spec fn last_start(path: Seq<char>) -> int
    decreases path.len(),
{
    if path.len() == 0 || path.last() == '/' {
        path.len() as int
    } else {
        last_start(path.drop_last())
    }
}

/// The name of the file that a path leads to; none for the root, the empty
/// path and a path that ends in `.` or `..`.
pub open spec fn file_name_of(path: Seq<char>) -> Option<Seq<char>> {
    let body = without_idle_tail(path);
    let name = body.skip(last_start(body));
    if name.len() == 0 || name == seq!['.'] || name == seq!['.', '.'] {
        None
    } else {
        Some(name)
    }
}

/// The directory part of a path that has a file name.
pub open spec fn parent_of(path: Seq<char>) -> Seq<char> {
    let body = without_idle_tail(path);
    let before = body.take(last_start(body));
    let directory = without_idle_tail(before);
    if directory.len() == 0 && before.len() > 0 && before[0] == '/' {
        seq!['/']
    } else {
        directory
    }
}

/// Whether a path has a directory part: the root and the empty path have none.
pub open spec fn has_parent_dir(path: Seq<char>) -> bool {
    without_idle_tail(path).len() > 0
}

/// Whether a path has a directory part.
pub fn has_parent(path: &str) -> (yes: bool)
    ensures
        yes == has_parent_dir(path@),
{
    let chars: Vec<char> = text::chars_of(path);
    idle_tail_start(chars.as_slice()) > 0
}

proof fn lemma_last_start(path: Seq<char>)
    ensures
        0 <= last_start(path) <= path.len(),
        last_start(path) > 0 ==> path[last_start(path) - 1] == '/',
        forall|i: int| last_start(path) <= i < path.len() ==> #[trigger] path[i] != '/',
    decreases path.len(),
{
    if path.len() > 0 && path.last() != '/' {
        let front = path.drop_last();
        lemma_last_start(front);
        assert forall|i: int| last_start(path) <= i < path.len() implies #[trigger] path[i]
            != '/' by {
            if i < front.len() {
                assert(front[i] != '/');
            }
        }
    }
}

fn idle_tail_start(chars: &[char]) -> (end: usize)
    ensures
        end <= chars@.len(),
        chars@.take(end as int) == without_idle_tail(chars@),
{
    let mut end: usize = chars.len();
    assert(chars@.take(end as int) == chars@);
    while end > 0 && (chars[end - 1] == '/' || (end > 1 && chars[end - 1] == '.' && chars[end - 2]
        == '/'))
        invariant
            end <= chars@.len(),
            without_idle_tail(chars@) == without_idle_tail(chars@.take(end as int)),
        decreases end,
    {
        assert(chars@.take(end as int).drop_last() == chars@.take(end - 1));
        end = end - 1;
    }
    end
}

fn last_component_start(chars: &[char]) -> (start: usize)
    ensures
        start == last_start(chars@),
        start <= chars@.len(),
{
    let mut start: usize = chars.len();
    assert(chars@.take(start as int) == chars@);
    while start > 0 && chars[start - 1] != '/'
        invariant
            start <= chars@.len(),
            last_start(chars@) == last_start(chars@.take(start as int)),
        decreases start,
    {
        assert(chars@.take(start as int).drop_last() == chars@.take(start - 1));
        start = start - 1;
    }
    start
}

/// The name of the file that a path leads to.
pub fn file_name(path: &str) -> (name: Option<String>)
    ensures
        match name {
            Some(name) => file_name_of(path@) == Some(name@),
            None => file_name_of(path@) is None,
        },
{
    let chars: Vec<char> = text::chars_of(path);
    let end: usize = idle_tail_start(chars.as_slice());
    let body: &[char] = vstd::slice::slice_subrange(chars.as_slice(), 0, end);
    assert(body@ == chars@.take(end as int));
    let start: usize = last_component_start(body);
    let name: &[char] = vstd::slice::slice_subrange(body, start, body.len());
    assert(name@ == body@.skip(start as int));
    if name.len() == 0 {
        None
    } else if name.len() == 1 && name[0] == '.' {
        assert(name@ == seq!['.']);
        None
    } else if name.len() == 2 && name[0] == '.' && name[1] == '.' {
        assert(name@ == seq!['.', '.']);
        None
    } else {
        Some(text::text_of(name))
    }
}

/// The directory part of a path.
pub fn parent(path: &str) -> (directory: String)
    ensures
        directory@ == parent_of(path@),
{
    let chars: Vec<char> = text::chars_of(path);
    let end: usize = idle_tail_start(chars.as_slice());
    let body: &[char] = vstd::slice::slice_subrange(chars.as_slice(), 0, end);
    assert(body@ == chars@.take(end as int));
    let start: usize = last_component_start(body);
    let before: &[char] = vstd::slice::slice_subrange(body, 0, start);
    assert(before@ == body@.take(start as int));
    let kept: usize = idle_tail_start(before);
    if kept == 0 && before.len() > 0 && before[0] == '/' {
        let mut root: String = String::new();
        root.push('/');
        root
    } else {
        let directory: &[char] = vstd::slice::slice_subrange(before, 0, kept);
        assert(directory@ == before@.take(kept as int));
        text::text_of(directory)
    }
}

/// Whether a text can stand as one component of a path.
pub open spec fn is_component(name: Seq<char>) -> bool {
    &&& name.len() > 0
    &&& name != seq!['.']
    &&& name != seq!['.', '.']
    &&& forall|i: int| 0 <= i < name.len() ==> #[trigger] name[i] != '/'
}

/// The file name of a path is a component.
pub proof fn lemma_file_name_is_component(path: Seq<char>)
    requires
        file_name_of(path) is Some,
    ensures
        is_component(file_name_of(path)->0),
{
    lemma_last_start(without_idle_tail(path));
}

proof fn lemma_last_start_is(path: Seq<char>, start: int)
    requires
        0 <= start <= path.len(),
        start > 0 ==> path[start - 1] == '/',
        forall|i: int| start <= i < path.len() ==> #[trigger] path[i] != '/',
    ensures
        last_start(path) == start,
    decreases path.len(),
{
    if path.len() > start {
        assert(path.last() == path[path.len() - 1]);
        lemma_last_start_is(path.drop_last(), start);
    }
}

/// A component that is joined to a directory is the file name of the result.
pub proof fn lemma_joined_file_name(base: Seq<char>, name: Seq<char>)
    requires
        is_component(name),
    ensures
        file_name_of(joined(base, name)) == Some(name),
{
    let path = joined(base, name);
    assert(name[0] != '/');
    let start = path.len() - name.len();
    assert(path.skip(start) == name);
    assert(path.last() == name.last());
    assert(name[name.len() - 1] != '/');
    if path.len() > 1 && path.last() == '.' && path[path.len() - 2] == '/' {
        if name.len() == 1 {
            assert(name == seq!['.']);
        } else {
            assert(path[path.len() - 2] == name[name.len() - 2]);
        }
    }
    assert(without_idle_tail(path) == path);
    assert forall|i: int| start <= i < path.len() implies #[trigger] path[i] != '/' by {
        assert(path[i] == name[i - start]);
    }
    lemma_last_start_is(path, start);
}

proof fn lemma_slash_is_idle(path: Seq<char>)
    requires
        path.len() > 0,
        path.last() != '/',
        path.last() == '.' ==> path.len() > 1 && path[path.len() - 2] != '/',
    ensures
        without_idle_tail(path.push('/')) == path,
{
    assert(path.push('/').drop_last() == path);
    assert(without_idle_tail(path) == path);
}

/// The directory part of a component in a directory is that directory.
pub proof fn lemma_joined_parent(base: Seq<char>, name: Seq<char>)
    requires
        is_component(name),
        base.len() > 0,
        base.last() != '/',
        base.last() == '.' ==> base.len() > 1 && base[base.len() - 2] != '/',
    ensures
        parent_of(joined(base, name)) == base,
        joined(base, name) == base.push('/') + name,
{
    let path = joined(base, name);
    assert(name[0] != '/');
    let start = path.len() - name.len();
    assert(path.last() == name.last());
    assert(name[name.len() - 1] != '/');
    if path.last() == '.' && path[path.len() - 2] == '/' {
        if name.len() == 1 {
            assert(name == seq!['.']);
        } else {
            assert(path[path.len() - 2] == name[name.len() - 2]);
        }
    }
    assert(without_idle_tail(path) == path);
    assert forall|i: int| start <= i < path.len() implies #[trigger] path[i] != '/' by {
        assert(path[i] == name[i - start]);
    }
    lemma_last_start_is(path, start);
    assert(path.take(start) =~= base.push('/'));
    lemma_slash_is_idle(base);
}

/// A path inside a directory begins with the directory and ends with the path; one
/// from the root stays as it is.
pub proof fn lemma_joined_holds_both(base: Seq<char>, name: Seq<char>)
    ensures
        name.len() > 0 && name[0] == '/' ==> joined(base, name) == name,
        name.len() == 0 || name[0] != '/' ==> text::begins_with(joined(base, name), base),
        text::ends_with(joined(base, name), name),
        joined(base, name).len() <= base.len() + 1 + name.len(),
        base.len() > 0 && name.len() > 0 && name[0] != '/' && base.last() != '/' ==> joined(
            base,
            name,
        )[base.len() as int] == '/',
{
    let path = joined(base, name);
    if name.len() == 0 || name[0] != '/' {
        assert(path.take(base.len() as int) =~= base);
    }
    assert(path.skip(path.len() - name.len()) =~= name);
}

/// The separators and the `.` components at the end of a path do not matter to
/// what file it leads to, nor to its directory.
pub proof fn lemma_idle_tail_does_not_matter(path: Seq<char>)
    ensures
        file_name_of(path.push('/')) == file_name_of(path),
        parent_of(path.push('/')) == parent_of(path),
        file_name_of(path + seq!['/', '.']) == file_name_of(path),
        parent_of(path + seq!['/', '.']) == parent_of(path),
{
    let dotted = path + seq!['/', '.'];
    assert(path.push('/').drop_last() == path);
    assert(dotted.drop_last() =~= path.push('/'));
    assert(without_idle_tail(path.push('/')) == without_idle_tail(path));
    assert(without_idle_tail(dotted) == without_idle_tail(path.push('/')));
}

/// A component under the root has the root for its directory, and one alone has
/// none but the place where it is.
pub proof fn lemma_parents_of_components(name: Seq<char>)
    requires
        is_component(name),
    ensures
        parent_of(seq!['/'] + name) == seq!['/'],
        parent_of(name) == Seq::<char>::empty(),
        file_name_of(seq!['/'] + name) == Some(name),
        file_name_of(name) == Some(name),
{
    let rooted = seq!['/'] + name;
    assert(name[0] != '/');
    assert(name[name.len() - 1] != '/');
    lemma_joined_file_name(seq!['/'], name);
    lemma_joined_file_name(Seq::empty(), name);
    assert(joined(seq!['/'], name) =~= rooted);
    assert(joined(Seq::empty(), name) =~= name);
    if name.last() == '.' {
        if name.len() == 1 {
            assert(name =~= seq!['.']);
        } else {
            assert(name[name.len() - 2] != '/');
        }
    }
    assert(without_idle_tail(rooted) == rooted);
    assert(without_idle_tail(name) == name);
    assert forall|i: int| 1 <= i < rooted.len() implies #[trigger] rooted[i] != '/' by {
        assert(rooted[i] == name[i - 1]);
    }
    lemma_last_start_is(rooted, 1);
    lemma_last_start_is(name, 0);
    assert(rooted.take(1) =~= seq!['/']);
    assert(name.take(0) =~= Seq::<char>::empty());
    assert(seq!['/'].drop_last() =~= Seq::<char>::empty());
    assert(without_idle_tail(Seq::<char>::empty()) =~= Seq::<char>::empty());
    assert(without_idle_tail(seq!['/']) =~= Seq::<char>::empty());
}

/// Every path that leads to a file has a directory part; a path of nothing but
/// separators, and the empty path, have none.
pub proof fn lemma_files_have_directories(path: Seq<char>)
    ensures
        file_name_of(path) is Some ==> has_parent_dir(path),
        (forall|i: int| 0 <= i < path.len() ==> #[trigger] path[i] == '/') ==> !has_parent_dir(
            path,
        ),
    decreases path.len(),
{
    if (forall|i: int| 0 <= i < path.len() ==> #[trigger] path[i] == '/') && path.len() > 0 {
        let front = path.drop_last();
        assert(path[path.len() - 1] == '/');
        assert forall|i: int| 0 <= i < front.len() implies #[trigger] front[i] == '/' by {
            assert(path[i] == '/');
        }
        lemma_files_have_directories(front);
    }
    if file_name_of(path) is Some {
        lemma_last_start(without_idle_tail(path));
    }
}

} // verus!
