//! The directory that a path names its final component in.

use vstd::prelude::*;

verus! {

/// A path whose text every platform reads alike: components separated by slashes, below the root
/// where there is a slash in front, and without what one platform takes for a separator or a prefix.
/// A colon is part of no prefix behind a slash.
pub open spec fn portable(path: Seq<char>) -> bool {
    &&& !path.contains('\\')
    &&& !path.contains(':') || (path.len() > 0 && path[0] == '/')
    &&& !(path.len() >= 2 && path[0] == '/' && path[1] == '/')
}

/// A path without the separators and `.` components at its end. The root stays, and so does a `.`
/// that is all there is.
pub open spec fn trimmed(path: Seq<char>) -> Seq<char>
    decreases path.len(),
{
    if path.len() >= 2 && (path.last() == '/' || (path.last() == '.' && path[path.len() - 2]
        == '/')) {
        trimmed(path.drop_last())
    } else {
        path
    }
}

/// What stands in front of the final component, up to its separator.
pub open spec fn in_front_of_name(path: Seq<char>) -> Seq<char>
    decreases path.len(),
{
    if path.len() > 0 && path.last() != '/' {
        in_front_of_name(path.drop_last())
    } else {
        path
    }
}

/// The path without its final component; the empty path and the root have none to take off.
pub open spec fn portable_parent(path: Seq<char>) -> Option<Seq<char>> {
    let whole = trimmed(path);
    if whole.len() == 0 || whole == seq!['/'] {
        None
    } else {
        Some(trimmed(in_front_of_name(whole)))
    }
}

/// What holds of the parent of `path` on every platform: it is a front part of the path, and for a
/// path that every platform reads alike it is the path without its final component.
///
/// Platforms differ in what separates components and in the prefixes that they know, so the parent
/// of a path that holds backslashes, has a doubled slash in front, or holds colons without a slash in
/// front, is not fixed here.
pub open spec fn is_parent(path: Seq<char>, parent: Option<Seq<char>>) -> bool {
    &&& parent matches Some(text) ==> text.len() < path.len() && text.is_prefix_of(path)
    &&& portable(path) ==> parent == portable_parent(path)
}

/// The parent of a path that may not be known: unknown with the path.
pub open spec fn is_parent_of(path: Option<Seq<char>>, parent: Option<Seq<char>>) -> bool {
    match path {
        Some(path) => is_parent(path, parent),
        None => parent is None,
    }
}

/// The view of an optional text.
pub open spec fn text_of(text: Option<String>) -> Option<Seq<char>> {
    match text {
        Some(text) => Some(text@),
        None => None,
    }
}

/// The view of an optional borrowed text.
pub open spec fn str_of(text: Option<&str>) -> Option<Seq<char>> {
    match text {
        Some(text) => Some(text@),
        None => None,
    }
}

/// `Path::parent`: the path without its final component, if there is one.
///
/// It is taken at its word that the parent is a proper front part of the path's text; that separators
/// and `.` components at the end of a path, or of what is left of it, do not count, but for a `.` at
/// the very beginning; and that the empty path and the root have no parent. What it makes of the
/// separators and prefixes of one platform is left open.
#[verifier::external_body]
fn parent(path: &str) -> (parent: Option<String>)
    ensures
        is_parent(path@, text_of(parent)),
{
    match std::path::Path::new(path).parent() {
        Some(parent) => Some(parent.to_string_lossy().into_owned()),
        None => None,
    }
}

/// The parent of a path, where the path is known and has one.
pub fn parent_of(path: Option<&str>) -> (result: Option<String>)
    ensures
        is_parent_of(str_of(path), text_of(result)),
{
    match path {
        Some(path) => parent(path),
        None => None,
    }
}

proof fn lemma_trimmed_is_front(path: Seq<char>)
    ensures
        trimmed(path).is_prefix_of(path),
    decreases path.len(),
{
    if path.len() > 0 {
        lemma_trimmed_is_front(path.drop_last());
    }
}

proof fn lemma_in_front_of_name_is_front(path: Seq<char>)
    ensures
        in_front_of_name(path).is_prefix_of(path),
        path.len() > 0 && path.last() != '/' ==> in_front_of_name(path).len() < path.len(),
    decreases path.len(),
{
    if path.len() > 0 {
        lemma_in_front_of_name_is_front(path.drop_last());
    }
}

proof fn lemma_trimmed_end(path: Seq<char>)
    ensures
        ({
            let whole = trimmed(path);
            whole.len() >= 2 ==> whole.last() != '/'
        }),
    decreases path.len(),
{
    if path.len() > 0 {
        lemma_trimmed_end(path.drop_last());
    }
}

/// A parent is a proper front part of the path.
pub proof fn law_parent_is_front_part(path: Seq<char>)
    ensures
        portable_parent(path) matches Some(parent) ==> parent.len() < path.len()
            && parent.is_prefix_of(path),
{
    let whole = trimmed(path);
    let front = in_front_of_name(whole);
    lemma_trimmed_is_front(path);
    lemma_trimmed_end(path);
    lemma_in_front_of_name_is_front(whole);
    lemma_trimmed_is_front(front);
    if whole.len() == 1 && whole[0] == '/' {
        assert(whole =~= seq!['/']);
    }
    assert(trimmed(front).is_prefix_of(path)) by {
        assert(trimmed(front) =~= path.take(trimmed(front).len() as int));
    }
}

/// The path of `name` inside `directory`.
pub open spec fn joined(directory: Seq<char>, name: Seq<char>) -> Seq<char> {
    directory + seq!['/'] + name
}

proof fn lemma_in_front_of_joined(directory: Seq<char>, name: Seq<char>)
    requires
        !name.contains('/'),
    ensures
        in_front_of_name(joined(directory, name)) == directory + seq!['/'],
    decreases name.len(),
{
    let path = joined(directory, name);
    if name.len() == 0 {
        assert(path =~= directory + seq!['/']);
    } else {
        assert(name[name.len() - 1] == name.last());
        assert forall|i: int| 0 <= i < name.drop_last().len() implies name.drop_last()[i]
            != '/' by {
            assert(name[i] == name.drop_last()[i]);
        }
        lemma_in_front_of_joined(directory, name.drop_last());
        assert(path.drop_last() =~= joined(directory, name.drop_last()));
    }
}

/// A component inside a directory has the directory for its parent, without what does not count at
/// the directory's end; right below the root it has the root.
pub proof fn law_name_in_directory_has_it_for_parent(directory: Seq<char>, name: Seq<char>)
    requires
        name.len() > 0,
        !name.contains('/'),
        name != seq!['.'],
    ensures
        portable_parent(joined(directory, name)) == Some(
            if directory.len() == 0 {
                seq!['/']
            } else {
                trimmed(directory)
            },
        ),
{
    let path = joined(directory, name);
    assert(name[name.len() - 1] == name.last());
    assert(path.last() == name.last());
    if name.len() == 1 {
        if name[0] == '.' {
            assert(name =~= seq!['.']);
        }
    } else {
        assert(name[name.len() - 2] == path[path.len() - 2]);
    }
    assert(trimmed(path) == path);
    assert(path != seq!['/']);
    lemma_in_front_of_joined(directory, name);
    let front = directory + seq!['/'];
    if directory.len() == 0 {
        assert(front =~= seq!['/']);
    } else {
        assert(front.drop_last() =~= directory);
    }
}

/// What is found for a path is its parent, and nothing is found where the path is not known.
pub proof fn law_parent_of(path: Option<&str>, result: Option<String>)
    requires
        call_ensures(parent_of, (path,), result),
    ensures
        path matches Some(text) ==> is_parent_of(
            Some(text@),
            match result {
                Some(parent) => Some(parent@),
                None => None,
            },
        ),
        path is None ==> result is None,
{
}

/// A path that is not known has no parent, and neither has the empty path or the root.
pub proof fn law_no_parent(path: Option<Seq<char>>, parent: Option<Seq<char>>)
    requires
        is_parent_of(path, parent),
        path is None || path == Some(Seq::<char>::empty()) || path == Some(seq!['/']) || path
            == Some(seq!['/', '.']),
    ensures
        parent is None,
{
    if path == Some(seq!['/', '.']) {
        reveal_with_fuel(trimmed, 2);
        assert(seq!['/', '.'].drop_last() =~= seq!['/']);
    }
}

/// The parent of a name is the empty path.
pub proof fn law_parent_of_a_name(name: Seq<char>, parent: Option<Seq<char>>)
    requires
        name.len() > 0,
        forall|i: int|
            0 <= i < name.len() ==> (#[trigger] name[i] != '/' && name[i] != '\\' && name[i]
                != ':'),
        is_parent_of(Some(name), parent),
    ensures
        parent == Some(Seq::<char>::empty()),
{
    assert(name[name.len() - 1] == name.last());
    if name.len() >= 2 {
        assert(name[name.len() - 2] != '/');
    }
    assert(trimmed(name) == name);
    if name == seq!['/'] {
        assert(name[0] == '/');
    }
    lemma_in_front_of_a_name(name);
}

proof fn lemma_in_front_of_a_name(name: Seq<char>)
    requires
        forall|i: int| 0 <= i < name.len() ==> #[trigger] name[i] != '/',
    ensures
        in_front_of_name(name) == Seq::<char>::empty(),
    decreases name.len(),
{
    if name.len() > 0 {
        assert(name[name.len() - 1] == name.last());
        assert forall|i: int| 0 <= i < name.drop_last().len() implies #[trigger] name.drop_last()[i]
            != '/' by {
            assert(name[i] == name.drop_last()[i]);
        }
        lemma_in_front_of_a_name(name.drop_last());
    } else {
        assert(name =~= Seq::empty());
    }
}

/// The parent of a name inside a directory is the directory, as it was written, unless there is at its
/// end what does not count; right below the root it is the root.
pub proof fn law_parent_of_a_name_in_a_directory(
    directory: Seq<char>,
    name: Seq<char>,
    parent: Option<Seq<char>>,
)
    requires
        name.len() > 0,
        name != seq!['.'],
        forall|i: int|
            0 <= i < name.len() ==> (#[trigger] name[i] != '/' && name[i] != '\\'),
        forall|i: int| 0 <= i < directory.len() ==> #[trigger] directory[i] != '\\',
        directory.len() == 0 || directory[0] == '/' || ((forall|i: int|
            0 <= i < name.len() ==> #[trigger] name[i] != ':') && (forall|i: int|
            0 <= i < directory.len() ==> #[trigger] directory[i] != ':')),
        !(directory.len() >= 2 && directory[0] == '/' && directory[1] == '/'),
        directory.len() > 0 ==> directory.last() != '/',
        !(directory.len() >= 2 && directory.last() == '.' && directory[directory.len() - 2] == '/'),
        is_parent_of(Some(directory + seq!['/'] + name), parent),
    ensures
        directory.len() > 0 ==> parent == Some(directory),
        directory.len() == 0 ==> parent == Some(seq!['/']),
{
    let path = joined(directory, name);
    law_name_in_directory_has_it_for_parent(directory, name);
    lemma_portable(path, directory, name);
    if directory.len() > 0 {
        assert(trimmed(directory) == directory);
    }
}

proof fn lemma_portable(path: Seq<char>, directory: Seq<char>, name: Seq<char>)
    requires
        path == directory + seq!['/'] + name,
        name.len() > 0,
        forall|i: int|
            0 <= i < name.len() ==> (#[trigger] name[i] != '/' && name[i] != '\\'),
        forall|i: int| 0 <= i < directory.len() ==> #[trigger] directory[i] != '\\',
        directory.len() == 0 || directory[0] == '/' || ((forall|i: int|
            0 <= i < name.len() ==> #[trigger] name[i] != ':') && (forall|i: int|
            0 <= i < directory.len() ==> #[trigger] directory[i] != ':')),
        !(directory.len() >= 2 && directory[0] == '/' && directory[1] == '/'),
        directory.len() > 0 ==> directory.last() != '/',
    ensures
        portable(path),
{
    assert forall|i: int| 0 <= i < path.len() implies path[i] != '\\' by {
        if i < directory.len() {
            assert(path[i] == directory[i]);
        } else if i > directory.len() {
            assert(path[i] == name[i - directory.len() - 1]);
        }
    }
    if path.contains(':') && path[0] != '/' {
        let i = choose|i: int| 0 <= i < path.len() && path[i] == ':';
        if i < directory.len() {
            assert(path[i] == directory[i]);
        } else if i > directory.len() {
            assert(path[i] == name[i - directory.len() - 1]);
        }
    }
    if directory.len() == 0 {
        assert(path[1] == name[0]);
    } else if directory.len() == 1 {
        assert(path[0] == directory.last());
    } else {
        assert(path[0] == directory[0]);
        assert(path[1] == directory[1]);
    }
}

/// A separator at the end of a path, or a `.` component there, does not change its parent.
pub proof fn law_end_does_not_count(
    path: Seq<char>,
    parent: Option<Seq<char>>,
    with_slash: Option<Seq<char>>,
    with_dot: Option<Seq<char>>,
)
    requires
        path.len() > 0,
        path != seq!['/'],
        forall|i: int| 0 <= i < path.len() ==> #[trigger] path[i] != '\\',
        path[0] == '/' || forall|i: int| 0 <= i < path.len() ==> #[trigger] path[i] != ':',
        !(path.len() >= 2 && path[0] == '/' && path[1] == '/'),
        is_parent_of(Some(path), parent),
        is_parent_of(Some(path + seq!['/']), with_slash),
        is_parent_of(Some(path + seq!['/', '.']), with_dot),
    ensures
        with_slash == parent,
        with_dot == parent,
{
    let slash = path + seq!['/'];
    let dot = path + seq!['/', '.'];
    if path.len() == 1 && path[0] == '/' {
        assert(path =~= seq!['/']);
    }
    assert(portable(path));
    assert(portable(slash)) by {
        assert forall|i: int| 0 <= i < slash.len() implies slash[i] != '\\' by {
            if i < path.len() {
                assert(slash[i] == path[i]);
            }
        }
        if path[0] != '/' {
            assert forall|i: int| 0 <= i < slash.len() implies slash[i] != ':' by {
                if i < path.len() {
                    assert(slash[i] == path[i]);
                }
            }
        }
    }
    assert(portable(dot)) by {
        assert forall|i: int| 0 <= i < dot.len() implies dot[i] != '\\' by {
            if i < path.len() {
                assert(dot[i] == path[i]);
            }
        }
        if path[0] != '/' {
            assert forall|i: int| 0 <= i < dot.len() implies dot[i] != ':' by {
                if i < path.len() {
                    assert(dot[i] == path[i]);
                }
            }
        }
    }
    assert(slash.drop_last() =~= path);
    assert(trimmed(slash) == trimmed(path));
    assert(dot.drop_last() =~= slash);
    assert(dot[dot.len() - 2] == '/');
    assert(trimmed(dot) == trimmed(slash));
}

/// Neither do separators and `.` components at the end of a directory change the parent of a name in
/// it.
pub proof fn law_end_of_directory_does_not_count(
    directory: Seq<char>,
    name: Seq<char>,
    parent: Option<Seq<char>>,
    with_slash: Option<Seq<char>>,
    with_dot: Option<Seq<char>>,
)
    requires
        name.len() > 0,
        name != seq!['.'],
        forall|i: int|
            0 <= i < name.len() ==> (#[trigger] name[i] != '/' && name[i] != '\\' && name[i]
                != ':'),
        forall|i: int|
            0 <= i < directory.len() ==> (#[trigger] directory[i] != '\\' && directory[i] != ':'),
        directory.len() > 0,
        directory != seq!['/'],
        !(directory.len() >= 2 && directory[0] == '/' && directory[1] == '/'),
        is_parent_of(Some(directory + seq!['/'] + name), parent),
        is_parent_of(Some(directory + seq!['/', '/'] + name), with_slash),
        is_parent_of(Some(directory + seq!['/', '.', '/'] + name), with_dot),
    ensures
        with_slash == parent,
        with_dot == parent,
{
    let slash = directory + seq!['/'];
    let dot = directory + seq!['/', '.'];
    if directory.len() == 1 && directory[0] == '/' {
        assert(directory =~= seq!['/']);
    }
    assert(!name.contains('/'));
    law_name_in_directory_has_it_for_parent(directory, name);
    law_name_in_directory_has_it_for_parent(slash, name);
    law_name_in_directory_has_it_for_parent(dot, name);
    assert(directory + seq!['/', '/'] + name =~= joined(slash, name));
    assert(directory + seq!['/', '.', '/'] + name =~= joined(dot, name));
    lemma_plain_is_portable(joined(directory, name));
    lemma_plain_is_portable(joined(slash, name));
    lemma_plain_is_portable(joined(dot, name));
    assert(slash.drop_last() =~= directory);
    assert(trimmed(slash) == trimmed(directory));
    assert(dot.drop_last() =~= slash);
    assert(dot[dot.len() - 2] == '/');
    assert(trimmed(dot) == trimmed(slash));
}

proof fn lemma_plain_is_portable(path: Seq<char>)
    requires
        forall|i: int| 0 <= i < path.len() ==> (#[trigger] path[i] != '\\' && path[i] != ':'),
        !(path.len() >= 2 && path[0] == '/' && path[1] == '/'),
    ensures
        portable(path),
{
}

/// Below a `.` in the root the parent is what it is in the root.
pub proof fn law_dot_below_the_root_does_not_count(name: Seq<char>, parent: Option<Seq<char>>)
    requires
        name.len() > 0,
        name != seq!['.'],
        forall|i: int|
            0 <= i < name.len() ==> (#[trigger] name[i] != '/' && name[i] != '\\' && name[i]
                != ':'),
        is_parent_of(Some(seq!['/', '.', '/'] + name), parent),
    ensures
        parent == Some(seq!['/']),
{
    let dot = seq!['/', '.'];
    assert(!name.contains('/'));
    law_name_in_directory_has_it_for_parent(dot, name);
    assert(seq!['/', '.', '/'] + name =~= joined(dot, name));
    lemma_plain_is_portable(joined(dot, name));
    reveal_with_fuel(trimmed, 2);
    assert(dot.drop_last() =~= seq!['/']);
}

/// Whatever the platform, a parent is a proper front part of its path.
pub proof fn law_any_parent_is_front_part(path: Seq<char>, parent: Seq<char>)
    requires
        is_parent_of(Some(path), Some(parent)),
    ensures
        parent.len() < path.len(),
        parent == path.take(parent.len() as int),
{
}

} // verus!
