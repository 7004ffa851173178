use crate::text::{split_at_last, str_eq};
use vstd::prelude::*;
use vstd::string::*;

verus! {

/// The character that separates the segments of a path.
pub open spec fn separator() -> char {
    '/'
}

/// The root of the hierarchy: the separator alone.
pub open spec fn root_path() -> Seq<char> {
    seq![separator()]
}

/// The path of the child `name` of `parent`. Below the root the name follows
/// the root directly; anywhere else a separator stands between the two.
/// Nothing is normalized: the result is exactly these characters.
pub open spec fn join(parent: Seq<char>, name: Seq<char>) -> Seq<char> {
    if parent == root_path() {
        parent + name
    } else {
        parent + seq![separator()] + name
    }
}

/// What stands before the last separator of `path`; empty where `path` has
/// no separator.
pub open spec fn before_last_separator(path: Seq<char>) -> Seq<char>
    decreases path.len(),
{
    if path.len() == 0 {
        path
    } else if path.last() == separator() {
        path.drop_last()
    } else {
        before_last_separator(path.drop_last())
    }
}

/// What stands behind the last separator of `path`; all of `path` where it
/// has no separator.
pub open spec fn last_segment(path: Seq<char>) -> Seq<char>
    decreases path.len(),
{
    if path.len() == 0 {
        path
    } else if path.last() == separator() {
        Seq::empty()
    } else {
        last_segment(path.drop_last()).push(path.last())
    }
}

/// The directory that holds `path`: what stands before its last separator,
/// and the root where nothing does (the root itself, a child of the root, a
/// path without any separator).
pub open spec fn parent_of(path: Seq<char>) -> Seq<char> {
    let head = before_last_separator(path);
    if head.len() == 0 {
        root_path()
    } else {
        head
    }
}

/// A path that splits into `head`, one separator and a `tail` without
/// separators has `head` before its last separator and `tail` behind it.
pub proof fn lemma_split_at_last_separator(path: Seq<char>, head: Seq<char>, tail: Seq<char>)
    requires
        path == head + seq![separator()] + tail,
        !tail.contains(separator()),
    ensures
        before_last_separator(path) == head,
        last_segment(path) == tail,
    decreases tail.len(),
{
    if tail.len() == 0 {
        assert(path.drop_last() =~= head);
        assert(tail =~= Seq::<char>::empty());
    } else {
        assert(tail.contains(tail.last()));
        assert(path.last() == tail.last());
        assert(path.drop_last() =~= head + seq![separator()] + tail.drop_last());
        assert(!tail.drop_last().contains(separator())) by {
            if tail.drop_last().contains(separator()) {
                let i = choose|i: int|
                    0 <= i < tail.drop_last().len() && tail.drop_last()[i] == separator();
                assert(tail[i] == separator());
            }
        }
        lemma_split_at_last_separator(path.drop_last(), head, tail.drop_last());
        assert(tail =~= tail.drop_last().push(tail.last()));
    }
}

/// A path without separators has nothing before its last separator and is
/// its own last segment.
pub proof fn lemma_no_separator(path: Seq<char>)
    requires
        !path.contains(separator()),
    ensures
        before_last_separator(path) == Seq::<char>::empty(),
        last_segment(path) == path,
    decreases path.len(),
{
    if path.len() == 0 {
        assert(path =~= Seq::<char>::empty());
    } else {
        assert(path.contains(path.last()));
        assert(!path.drop_last().contains(separator())) by {
            if path.drop_last().contains(separator()) {
                let i = choose|i: int|
                    0 <= i < path.drop_last().len() && path.drop_last()[i] == separator();
                assert(path[i] == separator());
            }
        }
        lemma_no_separator(path.drop_last());
        assert(path =~= path.drop_last().push(path.last()));
    }
}

/// Going down into a child and up again leads back: the parent of
/// `join(parent, name)` is `parent`, and its last segment is `name`, for
/// every name without a separator and every parent that is not empty.
pub proof fn lemma_parent_of_join(parent: Seq<char>, name: Seq<char>)
    requires
        parent.len() > 0,
        !name.contains(separator()),
    ensures
        parent_of(join(parent, name)) == parent,
        last_segment(join(parent, name)) == name,
{
    if parent == root_path() {
        let nothing = Seq::<char>::empty();
        assert(join(parent, name) =~= nothing + seq![separator()] + name);
        lemma_split_at_last_separator(join(parent, name), nothing, name);
    } else {
        lemma_split_at_last_separator(join(parent, name), parent, name);
    }
}

/// Whether `path` is the root.
pub fn is_root(path: &str) -> (root: bool)
    ensures
        root == (path@ == root_path()),
{
    proof {
        reveal_strlit("/");
    }
    assert("/"@ =~= root_path());
    str_eq(path, "/")
}

/// The path of the child `name` of `parent`.
pub fn join_path(parent: &str, name: &str) -> (path: String)
    ensures
        path@ == join(parent@, name@),
{
    proof {
        reveal_strlit("/");
    }
    assert("/"@ =~= seq![separator()]);
    let mut path = parent.to_owned();
    if !is_root(parent) {
        path.append("/");
    }
    path.append(name);
    path
}

/// The directory that holds `path`.
pub fn parent_path(path: &str) -> (parent: String)
    ensures
        parent@ == parent_of(path@),
{
    proof {
        reveal_strlit("/");
    }
    assert("/"@ =~= root_path());
    match split_at_last(path, '/') {
        None => {
            proof {
                lemma_no_separator(path@);
            }
            "/".to_owned()
        },
        Some((head, tail)) => {
            proof {
                lemma_split_at_last_separator(path@, head@, tail@);
            }
            if head.is_empty() {
                "/".to_owned()
            } else {
                head.to_owned()
            }
        },
    }
}

} // verus!
