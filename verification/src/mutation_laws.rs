use crate::mutation::{
    after_attempts, after_delete, created_entry, lemma_without_first_absent, lemma_without_first_at,
    outside_of, with_entry_in_front, without_first_at, without_prefixed, AttemptView, NewKind,
};
use crate::paths::{lemma_parent_of_join, parent_of, separator};
use crate::resolver::{
    children_of, direct_children, entry_children, entry_is_child, has_entry_at, link_children,
    resolve, stands_for_itself,
};
use crate::tree::{EntryView, TreeView};
use vstd::prelude::*;

verus! {

/// The first position at which an entry stands at `path`.
pub open spec fn first_position_at(entries: Seq<EntryView>, path: Seq<char>) -> int {
    choose|at: int|
        0 <= at < entries.len() && (#[trigger] entries[at]).path == path && forall|j: int|
            0 <= j < at ==> (#[trigger] entries[j]).path != path
}

/// Below every position at which an entry stands at `path` there is a first
/// one.
proof fn lemma_first_position_below(entries: Seq<EntryView>, path: Seq<char>, some: int)
    requires
        0 <= some < entries.len(),
        entries[some].path == path,
    ensures
        exists|at: int|
            0 <= at <= some && (#[trigger] entries[at]).path == path && forall|j: int|
                0 <= j < at ==> (#[trigger] entries[j]).path != path,
    decreases some,
{
    if exists|j: int| 0 <= j < some && (#[trigger] entries[j]).path == path {
        let earlier = choose|j: int| 0 <= j < some && (#[trigger] entries[j]).path == path;
        lemma_first_position_below(entries, path, earlier);
    }
}

/// Where an entry stands at `path`, there is a first position at which one
/// does.
pub proof fn lemma_first_position_at(entries: Seq<EntryView>, path: Seq<char>)
    requires
        has_entry_at(entries, path),
    ensures
        0 <= first_position_at(entries, path) < entries.len(),
        entries[first_position_at(entries, path)].path == path,
        forall|j: int|
            0 <= j < first_position_at(entries, path) ==> (#[trigger] entries[j]).path != path,
    decreases entries.len(),
{
    let some = choose|i: int| 0 <= i < entries.len() && (#[trigger] entries[i]).path == path;
    lemma_first_position_below(entries, path, some);
}

/// Removing a directory with all below it leaves exactly the entries whose
/// path does not begin with the directory's path, in their order: the
/// directory itself and everything below it are gone, and no entry under
/// another prefix is touched.
pub proof fn lemma_cascade_keeps_the_rest(entries: Seq<EntryView>, path: Seq<char>)
    ensures
        after_delete(entries, path, true) == without_prefixed(entries, path),
    decreases entries.len(),
{
    if entries.len() > 0 {
        let first = entries.first();
        let rest = entries.drop_first();
        assert(entries =~= seq![first] + rest);
        rest.lemma_filter_prepend(first, outside_of(path));
        if first.path == path {
            assert(path.is_prefix_of(first.path));
            assert(Seq::<EntryView>::empty() + rest.filter(outside_of(path)) =~= rest.filter(
                outside_of(path),
            ));
        } else {
            lemma_cascade_keeps_the_rest(rest, path);
            without_first_at(rest, path).lemma_filter_prepend(first, outside_of(path));
        }
    }
}

/// After the removal of a directory with all below it, an entry is in the
/// cache if and only if it was there before and its path does not begin with
/// the directory's path.
pub proof fn lemma_cascade_membership(entries: Seq<EntryView>, path: Seq<char>, entry: EntryView)
    ensures
        after_delete(entries, path, true).contains(entry) <==> entries.contains(entry)
            && !path.is_prefix_of(entry.path),
{
    lemma_cascade_keeps_the_rest(entries, path);
    let kept = without_prefixed(entries, path);
    if kept.contains(entry) {
        let k = choose|k: int| 0 <= k < kept.len() && kept[k] == entry;
        entries.lemma_filter_pred(outside_of(path), k);
        entries.lemma_filter_contains_rev(outside_of(path), entry);
    }
    if entries.contains(entry) && !path.is_prefix_of(entry.path) {
        let i = choose|i: int| 0 <= i < entries.len() && entries[i] == entry;
        entries.lemma_filter_contains(outside_of(path), i);
    }
}

/// Whether no two entries stand at one path.
pub open spec fn paths_are_unique(entries: Seq<EntryView>) -> bool {
    forall|i: int, j: int|
        0 <= i < j < entries.len() ==> (#[trigger] entries[i]).path != (#[trigger] entries[j]).path
}

/// Entries that are picked from entries at different paths stand at
/// different paths.
proof fn lemma_filter_keeps_paths_unique(entries: Seq<EntryView>, test: spec_fn(EntryView) -> bool)
    requires
        paths_are_unique(entries),
    ensures
        paths_are_unique(entries.filter(test)),
    decreases entries.len(),
{
    reveal(Seq::filter);
    if entries.len() > 0 {
        let rest = entries.drop_last();
        let last = entries.last();
        assert forall|i: int, j: int| 0 <= i < j < rest.len() implies (#[trigger] rest[i]).path != (
        #[trigger] rest[j]).path by {
            assert(rest[i] == entries[i] && rest[j] == entries[j]);
        }
        lemma_filter_keeps_paths_unique(rest, test);
        let kept = rest.filter(test);
        if test(last) {
            let all = kept.push(last);
            assert forall|i: int, j: int| 0 <= i < j < all.len() implies (#[trigger] all[i]).path
                != (#[trigger] all[j]).path by {
                if j == kept.len() {
                    assert(kept.contains(kept[i]));
                    rest.lemma_filter_contains_rev(test, kept[i]);
                    let k = choose|k: int| 0 <= k < rest.len() && rest[k] == kept[i];
                    assert(entries[k] == kept[i]);
                    assert(entries[entries.len() - 1] == last);
                } else {
                    assert(all[i] == kept[i] && all[j] == kept[j]);
                }
            }
        }
    }
}

/// Entries at different paths stay at different paths when one of them
/// is taken out.
proof fn lemma_remove_keeps_paths_unique(entries: Seq<EntryView>, at: int)
    requires
        paths_are_unique(entries),
        0 <= at < entries.len(),
    ensures
        paths_are_unique(entries.remove(at)),
{
    let rest = entries.remove(at);
    assert forall|i: int, j: int| 0 <= i < j < rest.len() implies (#[trigger] rest[i]).path != (
    #[trigger] rest[j]).path by {
        let from_i = if i < at {
            i
        } else {
            i + 1
        };
        let from_j = if j < at {
            j
        } else {
            j + 1
        };
        assert(rest[i] == entries[from_i]);
        assert(rest[j] == entries[from_j]);
        assert(entries[from_i].path != entries[from_j].path);
    }
}

/// A removal leaves entries at different paths at different paths.
pub proof fn lemma_delete_keeps_paths_unique(
    entries: Seq<EntryView>,
    path: Seq<char>,
    cascade: bool,
)
    requires
        paths_are_unique(entries),
    ensures
        paths_are_unique(after_delete(entries, path, cascade)),
{
    if cascade {
        lemma_cascade_keeps_the_rest(entries, path);
        lemma_filter_keeps_paths_unique(entries, outside_of(path));
    } else if has_entry_at(entries, path) {
        let at = first_position_at(entries, path);
        lemma_first_position_at(entries, path);
        lemma_without_first_at(entries, path, at);
        lemma_remove_keeps_paths_unique(entries, at);
    } else {
        lemma_without_first_absent(entries, path);
    }
}

/// After a removal no entry stands at the removed path, provided that only
/// one stood there before or that the removal took along all below it.
pub proof fn lemma_deleted_path_is_gone(entries: Seq<EntryView>, path: Seq<char>, cascade: bool)
    requires
        cascade || paths_are_unique(entries),
    ensures
        !has_entry_at(after_delete(entries, path, cascade), path),
{
    let after = after_delete(entries, path, cascade);
    if has_entry_at(after, path) {
        let k = choose|k: int| 0 <= k < after.len() && (#[trigger] after[k]).path == path;
        if cascade {
            lemma_cascade_keeps_the_rest(entries, path);
            entries.lemma_filter_pred(outside_of(path), k);
            assert(path.is_prefix_of(path));
        } else if has_entry_at(entries, path) {
            let at = first_position_at(entries, path);
            lemma_first_position_at(entries, path);
            lemma_without_first_at(entries, path, at);
            let from = if k < at {
                k
            } else {
                k + 1
            };
            assert(after[k] == entries[from]);
            assert(entries[at].path == entries[from].path);
        } else {
            lemma_without_first_absent(entries, path);
        }
    }
}

/// A creation leaves entries at different paths at different paths,
/// provided that no entry stood at the new path before.
pub proof fn lemma_create_keeps_paths_unique(tree: TreeView, entry: EntryView)
    requires
        paths_are_unique(tree.entries),
        !has_entry_at(tree.entries, entry.path),
    ensures
        paths_are_unique(with_entry_in_front(tree, entry).entries),
{
    let after = with_entry_in_front(tree, entry).entries;
    assert forall|i: int, j: int| 0 <= i < j < after.len() implies (#[trigger] after[i]).path != (
    #[trigger] after[j]).path by {
        assert(after[j] == tree.entries[j - 1]);
        if i > 0 {
            assert(after[i] == tree.entries[i - 1]);
        }
    }
}

/// Whether a removal of `path` leaves an entry at `other` alone: the two
/// paths differ, and with `cascade` the one does not begin with the other.
pub open spec fn is_spared(other: Seq<char>, path: Seq<char>, cascade: bool) -> bool {
    other != path && (cascade ==> !path.is_prefix_of(other))
}

/// Whether a batch of removals leaves an entry at `other` alone: every
/// removal that succeeded does.
pub open spec fn is_spared_by_all(other: Seq<char>, attempts: Seq<AttemptView>) -> bool {
    forall|k: int|
        0 <= k < attempts.len() && (#[trigger] attempts[k]).outcome is Ok ==> is_spared(
            other,
            attempts[k].entry.path,
            attempts[k].entry.kind.cascades(),
        )
}

/// A removal brings no entry into the cache.
pub proof fn lemma_delete_adds_nothing(
    entries: Seq<EntryView>,
    path: Seq<char>,
    cascade: bool,
    entry: EntryView,
)
    requires
        after_delete(entries, path, cascade).contains(entry),
    ensures
        entries.contains(entry),
{
    let rest = without_first_at(entries, path);
    if cascade {
        rest.lemma_filter_contains_rev(outside_of(path), entry);
    }
    assert(rest.contains(entry));
    if has_entry_at(entries, path) {
        let at = first_position_at(entries, path);
        lemma_first_position_at(entries, path);
        lemma_without_first_at(entries, path, at);
        let k = choose|k: int| 0 <= k < rest.len() && rest[k] == entry;
        let from = if k < at {
            k
        } else {
            k + 1
        };
        assert(entries[from] == entry);
    } else {
        lemma_without_first_absent(entries, path);
    }
}

/// A removal leaves every entry in the cache that it spares.
pub proof fn lemma_delete_spares_the_rest(
    entries: Seq<EntryView>,
    path: Seq<char>,
    cascade: bool,
    entry: EntryView,
)
    requires
        entries.contains(entry),
        is_spared(entry.path, path, cascade),
    ensures
        after_delete(entries, path, cascade).contains(entry),
{
    let rest = without_first_at(entries, path);
    let i = choose|i: int| 0 <= i < entries.len() && entries[i] == entry;
    if has_entry_at(entries, path) {
        let at = first_position_at(entries, path);
        lemma_first_position_at(entries, path);
        lemma_without_first_at(entries, path, at);
        let to = if i < at {
            i
        } else {
            i - 1
        };
        assert(rest[to] == entry);
    } else {
        lemma_without_first_absent(entries, path);
    }
    assert(rest.contains(entry));
    if cascade {
        let k = choose|k: int| 0 <= k < rest.len() && rest[k] == entry;
        rest.lemma_filter_contains(outside_of(path), k);
    }
}

/// A batch of removals brings no entry into the cache.
pub proof fn lemma_batch_adds_nothing(
    entries: Seq<EntryView>,
    attempts: Seq<AttemptView>,
    entry: EntryView,
)
    requires
        after_attempts(entries, attempts).contains(entry),
    ensures
        entries.contains(entry),
    decreases attempts.len(),
{
    if attempts.len() > 0 {
        let first = attempts.first();
        if first.outcome is Ok {
            let next = after_delete(entries, first.entry.path, first.entry.kind.cascades());
            lemma_batch_adds_nothing(next, attempts.drop_first(), entry);
            lemma_delete_adds_nothing(
                entries,
                first.entry.path,
                first.entry.kind.cascades(),
                entry,
            );
        } else {
            lemma_batch_adds_nothing(entries, attempts.drop_first(), entry);
        }
    }
}

/// A batch of removals leaves every entry in the cache that all removals
/// which succeeded spare: whatever was not selected, and does not stand
/// below a directory that was, remains.
pub proof fn lemma_batch_spares_the_rest(
    entries: Seq<EntryView>,
    attempts: Seq<AttemptView>,
    entry: EntryView,
)
    requires
        entries.contains(entry),
        is_spared_by_all(entry.path, attempts),
    ensures
        after_attempts(entries, attempts).contains(entry),
    decreases attempts.len(),
{
    if attempts.len() > 0 {
        let first = attempts.first();
        let rest = attempts.drop_first();
        assert forall|k: int| 0 <= k < rest.len() && (#[trigger] rest[k]).outcome is Ok implies is_spared(
            entry.path,
            rest[k].entry.path,
            rest[k].entry.kind.cascades(),
        ) by {
            assert(rest[k] == attempts[k + 1]);
        }
        if first.outcome is Ok {
            assert(attempts[0].outcome is Ok);
            lemma_delete_spares_the_rest(
                entries,
                first.entry.path,
                first.entry.kind.cascades(),
                entry,
            );
            let next = after_delete(entries, first.entry.path, first.entry.kind.cascades());
            lemma_batch_spares_the_rest(next, rest, entry);
        } else {
            lemma_batch_spares_the_rest(entries, rest, entry);
        }
    }
}

/// A batch of removals leaves entries at different paths at different
/// paths.
pub proof fn lemma_batch_keeps_paths_unique(entries: Seq<EntryView>, attempts: Seq<AttemptView>)
    requires
        paths_are_unique(entries),
    ensures
        paths_are_unique(after_attempts(entries, attempts)),
    decreases attempts.len(),
{
    if attempts.len() > 0 {
        let first = attempts.first();
        if first.outcome is Ok {
            lemma_delete_keeps_paths_unique(
                entries,
                first.entry.path,
                first.entry.kind.cascades(),
            );
            let next = after_delete(entries, first.entry.path, first.entry.kind.cascades());
            lemma_batch_keeps_paths_unique(next, attempts.drop_first());
        } else {
            lemma_batch_keeps_paths_unique(entries, attempts.drop_first());
        }
    }
}

/// A path at which no entry stands has none after a batch of removals.
proof fn lemma_batch_fills_no_path(
    entries: Seq<EntryView>,
    attempts: Seq<AttemptView>,
    path: Seq<char>,
)
    requires
        !has_entry_at(entries, path),
    ensures
        !has_entry_at(after_attempts(entries, attempts), path),
{
    let after = after_attempts(entries, attempts);
    if has_entry_at(after, path) {
        let k = choose|k: int| 0 <= k < after.len() && (#[trigger] after[k]).path == path;
        assert(after.contains(after[k]));
        lemma_batch_adds_nothing(entries, attempts, after[k]);
        let i = choose|i: int| 0 <= i < entries.len() && entries[i] == after[k];
        assert(entries[i].path == path);
    }
}

/// After a batch of removals on a cache with entries at different paths,
/// no entry stands at the path of any removal that succeeded.
pub proof fn lemma_batch_removes_its_targets(
    entries: Seq<EntryView>,
    attempts: Seq<AttemptView>,
    k: int,
)
    requires
        paths_are_unique(entries),
        0 <= k < attempts.len(),
        attempts[k].outcome is Ok,
    ensures
        !has_entry_at(after_attempts(entries, attempts), attempts[k].entry.path),
    decreases attempts.len(),
{
    let first = attempts.first();
    let rest = attempts.drop_first();
    let next = if first.outcome is Ok {
        after_delete(entries, first.entry.path, first.entry.kind.cascades())
    } else {
        entries
    };
    if first.outcome is Ok {
        lemma_delete_keeps_paths_unique(entries, first.entry.path, first.entry.kind.cascades());
    }
    if k == 0 {
        lemma_deleted_path_is_gone(entries, first.entry.path, first.entry.kind.cascades());
        lemma_batch_fills_no_path(next, rest, first.entry.path);
    } else {
        assert(rest[k - 1] == attempts[k]);
        lemma_batch_removes_its_targets(next, rest, k - 1);
    }
}

/// After a creation below `parent`, what stands directly below `parent` is
/// what stood there before with the new entry in front of the other
/// entries, directly behind the links.
pub proof fn lemma_created_entry_is_child(
    tree: TreeView,
    parent: Seq<char>,
    name: Seq<char>,
    kind: NewKind,
)
    ensures
        direct_children(with_entry_in_front(tree, created_entry(parent, name, kind)), parent)
            == link_children(tree.links, parent) + seq![created_entry(parent, name, kind)]
            + entry_children(tree.entries, parent),
{
    let entry = created_entry(parent, name, kind);
    tree.entries.lemma_filter_prepend(entry, entry_is_child(parent));
    assert(link_children(tree.links, parent) + (seq![entry] + entry_children(
        tree.entries,
        parent,
    )) =~= link_children(tree.links, parent) + seq![entry] + entry_children(
        tree.entries,
        parent,
    ));
}

/// After a creation below `parent`, the listing of `parent` begins with the
/// new entry, wherever `parent` is the root or a cached entry and no link
/// stands directly below it.
pub proof fn lemma_created_entry_is_listed_first(
    tree: TreeView,
    parent: Seq<char>,
    name: Seq<char>,
    kind: NewKind,
)
    requires
        stands_for_itself(tree, parent),
        link_children(tree.links, parent).len() == 0,
    ensures
        children_of(with_entry_in_front(tree, created_entry(parent, name, kind)), parent)
            matches Some(lines) && lines.len() > 0 && lines[0] == created_entry(
            parent,
            name,
            kind,
        ),
{
    let entry = created_entry(parent, name, kind);
    let after = with_entry_in_front(tree, entry);
    lemma_created_entry_is_child(tree, parent, name, kind);
    if has_entry_at(tree.entries, parent) {
        let i = choose|i: int|
            0 <= i < tree.entries.len() && (#[trigger] tree.entries[i]).path == parent;
        assert(after.entries[i + 1].path == parent);
    }
    assert(resolve(after, parent, after.links.len()) == Some(parent));
}

/// An entry created under a name that holds no separator, below a place
/// that is not empty, has that name as the last segment of its path, and
/// the place as the parent of its path.
pub proof fn lemma_created_entry_is_named_by_its_path(
    parent: Seq<char>,
    name: Seq<char>,
    kind: NewKind,
)
    requires
        parent.len() > 0,
        !name.contains(separator()),
    ensures
        created_entry(parent, name, kind).name_ends_path(),
        parent_of(created_entry(parent, name, kind).path) == parent,
{
    lemma_parent_of_join(parent, name);
}

/// Whether every entry has the last segment of its path as its name.
pub open spec fn names_end_paths(entries: Seq<EntryView>) -> bool {
    forall|i: int| 0 <= i < entries.len() ==> (#[trigger] entries[i]).name_ends_path()
}

/// A batch of removals leaves every entry with the last segment of its path
/// as its name, where that was so before.
pub proof fn lemma_batch_keeps_names(entries: Seq<EntryView>, attempts: Seq<AttemptView>)
    requires
        names_end_paths(entries),
    ensures
        names_end_paths(after_attempts(entries, attempts)),
{
    let after = after_attempts(entries, attempts);
    assert forall|k: int| 0 <= k < after.len() implies (#[trigger] after[k]).name_ends_path() by {
        assert(after.contains(after[k]));
        lemma_batch_adds_nothing(entries, attempts, after[k]);
        let i = choose|i: int| 0 <= i < entries.len() && entries[i] == after[k];
        assert(entries[i].name_ends_path());
    }
}

/// A removal leaves every entry with the last segment of its path as its
/// name, where that was so before.
pub proof fn lemma_delete_keeps_names(entries: Seq<EntryView>, path: Seq<char>, cascade: bool)
    requires
        names_end_paths(entries),
    ensures
        names_end_paths(after_delete(entries, path, cascade)),
{
    let after = after_delete(entries, path, cascade);
    assert forall|k: int| 0 <= k < after.len() implies (#[trigger] after[k]).name_ends_path() by {
        assert(after.contains(after[k]));
        lemma_delete_adds_nothing(entries, path, cascade, after[k]);
        let i = choose|i: int| 0 <= i < entries.len() && entries[i] == after[k];
        assert(entries[i].name_ends_path());
    }
}

/// A creation under a name that holds no separator, below a place that is
/// not empty, leaves every entry with the last segment of its path as its
/// name, where that was so before.
pub proof fn lemma_create_keeps_names(
    tree: TreeView,
    parent: Seq<char>,
    name: Seq<char>,
    kind: NewKind,
)
    requires
        names_end_paths(tree.entries),
        parent.len() > 0,
        !name.contains(separator()),
    ensures
        names_end_paths(with_entry_in_front(tree, created_entry(parent, name, kind)).entries),
{
    lemma_created_entry_is_named_by_its_path(parent, name, kind);
    let after = with_entry_in_front(tree, created_entry(parent, name, kind)).entries;
    assert forall|k: int| 0 <= k < after.len() implies (#[trigger] after[k]).name_ends_path() by {
        if k > 0 {
            assert(after[k] == tree.entries[k - 1]);
        }
    }
}

} // verus!
