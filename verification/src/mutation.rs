use crate::error::{TreeError, TreeErrorView};
use crate::paths::{join, join_path};
use crate::text::{has_prefix, str_eq};
use crate::tree::{entry_views, lemma_entry_views_push, Entry, EntryKind, EntryView, Tree, TreeView};
use vstd::prelude::*;

verus! {

/// What can be created: a file or a directory.
#[derive(Clone, Copy, Debug, PartialEq, Eq, Structural)]
pub enum NewKind {
    File,
    Directory,
}

/// What the filesystem holds at a path.
#[derive(Clone, Copy, Debug, PartialEq, Eq, Structural)]
pub enum Occupant {
    Nothing,
    Directory,
    Other,
}

/// How the filesystem removes what an entry stands for.
#[derive(Clone, Copy, Debug, PartialEq, Eq, Structural)]
pub enum Removal {
    /// Remove one file, or one link whatever it points to.
    File,
    /// Remove a directory with all that it holds.
    DirectoryTree,
}

/// One removal that was tried on the filesystem, and how it ended: with
/// nothing to report, or with the filesystem's own error text.
#[derive(Debug, PartialEq, Eq)]
pub struct Attempt {
    pub entry: Entry,
    pub outcome: Result<(), String>,
}

/// The contents of an `Attempt`.
pub struct AttemptView {
    pub entry: EntryView,
    pub outcome: Result<(), Seq<char>>,
}

/// What a batch of removals did: how many of them the filesystem carried
/// out, and the last failure among the others.
#[derive(Debug, PartialEq, Eq)]
pub struct BatchReport {
    pub removed: usize,
    pub failure: Option<TreeError>,
}

impl View for Attempt {
    type V = AttemptView;

    open spec fn view(&self) -> AttemptView {
        AttemptView {
            entry: self.entry@,
            outcome: match self.outcome {
                Ok(_) => Ok(()),
                Err(text) => Err(text@),
            },
        }
    }
}

/// The contents of a list of attempts.
pub open spec fn attempt_views(attempts: Seq<Attempt>) -> Seq<AttemptView> {
    attempts.map_values(|attempt: Attempt| attempt@)
}

impl NewKind {
    /// The kind of the entry that stands for what was created.
    pub open spec fn entry_kind(self) -> EntryKind {
        match self {
            NewKind::File => EntryKind::File,
            NewKind::Directory => EntryKind::Directory,
        }
    }

    /// The kind of the entry that stands for what was created.
    pub fn as_entry_kind(self) -> (kind: EntryKind)
        ensures
            kind == self.entry_kind(),
    {
        match self {
            NewKind::File => EntryKind::File,
            NewKind::Directory => EntryKind::Directory,
        }
    }
}

impl EntryKind {
    /// A directory goes with all that it holds; everything else, a link to a
    /// directory too, goes as one file.
    pub open spec fn removal(self) -> Removal {
        if self == EntryKind::Directory {
            Removal::DirectoryTree
        } else {
            Removal::File
        }
    }

    /// Whether removing an entry of this kind takes all entries below it
    /// along: so it is for a directory, and for nothing else.
    pub open spec fn cascades(self) -> bool {
        self == EntryKind::Directory
    }

    /// Whether removing an entry of this kind takes all entries below it
    /// along.
    pub fn does_cascade(self) -> (cascade: bool)
        ensures
            cascade == self.cascades(),
    {
        match self {
            EntryKind::Directory => true,
            _ => false,
        }
    }

    /// How the filesystem removes what an entry of this kind stands for.
    pub fn removal_call(self) -> (removal: Removal)
        ensures
            removal == self.removal(),
    {
        match self {
            EntryKind::Directory => Removal::DirectoryTree,
            _ => Removal::File,
        }
    }
}

/// The test that picks the entries whose path does not begin with `prefix`.
pub open spec fn outside_of(prefix: Seq<char>) -> spec_fn(EntryView) -> bool {
    |entry: EntryView| !prefix.is_prefix_of(entry.path)
}

/// The entries without the first one whose path is `path`.
pub open spec fn without_first_at(entries: Seq<EntryView>, path: Seq<char>) -> Seq<EntryView>
    decreases entries.len(),
{
    if entries.len() == 0 {
        entries
    } else if entries.first().path == path {
        entries.drop_first()
    } else {
        seq![entries.first()] + without_first_at(entries.drop_first(), path)
    }
}

/// The entries whose path does not begin with `prefix`, in their order.
pub open spec fn without_prefixed(entries: Seq<EntryView>, prefix: Seq<char>) -> Seq<EntryView> {
    entries.filter(outside_of(prefix))
}

/// The entries after the removal of `path`: the first entry at `path` goes,
/// and with `cascade` every entry goes whose path begins with `path`.
pub open spec fn after_delete(entries: Seq<EntryView>, path: Seq<char>, cascade: bool) -> Seq<
    EntryView,
> {
    let rest = without_first_at(entries, path);
    if cascade {
        without_prefixed(rest, path)
    } else {
        rest
    }
}

/// The entries after a batch of removals, taken in their order: each one
/// that the filesystem carried out removes its entry from the cache, a
/// directory with all below it; each one that failed leaves the cache as it
/// was.
pub open spec fn after_attempts(entries: Seq<EntryView>, attempts: Seq<AttemptView>) -> Seq<
    EntryView,
>
    decreases attempts.len(),
{
    if attempts.len() == 0 {
        entries
    } else {
        let first = attempts.first();
        let next = if first.outcome is Ok {
            after_delete(entries, first.entry.path, first.entry.kind.cascades())
        } else {
            entries
        };
        after_attempts(next, attempts.drop_first())
    }
}

/// How many of the attempts the filesystem carried out.
pub open spec fn count_removed(attempts: Seq<AttemptView>) -> nat
    decreases attempts.len(),
{
    if attempts.len() == 0 {
        0
    } else {
        count_removed(attempts.drop_last()) + if attempts.last().outcome is Ok {
            1nat
        } else {
            0nat
        }
    }
}

/// The error text of the last attempt that failed, if one did.
pub open spec fn last_failure(attempts: Seq<AttemptView>) -> Option<Seq<char>>
    decreases attempts.len(),
{
    if attempts.len() == 0 {
        None
    } else {
        match attempts.last().outcome {
            Err(text) => Some(text),
            Ok(_) => last_failure(attempts.drop_last()),
        }
    }
}

/// The first and the last position of a selection: the cursor alone, or
/// all from the anchor to the cursor, whichever of the two comes first.
pub open spec fn selection_bounds(anchor: Option<usize>, cursor: usize) -> (int, int) {
    match anchor {
        None => (cursor as int, cursor as int),
        Some(start) => if start <= cursor {
            (start as int, cursor as int)
        } else {
            (cursor as int, start as int)
        },
    }
}

/// The part of a listing that a selection covers: every position from the
/// first to the last of the selection that the listing has.
pub open spec fn selected(listing: Seq<EntryView>, anchor: Option<usize>, cursor: usize) -> Seq<
    EntryView,
> {
    let (low, high) = selection_bounds(anchor, cursor);
    if low < listing.len() {
        listing.subrange(
            low,
            if high < listing.len() {
                high + 1
            } else {
                listing.len() as int
            },
        )
    } else {
        Seq::empty()
    }
}

/// The cache after `entry` went in front of all entries.
pub open spec fn with_entry_in_front(tree: TreeView, entry: EntryView) -> TreeView {
    TreeView { entries: seq![entry] + tree.entries, links: tree.links }
}

/// The entry that stands for `name` created below `parent`.
pub open spec fn created_entry(parent: Seq<char>, name: Seq<char>, kind: NewKind) -> EntryView {
    EntryView { name, path: join(parent, name), kind: kind.entry_kind() }
}

/// Removing the first entry at a position where the first match stands is
/// removing that position.
pub proof fn lemma_without_first_at(entries: Seq<EntryView>, path: Seq<char>, at: int)
    requires
        0 <= at < entries.len(),
        entries[at].path == path,
        forall|j: int| 0 <= j < at ==> (#[trigger] entries[j]).path != path,
    ensures
        without_first_at(entries, path) == entries.remove(at),
    decreases entries.len(),
{
    if at == 0 {
        assert(entries.drop_first() =~= entries.remove(0));
    } else {
        assert(entries[0].path != path);
        let rest = entries.drop_first();
        assert forall|j: int| 0 <= j < at - 1 implies (#[trigger] rest[j]).path != path by {
            assert(rest[j] == entries[j + 1]);
        }
        lemma_without_first_at(rest, path, at - 1);
        assert(seq![entries.first()] + rest.remove(at - 1) =~= entries.remove(at));
    }
}

/// Where no entry stands at `path`, nothing is removed.
pub proof fn lemma_without_first_absent(entries: Seq<EntryView>, path: Seq<char>)
    requires
        forall|j: int| 0 <= j < entries.len() ==> (#[trigger] entries[j]).path != path,
    ensures
        without_first_at(entries, path) == entries,
    decreases entries.len(),
{
    if entries.len() > 0 {
        assert(entries[0].path != path);
        let rest = entries.drop_first();
        assert forall|j: int| 0 <= j < rest.len() implies (#[trigger] rest[j]).path != path by {
            assert(rest[j] == entries[j + 1]);
        }
        lemma_without_first_absent(rest, path);
        assert(seq![entries.first()] + rest =~= entries);
    }
}

impl Tree {
    /// Puts `entry` in front of all entries.
    pub fn add_entry(&mut self, entry: Entry)
        ensures
            final(self)@.entries == seq![entry@] + old(self)@.entries,
            final(self)@.links == old(self)@.links,
    {
        self.entries.insert(0, entry);
        proof {
            assert(entry_views(self.entries@) =~= seq![entry@] + entry_views(old(self).entries@));
        }
    }

    /// Removes the first entry at `path`, and with `cascade` every entry
    /// whose path begins with `path`.
    pub fn remove_entry(&mut self, path: &str, cascade: bool)
        ensures
            final(self)@.entries == after_delete(old(self)@.entries, path@, cascade),
            final(self)@.links == old(self)@.links,
    {
        let mut i: usize = 0;
        let mut found = false;
        while i < self.entries.len() && !found
            invariant
                i <= self.entries.len(),
                self.entries == old(self).entries,
                self.links == old(self).links,
                !found ==> forall|j: int|
                    0 <= j < i ==> (#[trigger] entry_views(self.entries@)[j]).path != path@,
                found ==> i < self.entries.len() && entry_views(self.entries@)[i as int].path
                    == path@ && forall|j: int|
                    0 <= j < i ==> (#[trigger] entry_views(self.entries@)[j]).path != path@,
            decreases self.entries.len() - i + if found { 0int } else { 1int },
        {
            if str_eq(self.entries[i].path.as_str(), path) {
                found = true;
            } else {
                i += 1;
            }
        }
        if found {
            proof {
                lemma_without_first_at(entry_views(self.entries@), path@, i as int);
                assert(entry_views(self.entries@.remove(i as int)) =~= entry_views(
                    self.entries@,
                ).remove(i as int));
            }
            self.entries.remove(i);
        } else {
            proof {
                lemma_without_first_absent(entry_views(self.entries@), path@);
            }
        }
        if cascade {
            let ghost rest = self.entries@;
            let ghost mut seen: int = 0;
            let mut k: usize = 0;
            while k < self.entries.len()
                invariant
                    self.links == old(self).links,
                    k <= self.entries.len(),
                    0 <= seen <= rest.len(),
                    self.entries@.skip(k as int) == rest.skip(seen),
                    entry_views(self.entries@.take(k as int)) == without_prefixed(
                        entry_views(rest.take(seen)),
                        path@,
                    ),
                decreases self.entries.len() - k,
            {
                proof {
                    assert(self.entries@[k as int] == self.entries@.skip(k as int)[0]);
                    assert(rest.skip(seen).len() > 0);
                    assert(rest[seen] == rest.skip(seen)[0]);
                    assert(rest.take(seen + 1) =~= rest.take(seen).push(rest[seen]));
                    assert(entry_views(rest.take(seen + 1)) =~= entry_views(rest.take(seen)).push(
                        rest[seen]@,
                    ));
                    entry_views(rest.take(seen)).lemma_filter_push(rest[seen]@, outside_of(path@));
                }
                if has_prefix(self.entries[k].path.as_str(), path) {
                    proof {
                        assert(self.entries@.remove(k as int).skip(k as int) =~= self.entries@.skip(
                            k as int,
                        ).skip(1));
                        assert(rest.skip(seen).skip(1) =~= rest.skip(seen + 1));
                        assert(self.entries@.remove(k as int).take(k as int)
                            =~= self.entries@.take(k as int));
                    }
                    self.entries.remove(k);
                } else {
                    proof {
                        assert(self.entries@.skip(k as int).skip(1) =~= self.entries@.skip(
                            k + 1,
                        ));
                        assert(rest.skip(seen).skip(1) =~= rest.skip(seen + 1));
                        assert(self.entries@.take(k + 1) =~= self.entries@.take(k as int).push(
                            self.entries@[k as int],
                        ));
                        assert(entry_views(self.entries@.take(k + 1)) =~= entry_views(
                            self.entries@.take(k as int),
                        ).push(self.entries@[k as int]@));
                    }
                    k += 1;
                }
                proof {
                    seen = seen + 1;
                }
            }
            proof {
                assert(self.entries@.take(k as int) =~= self.entries@);
                assert(rest.skip(seen).len() == 0);
                assert(rest.take(seen) =~= rest);
            }
        }
    }
}

/// The path under which `name` is created below `parent_path`, and the entry
/// that stands for it once it is there. Nothing is created where something
/// that is not a directory already occupies the path: that is
/// `AlreadyExists`.
pub fn prepare_create(parent_path: &str, name: &str, kind: NewKind, occupant: Occupant) -> (plan:
    Result<Entry, TreeError>)
    ensures
        match plan {
            Ok(entry) => occupant != Occupant::Other && entry@ == created_entry(
                parent_path@,
                name@,
                kind,
            ),
            Err(error) => occupant == Occupant::Other && error@ == TreeErrorView::AlreadyExists,
        },
{
    match occupant {
        Occupant::Other => Err(TreeError::AlreadyExists),
        _ => Ok(
            Entry {
                name: name.to_owned(),
                path: join_path(parent_path, name),
                kind: kind.as_entry_kind(),
            },
        ),
    }
}

/// Takes note of a creation that the filesystem was asked for. Where it
/// succeeded, `entry` goes in front of all entries. Where it failed, the
/// cache stays as it was and the filesystem's error is handed on.
pub fn create_entry(tree: &mut Tree, entry: Entry, outcome: Result<(), String>) -> (result: Result<
    (),
    TreeError,
>)
    ensures
        final(tree)@.links == old(tree)@.links,
        match outcome {
            Ok(_) => result is Ok && final(tree)@.entries == seq![entry@] + old(tree)@.entries,
            Err(text) => {
                &&& final(tree)@.entries == old(tree)@.entries
                &&& result matches Err(error) && error@ == TreeErrorView::IOError(text@)
            },
        },
{
    match outcome {
        Ok(_) => {
            tree.add_entry(entry);
            Ok(())
        },
        Err(text) => Err(TreeError::IOError(text)),
    }
}

/// Takes note of a removal that the filesystem was asked for. Where it
/// succeeded, the first entry at `target_path` leaves the cache, and with
/// `cascade` every entry whose path begins with `target_path`. Where it
/// failed, the cache stays as it was and the filesystem's error is handed on.
pub fn delete_entry(
    tree: &mut Tree,
    target_path: &str,
    cascade: bool,
    outcome: Result<(), String>,
) -> (result: Result<(), TreeError>)
    ensures
        final(tree)@.links == old(tree)@.links,
        match outcome {
            Ok(_) => result is Ok && final(tree)@.entries == after_delete(
                old(tree)@.entries,
                target_path@,
                cascade,
            ),
            Err(text) => {
                &&& final(tree)@.entries == old(tree)@.entries
                &&& result matches Err(error) && error@ == TreeErrorView::IOError(text@)
            },
        },
{
    match outcome {
        Ok(_) => {
            tree.remove_entry(target_path, cascade);
            Ok(())
        },
        Err(text) => Err(TreeError::IOError(text)),
    }
}

/// The entries of a listing that a removal is to take: the one under the
/// cursor, or with an anchor all from the anchor to the cursor, either way
/// round. Positions that the listing does not have are left out; where none
/// is left, that is `NotFound`.
pub fn deletion_targets(listing: &Vec<Entry>, anchor: Option<usize>, cursor: usize) -> (targets:
    Result<Vec<Entry>, TreeError>)
    ensures
        match targets {
            Ok(entries) => entry_views(entries@) == selected(
                entry_views(listing@),
                anchor,
                cursor,
            ) && entries@.len() > 0,
            Err(error) => selected(entry_views(listing@), anchor, cursor).len() == 0 && error@
                == TreeErrorView::NotFound,
        },
{
    let (low, high) = match anchor {
        None => (cursor, cursor),
        Some(start) => if start <= cursor {
            (start, cursor)
        } else {
            (cursor, start)
        },
    };
    if low >= listing.len() {
        return Err(TreeError::NotFound);
    }
    let end: usize = if high < listing.len() {
        high + 1
    } else {
        listing.len()
    };
    let mut targets: Vec<Entry> = Vec::new();
    let mut i: usize = low;
    while i < end
        invariant
            low <= i <= end <= listing.len(),
            entry_views(targets@) == entry_views(listing@).subrange(low as int, i as int),
        decreases end - i,
    {
        let entry = listing[i].clone();
        proof {
            lemma_entry_views_push(targets@, entry);
            assert(entry_views(listing@).subrange(low as int, i + 1) =~= entry_views(
                listing@,
            ).subrange(low as int, i as int).push(entry@));
        }
        targets.push(entry);
        i += 1;
    }
    Ok(targets)
}

/// Takes note of a batch of removals that the filesystem was asked for, in
/// their order. Each one that succeeded removes its entry from the cache, a
/// directory with all below it; each one that failed leaves the cache as it
/// was, and the batch goes on. The report counts the removals that
/// succeeded and holds the last failure.
pub fn delete_batch(tree: &mut Tree, attempts: &Vec<Attempt>) -> (report: BatchReport)
    ensures
        final(tree)@.links == old(tree)@.links,
        final(tree)@.entries == after_attempts(old(tree)@.entries, attempt_views(attempts@)),
        report.removed == count_removed(attempt_views(attempts@)),
        match report.failure {
            Some(error) => last_failure(attempt_views(attempts@)) matches Some(text) && error@
                == TreeErrorView::IOError(text),
            None => last_failure(attempt_views(attempts@)) is None,
        },
{
    let ghost all = attempt_views(attempts@);
    let mut removed: usize = 0;
    let mut failure: Option<TreeError> = None;
    let mut i: usize = 0;
    assert(all.skip(0) =~= all);
    while i < attempts.len()
        invariant
            i <= attempts.len(),
            all == attempt_views(attempts@),
            tree@.links == old(tree)@.links,
            after_attempts(tree@.entries, all.skip(i as int)) == after_attempts(
                old(tree)@.entries,
                all,
            ),
            removed == count_removed(all.take(i as int)),
            removed <= i,
            match failure {
                Some(error) => last_failure(all.take(i as int)) matches Some(text) && error@
                    == TreeErrorView::IOError(text),
                None => last_failure(all.take(i as int)) is None,
            },
        decreases attempts.len() - i,
    {
        let attempt = &attempts[i];
        proof {
            assert(all.skip(i as int).first() == attempt@);
            assert(all.skip(i as int).drop_first() =~= all.skip(i + 1));
            assert(all.take(i + 1).drop_last() =~= all.take(i as int));
            assert(all.take(i + 1).last() == attempt@);
        }
        match &attempt.outcome {
            Ok(_) => {
                tree.remove_entry(attempt.entry.path.as_str(), attempt.entry.kind.does_cascade());
                removed += 1;
            },
            Err(text) => {
                failure = Some(TreeError::IOError(text.clone()));
            },
        }
        i += 1;
    }
    proof {
        assert(all.take(i as int) =~= all);
        assert(all.skip(i as int).len() == 0);
    }
    BatchReport { removed, failure }
}

} // verus!
