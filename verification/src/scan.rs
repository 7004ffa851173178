use crate::text::has_prefix;
use crate::tree::{lemma_entry_views_push, entry_views, Entry, EntryKind, EntryView};
use vstd::prelude::*;

verus! {

/// One item of a directory as the filesystem lists it.
#[derive(Debug, PartialEq, Eq)]
pub struct DirItem {
    pub file_name: String,
    pub path: String,
    pub is_dir: bool,
}

/// The contents of a `DirItem`.
pub struct DirItemView {
    pub file_name: Seq<char>,
    pub path: Seq<char>,
    pub is_dir: bool,
}

impl View for DirItem {
    type V = DirItemView;

    open spec fn view(&self) -> DirItemView {
        DirItemView { file_name: self.file_name@, path: self.path@, is_dir: self.is_dir }
    }
}

/// The contents of a list of directory items.
pub open spec fn dir_item_views(items: Seq<DirItem>) -> Seq<DirItemView> {
    items.map_values(|item: DirItem| item@)
}

impl DirItemView {
    /// Whether the item is hidden: its name begins with a dot.
    pub open spec fn is_hidden(self) -> bool {
        self.file_name.len() > 0 && self.file_name[0] == '.'
    }

    /// The entry that stands for the item: a directory or a file, under the
    /// item's name and path.
    pub open spec fn as_entry(self) -> EntryView {
        EntryView {
            name: self.file_name,
            path: self.path,
            kind: if self.is_dir {
                EntryKind::Directory
            } else {
                EntryKind::File
            },
        }
    }
}

/// The test that picks the items that are not hidden.
pub open spec fn is_shown() -> spec_fn(DirItemView) -> bool {
    |item: DirItemView| !item.is_hidden()
}

/// How an item becomes an entry.
pub open spec fn to_entry() -> spec_fn(DirItemView) -> EntryView {
    |item: DirItemView| item.as_entry()
}

/// The entries that stand for the items of a directory: one for every item
/// that is not hidden, in the order of the items.
pub open spec fn entries_of(items: Seq<DirItemView>) -> Seq<EntryView> {
    items.filter(is_shown()).map_values(to_entry())
}

/// The entries for what the filesystem lists in a directory. Hidden items
/// are left out.
pub fn get_entries(items: &Vec<DirItem>) -> (entries: Vec<Entry>)
    ensures
        entry_views(entries@) == entries_of(dir_item_views(items@)),
{
    let ghost listed = dir_item_views(items@);
    let mut entries: Vec<Entry> = Vec::new();
    let mut i: usize = 0;
    while i < items.len()
        invariant
            i <= items.len(),
            listed == dir_item_views(items@),
            entry_views(entries@) == entries_of(listed.take(i as int)),
        decreases items.len() - i,
    {
        let item = &items[i];
        proof {
            reveal_strlit(".");
            assert("."@ =~= seq!['.']);
            assert(listed[i as int] == item@);
            let name = item@.file_name;
            if name.len() > 0 {
                assert(name.subrange(0, 1)[0] == name[0]);
                assert(seq!['.'][0] == '.');
                assert(name[0] == '.' ==> name.subrange(0, 1) =~= seq!['.']);
            }
            assert(seq!['.'].is_prefix_of(name) <==> item@.is_hidden());
            let seen = listed.take(i as int);
            assert(listed.take(i + 1) =~= seen.push(item@));
            seen.lemma_filter_push(item@, is_shown());
            seen.filter(is_shown()).lemma_push_map_commute(to_entry(), item@);
        }
        if !has_prefix(item.file_name.as_str(), ".") {
            let entry = Entry {
                name: item.file_name.clone(),
                path: item.path.clone(),
                kind: if item.is_dir {
                    EntryKind::Directory
                } else {
                    EntryKind::File
                },
            };
            proof {
                lemma_entry_views_push(entries@, entry);
            }
            entries.push(entry);
        }
        i += 1;
    }
    proof {
        assert(listed.take(i as int) =~= listed);
    }
    entries
}

} // verus!
