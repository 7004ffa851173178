use crate::error::{TreeError, TreeErrorView};
use crate::tree::{
    entry_views, lemma_entry_tag_round_trip, lemma_entry_views_push, lemma_link_tag_round_trip,
    lemma_link_views_push, link_views, Entry, EntryKind, EntryView, Link, LinkKind, LinkView, Tree,
    TreeView,
};
use vstd::prelude::*;
use vstd::string::*;

verus! {

/// An entry as the snapshot writes it down: the kind is a type tag.
#[derive(Debug, PartialEq, Eq)]
pub struct EntryRecord {
    pub name: String,
    pub path: String,
    pub type_tag: String,
}

/// A link as the snapshot writes it down: the type tag is that of what the
/// link points to.
#[derive(Debug, PartialEq, Eq)]
pub struct LinkRecord {
    pub name: String,
    pub path: String,
    pub link_path: String,
    pub type_tag: String,
}

/// The cached hierarchy as it is written down.
#[derive(Debug, PartialEq, Eq)]
pub struct Snapshot {
    pub root: Vec<EntryRecord>,
    pub links: Vec<LinkRecord>,
}

/// The contents of an `EntryRecord`.
pub struct EntryRecordView {
    pub name: Seq<char>,
    pub path: Seq<char>,
    pub type_tag: Seq<char>,
}

/// The contents of a `LinkRecord`.
pub struct LinkRecordView {
    pub name: Seq<char>,
    pub path: Seq<char>,
    pub link_path: Seq<char>,
    pub type_tag: Seq<char>,
}

/// The contents of a `Snapshot`.
pub struct SnapshotView {
    pub root: Seq<EntryRecordView>,
    pub links: Seq<LinkRecordView>,
}

impl View for EntryRecord {
    type V = EntryRecordView;

    open spec fn view(&self) -> EntryRecordView {
        EntryRecordView { name: self.name@, path: self.path@, type_tag: self.type_tag@ }
    }
}

impl View for LinkRecord {
    type V = LinkRecordView;

    open spec fn view(&self) -> LinkRecordView {
        LinkRecordView {
            name: self.name@,
            path: self.path@,
            link_path: self.link_path@,
            type_tag: self.type_tag@,
        }
    }
}

/// The contents of a list of entry records.
pub open spec fn entry_record_views(records: Seq<EntryRecord>) -> Seq<EntryRecordView> {
    records.map_values(|record: EntryRecord| record@)
}

/// The contents of a list of link records.
pub open spec fn link_record_views(records: Seq<LinkRecord>) -> Seq<LinkRecordView> {
    records.map_values(|record: LinkRecord| record@)
}

impl View for Snapshot {
    type V = SnapshotView;

    open spec fn view(&self) -> SnapshotView {
        SnapshotView {
            root: entry_record_views(self.root@),
            links: link_record_views(self.links@),
        }
    }
}

impl EntryRecordView {
    /// The entry that the record stands for; its kind is unspecified where
    /// the type tag stands for none.
    pub open spec fn decoded(self) -> EntryView {
        EntryView { name: self.name, path: self.path, kind: EntryKind::of_tag(self.type_tag)->0 }
    }
}

impl LinkRecordView {
    /// The link that the record stands for; its kind is unspecified where
    /// the type tag stands for none.
    pub open spec fn decoded(self) -> LinkView {
        LinkView {
            name: self.name,
            path: self.path,
            target_path: self.link_path,
            kind: LinkKind::of_tag(self.type_tag)->0,
        }
    }
}

impl EntryView {
    /// The record that writes the entry down.
    pub open spec fn encoded(self) -> EntryRecordView {
        EntryRecordView { name: self.name, path: self.path, type_tag: self.kind.tag_text() }
    }
}

impl LinkView {
    /// The record that writes the link down.
    pub open spec fn encoded(self) -> LinkRecordView {
        LinkRecordView {
            name: self.name,
            path: self.path,
            link_path: self.target_path,
            type_tag: self.kind.tag_text(),
        }
    }
}

/// The type tag of the first entry record whose tag stands for no kind.
pub open spec fn unknown_entry_tag(records: Seq<EntryRecordView>) -> Option<Seq<char>>
    decreases records.len(),
{
    if records.len() == 0 {
        None
    } else if EntryKind::of_tag(records.first().type_tag) is None {
        Some(records.first().type_tag)
    } else {
        unknown_entry_tag(records.drop_first())
    }
}

/// The type tag of the first link record whose tag stands for no kind of
/// link.
pub open spec fn unknown_link_tag(records: Seq<LinkRecordView>) -> Option<Seq<char>>
    decreases records.len(),
{
    if records.len() == 0 {
        None
    } else if LinkKind::of_tag(records.first().type_tag) is None {
        Some(records.first().type_tag)
    } else {
        unknown_link_tag(records.drop_first())
    }
}

impl SnapshotView {
    /// The first type tag of the snapshot that stands for nothing, the
    /// entries taken before the links; none where every record can be read.
    pub open spec fn unknown_tag(self) -> Option<Seq<char>> {
        match unknown_entry_tag(self.root) {
            Some(tag) => Some(tag),
            None => unknown_link_tag(self.links),
        }
    }

    /// The hierarchy that the snapshot writes down: record by record, in
    /// the same order. Nothing where a type tag stands for nothing.
    pub open spec fn decoded(self) -> Option<TreeView> {
        if self.unknown_tag() is None {
            Some(
                TreeView {
                    entries: self.root.map_values(|record: EntryRecordView| record.decoded()),
                    links: self.links.map_values(|record: LinkRecordView| record.decoded()),
                },
            )
        } else {
            None
        }
    }
}

impl TreeView {
    /// The snapshot that writes the hierarchy down: record by record, in the
    /// same order.
    pub open spec fn encoded(self) -> SnapshotView {
        SnapshotView {
            root: self.entries.map_values(|entry: EntryView| entry.encoded()),
            links: self.links.map_values(|link: LinkView| link.encoded()),
        }
    }
}

/// What is reported of a type tag that stands for nothing.
pub open spec fn unknown_tag_message(tag: Seq<char>) -> Seq<char> {
    "Unknown entry type: "@ + tag
}

/// Records that all can be read have no unknown tag.
proof fn lemma_no_unknown_entry_tag(records: Seq<EntryRecordView>)
    requires
        forall|i: int| 0 <= i < records.len() ==> EntryKind::of_tag(
            (#[trigger] records[i]).type_tag,
        ) is Some,
    ensures
        unknown_entry_tag(records) is None,
    decreases records.len(),
{
    if records.len() > 0 {
        assert(EntryKind::of_tag(records[0].type_tag) is Some);
        let rest = records.drop_first();
        assert forall|i: int| 0 <= i < rest.len() implies EntryKind::of_tag(
            (#[trigger] rest[i]).type_tag,
        ) is Some by {
            assert(rest[i] == records[i + 1]);
        }
        lemma_no_unknown_entry_tag(rest);
    }
}

/// The first record that cannot be read gives the unknown tag.
proof fn lemma_unknown_entry_tag_at(records: Seq<EntryRecordView>, at: int)
    requires
        0 <= at < records.len(),
        EntryKind::of_tag(records[at].type_tag) is None,
        forall|i: int| 0 <= i < at ==> EntryKind::of_tag((#[trigger] records[i]).type_tag) is Some,
    ensures
        unknown_entry_tag(records) == Some(records[at].type_tag),
    decreases records.len(),
{
    if at > 0 {
        assert(EntryKind::of_tag(records[0].type_tag) is Some);
        let rest = records.drop_first();
        assert forall|i: int| 0 <= i < at - 1 implies EntryKind::of_tag(
            (#[trigger] rest[i]).type_tag,
        ) is Some by {
            assert(rest[i] == records[i + 1]);
        }
        lemma_unknown_entry_tag_at(rest, at - 1);
    }
}

/// Link records that all can be read have no unknown tag.
proof fn lemma_no_unknown_link_tag(records: Seq<LinkRecordView>)
    requires
        forall|i: int| 0 <= i < records.len() ==> LinkKind::of_tag(
            (#[trigger] records[i]).type_tag,
        ) is Some,
    ensures
        unknown_link_tag(records) is None,
    decreases records.len(),
{
    if records.len() > 0 {
        assert(LinkKind::of_tag(records[0].type_tag) is Some);
        let rest = records.drop_first();
        assert forall|i: int| 0 <= i < rest.len() implies LinkKind::of_tag(
            (#[trigger] rest[i]).type_tag,
        ) is Some by {
            assert(rest[i] == records[i + 1]);
        }
        lemma_no_unknown_link_tag(rest);
    }
}

/// The first link record that cannot be read gives the unknown tag.
proof fn lemma_unknown_link_tag_at(records: Seq<LinkRecordView>, at: int)
    requires
        0 <= at < records.len(),
        LinkKind::of_tag(records[at].type_tag) is None,
        forall|i: int| 0 <= i < at ==> LinkKind::of_tag((#[trigger] records[i]).type_tag) is Some,
    ensures
        unknown_link_tag(records) == Some(records[at].type_tag),
    decreases records.len(),
{
    if at > 0 {
        assert(LinkKind::of_tag(records[0].type_tag) is Some);
        let rest = records.drop_first();
        assert forall|i: int| 0 <= i < at - 1 implies LinkKind::of_tag(
            (#[trigger] rest[i]).type_tag,
        ) is Some by {
            assert(rest[i] == records[i + 1]);
        }
        lemma_unknown_link_tag_at(rest, at - 1);
    }
}

/// Writing a hierarchy down and reading it again gives the same hierarchy:
/// every entry and every link, field by field, in the same order.
pub proof fn lemma_decode_encode(tree: TreeView)
    ensures
        tree.encoded().decoded() == Some(tree),
{
    let snapshot = tree.encoded();
    assert forall|i: int| 0 <= i < snapshot.root.len() implies EntryKind::of_tag(
        (#[trigger] snapshot.root[i]).type_tag,
    ) is Some by {
        lemma_entry_tag_round_trip(tree.entries[i].kind);
    }
    lemma_no_unknown_entry_tag(snapshot.root);
    assert forall|i: int| 0 <= i < snapshot.links.len() implies LinkKind::of_tag(
        (#[trigger] snapshot.links[i]).type_tag,
    ) is Some by {
        lemma_link_tag_round_trip(tree.links[i].kind);
    }
    lemma_no_unknown_link_tag(snapshot.links);
    let read = snapshot.decoded()->0;
    assert(read.entries =~= tree.entries) by {
        assert forall|i: int| 0 <= i < tree.entries.len() implies read.entries[i]
            == tree.entries[i] by {
            lemma_entry_tag_round_trip(tree.entries[i].kind);
        }
    }
    assert(read.links =~= tree.links) by {
        assert forall|i: int| 0 <= i < tree.links.len() implies read.links[i] == tree.links[i] by {
            lemma_link_tag_round_trip(tree.links[i].kind);
        }
    }
}

/// Where no entry record has an unknown tag, every one can be read.
proof fn lemma_every_entry_tag_is_known(records: Seq<EntryRecordView>, at: int)
    requires
        unknown_entry_tag(records) is None,
        0 <= at < records.len(),
    ensures
        EntryKind::of_tag(records[at].type_tag) is Some,
    decreases records.len(),
{
    if at > 0 {
        let rest = records.drop_first();
        assert(rest[at - 1] == records[at]);
        lemma_every_entry_tag_is_known(rest, at - 1);
    }
}

/// Where no link record has an unknown tag, every one can be read.
proof fn lemma_every_link_tag_is_known(records: Seq<LinkRecordView>, at: int)
    requires
        unknown_link_tag(records) is None,
        0 <= at < records.len(),
    ensures
        LinkKind::of_tag(records[at].type_tag) is Some,
    decreases records.len(),
{
    if at > 0 {
        let rest = records.drop_first();
        assert(rest[at - 1] == records[at]);
        lemma_every_link_tag_is_known(rest, at - 1);
    }
}

/// Reading a snapshot and writing down what was read gives the same
/// snapshot: every record, field by field, in the same order.
pub proof fn lemma_encode_decode(snapshot: SnapshotView)
    requires
        snapshot.decoded() is Some,
    ensures
        snapshot.decoded()->0.encoded() == snapshot,
{
    let written = snapshot.decoded()->0.encoded();
    assert(written.root =~= snapshot.root) by {
        assert forall|i: int| 0 <= i < snapshot.root.len() implies written.root[i]
            == snapshot.root[i] by {
            lemma_every_entry_tag_is_known(snapshot.root, i);
        }
    }
    assert(written.links =~= snapshot.links) by {
        assert forall|i: int| 0 <= i < snapshot.links.len() implies written.links[i]
            == snapshot.links[i] by {
            lemma_every_link_tag_is_known(snapshot.links, i);
        }
    }
}

/// The error that reports a type tag that stands for nothing.
fn unknown_tag_error(tag: &str) -> (error: TreeError)
    ensures
        error@ == TreeErrorView::ParseError(unknown_tag_message(tag@)),
{
    let mut text = "Unknown entry type: ".to_owned();
    text.append(tag);
    TreeError::ParseError(text)
}

/// Reads a snapshot: every record becomes the entry or the link that it
/// stands for, in the same order. A type tag that stands for nothing makes
/// the snapshot corrupt: the first such tag is reported as a `ParseError`,
/// the entries taken before the links.
pub fn parse_tree(snapshot: &Snapshot) -> (tree: Result<Tree, TreeError>)
    ensures
        match tree {
            Ok(read) => snapshot@.decoded() == Some(read@),
            Err(error) => snapshot@.unknown_tag() matches Some(tag) && error@
                == TreeErrorView::ParseError(unknown_tag_message(tag)),
        },
{
    let ghost root = snapshot@.root;
    let ghost links_written = snapshot@.links;
    let mut entries: Vec<Entry> = Vec::new();
    let mut i: usize = 0;
    while i < snapshot.root.len()
        invariant
            i <= snapshot.root.len(),
            root == snapshot@.root,
            forall|j: int| 0 <= j < i ==> EntryKind::of_tag((#[trigger] root[j]).type_tag) is Some,
            entry_views(entries@) == root.take(i as int).map_values(
                |record: EntryRecordView| record.decoded(),
            ),
        decreases snapshot.root.len() - i,
    {
        let record = &snapshot.root[i];
        assert(root[i as int] == record@);
        match EntryKind::from_tag(record.type_tag.as_str()) {
            None => {
                proof {
                    lemma_unknown_entry_tag_at(root, i as int);
                }
                return Err(unknown_tag_error(record.type_tag.as_str()));
            },
            Some(kind) => {
                let entry = Entry { name: record.name.clone(), path: record.path.clone(), kind };
                proof {
                    lemma_entry_views_push(entries@, entry);
                    assert(root.take(i + 1) =~= root.take(i as int).push(root[i as int]));
                    assert(root.take(i + 1).map_values(|record: EntryRecordView| record.decoded())
                        =~= root.take(i as int).map_values(
                        |record: EntryRecordView| record.decoded(),
                    ).push(entry@));
                }
                entries.push(entry);
            },
        }
        i += 1;
    }
    proof {
        assert(root.take(i as int) =~= root);
        lemma_no_unknown_entry_tag(root);
    }
    let mut links: Vec<Link> = Vec::new();
    let mut k: usize = 0;
    while k < snapshot.links.len()
        invariant
            k <= snapshot.links.len(),
            links_written == snapshot@.links,
            unknown_entry_tag(snapshot@.root) is None,
            forall|j: int|
                0 <= j < k ==> LinkKind::of_tag((#[trigger] links_written[j]).type_tag) is Some,
            link_views(links@) == links_written.take(k as int).map_values(
                |record: LinkRecordView| record.decoded(),
            ),
        decreases snapshot.links.len() - k,
    {
        let record = &snapshot.links[k];
        assert(links_written[k as int] == record@);
        match LinkKind::from_tag(record.type_tag.as_str()) {
            None => {
                proof {
                    lemma_unknown_link_tag_at(links_written, k as int);
                }
                return Err(unknown_tag_error(record.type_tag.as_str()));
            },
            Some(kind) => {
                let link = Link {
                    name: record.name.clone(),
                    path: record.path.clone(),
                    target_path: record.link_path.clone(),
                    kind,
                };
                proof {
                    lemma_link_views_push(links@, link);
                    assert(links_written.take(k + 1) =~= links_written.take(k as int).push(
                        links_written[k as int],
                    ));
                    assert(links_written.take(k + 1).map_values(
                        |record: LinkRecordView| record.decoded(),
                    ) =~= links_written.take(k as int).map_values(
                        |record: LinkRecordView| record.decoded(),
                    ).push(link@));
                }
                links.push(link);
            },
        }
        k += 1;
    }
    proof {
        assert(links_written.take(k as int) =~= links_written);
        lemma_no_unknown_link_tag(links_written);
    }
    Ok(Tree { entries, links })
}

impl Tree {
    /// The snapshot that writes the hierarchy down.
    pub fn to_snapshot(&self) -> (snapshot: Snapshot)
        ensures
            snapshot@ == self@.encoded(),
    {
        let ghost entries = self@.entries;
        let ghost links = self@.links;
        let mut root: Vec<EntryRecord> = Vec::new();
        let mut i: usize = 0;
        while i < self.entries.len()
            invariant
                i <= self.entries.len(),
                entries == self@.entries,
                entry_record_views(root@) == entries.take(i as int).map_values(
                    |entry: EntryView| entry.encoded(),
                ),
            decreases self.entries.len() - i,
        {
            let entry = &self.entries[i];
            assert(entries[i as int] == entry@);
            let record = EntryRecord {
                name: entry.name.clone(),
                path: entry.path.clone(),
                type_tag: entry.kind.tag(),
            };
            proof {
                assert(entry_record_views(root@.push(record)) =~= entry_record_views(root@).push(
                    record@,
                ));
                assert(entries.take(i + 1) =~= entries.take(i as int).push(entries[i as int]));
                assert(entries.take(i + 1).map_values(|entry: EntryView| entry.encoded())
                    =~= entries.take(i as int).map_values(
                    |entry: EntryView| entry.encoded(),
                ).push(record@));
            }
            root.push(record);
            i += 1;
        }
        let mut written: Vec<LinkRecord> = Vec::new();
        let mut k: usize = 0;
        while k < self.links.len()
            invariant
                k <= self.links.len(),
                links == self@.links,
                link_record_views(written@) == links.take(k as int).map_values(
                    |link: LinkView| link.encoded(),
                ),
            decreases self.links.len() - k,
        {
            let link = &self.links[k];
            assert(links[k as int] == link@);
            let record = LinkRecord {
                name: link.name.clone(),
                path: link.path.clone(),
                link_path: link.target_path.clone(),
                type_tag: link.kind.tag(),
            };
            proof {
                assert(link_record_views(written@.push(record)) =~= link_record_views(
                    written@,
                ).push(record@));
                assert(links.take(k + 1) =~= links.take(k as int).push(links[k as int]));
                assert(links.take(k + 1).map_values(|link: LinkView| link.encoded())
                    =~= links.take(k as int).map_values(|link: LinkView| link.encoded()).push(
                    record@,
                ));
            }
            written.push(record);
            k += 1;
        }
        proof {
            assert(entries.take(i as int) =~= entries);
            assert(links.take(k as int) =~= links);
        }
        Snapshot { root, links: written }
    }
}

} // verus!
