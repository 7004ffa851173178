use crate::paths::last_segment;
use crate::text::str_eq;
use vstd::prelude::*;
use vstd::string::*;

verus! {

/// What a displayed entry is.
#[derive(Clone, Copy, Debug, PartialEq, Eq, Structural)]
pub enum EntryKind {
    File,
    Directory,
    SymlinkToFile,
    SymlinkToDirectory,
}

/// What a link points to.
#[derive(Clone, Copy, Debug, PartialEq, Eq, Structural)]
pub enum LinkKind {
    SymlinkToFile,
    SymlinkToDirectory,
}

impl EntryKind {
    /// The type tag under which a kind is written down and displayed: `file`
    /// and `d` for what is really there, and the same with an `l` behind it
    /// for a link to it.
    pub open spec fn tag_text(self) -> Seq<char> {
        match self {
            EntryKind::File => "file"@,
            EntryKind::Directory => "d"@,
            EntryKind::SymlinkToFile => "filel"@,
            EntryKind::SymlinkToDirectory => "dl"@,
        }
    }

    /// The kind that a type tag stands for, if it stands for one.
    pub open spec fn of_tag(text: Seq<char>) -> Option<EntryKind> {
        if text == "file"@ {
            Some(EntryKind::File)
        } else if text == "d"@ {
            Some(EntryKind::Directory)
        } else if text == "filel"@ {
            Some(EntryKind::SymlinkToFile)
        } else if text == "dl"@ {
            Some(EntryKind::SymlinkToDirectory)
        } else {
            None
        }
    }

    /// Whether an entry of this kind can be entered: a directory, or a link
    /// to one.
    pub open spec fn is_enterable(self) -> bool {
        self == EntryKind::Directory || self == EntryKind::SymlinkToDirectory
    }

    /// The type tag of this kind.
    pub fn tag(self) -> (text: String)
        ensures
            text@ == self.tag_text(),
    {
        match self {
            EntryKind::File => "file".to_owned(),
            EntryKind::Directory => "d".to_owned(),
            EntryKind::SymlinkToFile => "filel".to_owned(),
            EntryKind::SymlinkToDirectory => "dl".to_owned(),
        }
    }

    /// The kind that `text` stands for; nothing where it is no type tag.
    pub fn from_tag(text: &str) -> (kind: Option<EntryKind>)
        ensures
            kind == Self::of_tag(text@),
    {
        if str_eq(text, "file") {
            Some(EntryKind::File)
        } else if str_eq(text, "d") {
            Some(EntryKind::Directory)
        } else if str_eq(text, "filel") {
            Some(EntryKind::SymlinkToFile)
        } else if str_eq(text, "dl") {
            Some(EntryKind::SymlinkToDirectory)
        } else {
            None
        }
    }

    /// Whether an entry of this kind can be entered.
    pub fn can_enter(self) -> (yes: bool)
        ensures
            yes == self.is_enterable(),
    {
        match self {
            EntryKind::Directory => true,
            EntryKind::SymlinkToDirectory => true,
            _ => false,
        }
    }
}

impl LinkKind {
    /// The kind under which a link is shown in a listing.
    pub open spec fn displayed(self) -> EntryKind {
        match self {
            LinkKind::SymlinkToFile => EntryKind::SymlinkToFile,
            LinkKind::SymlinkToDirectory => EntryKind::SymlinkToDirectory,
        }
    }

    /// The type tag under which a link is written down: that of what it
    /// points to.
    pub open spec fn tag_text(self) -> Seq<char> {
        match self {
            LinkKind::SymlinkToFile => "file"@,
            LinkKind::SymlinkToDirectory => "d"@,
        }
    }

    /// The kind of link that a type tag stands for, if it stands for one.
    pub open spec fn of_tag(text: Seq<char>) -> Option<LinkKind> {
        if text == "file"@ {
            Some(LinkKind::SymlinkToFile)
        } else if text == "d"@ {
            Some(LinkKind::SymlinkToDirectory)
        } else {
            None
        }
    }

    /// The kind under which a link is shown in a listing.
    pub fn as_entry_kind(self) -> (kind: EntryKind)
        ensures
            kind == self.displayed(),
    {
        match self {
            LinkKind::SymlinkToFile => EntryKind::SymlinkToFile,
            LinkKind::SymlinkToDirectory => EntryKind::SymlinkToDirectory,
        }
    }

    /// The type tag of this kind of link.
    pub fn tag(self) -> (text: String)
        ensures
            text@ == self.tag_text(),
    {
        match self {
            LinkKind::SymlinkToFile => "file".to_owned(),
            LinkKind::SymlinkToDirectory => "d".to_owned(),
        }
    }

    /// The kind of link that `text` stands for; nothing where it is none.
    pub fn from_tag(text: &str) -> (kind: Option<LinkKind>)
        ensures
            kind == Self::of_tag(text@),
    {
        if str_eq(text, "file") {
            Some(LinkKind::SymlinkToFile)
        } else if str_eq(text, "d") {
            Some(LinkKind::SymlinkToDirectory)
        } else {
            None
        }
    }
}

/// The four type tags have four different lengths, so no two of them are
/// the same text.
pub proof fn lemma_tag_lengths()
    ensures
        "file"@.len() == 4,
        "d"@.len() == 1,
        "filel"@.len() == 5,
        "dl"@.len() == 2,
{
    reveal_strlit("file");
    reveal_strlit("d");
    reveal_strlit("filel");
    reveal_strlit("dl");
}

/// Every kind is found again from its own type tag.
pub proof fn lemma_entry_tag_round_trip(kind: EntryKind)
    ensures
        EntryKind::of_tag(kind.tag_text()) == Some(kind),
{
    lemma_tag_lengths();
}

/// Every kind of link is found again from its own type tag.
pub proof fn lemma_link_tag_round_trip(kind: LinkKind)
    ensures
        LinkKind::of_tag(kind.tag_text()) == Some(kind),
{
    lemma_tag_lengths();
}

/// A cached record of one real file or directory, or a link as a listing
/// shows it.
#[derive(Debug, PartialEq, Eq)]
pub struct Entry {
    pub name: String,
    pub path: String,
    pub kind: EntryKind,
}

/// A cached record of a symbolic link: where it stands and where it leads.
#[derive(Debug, PartialEq, Eq)]
pub struct Link {
    pub name: String,
    pub path: String,
    pub target_path: String,
    pub kind: LinkKind,
}

/// The cached hierarchy. The order of `entries` is meaningful: what was
/// changed last comes first.
#[derive(Debug, PartialEq, Eq)]
pub struct Tree {
    pub entries: Vec<Entry>,
    pub links: Vec<Link>,
}

/// The contents of an `Entry`: its texts as sequences of characters.
pub struct EntryView {
    pub name: Seq<char>,
    pub path: Seq<char>,
    pub kind: EntryKind,
}

/// The contents of a `Link`.
pub struct LinkView {
    pub name: Seq<char>,
    pub path: Seq<char>,
    pub target_path: Seq<char>,
    pub kind: LinkKind,
}

/// The contents of a `Tree`: its entries and its links, each in their order.
pub struct TreeView {
    pub entries: Seq<EntryView>,
    pub links: Seq<LinkView>,
}

impl View for Entry {
    type V = EntryView;

    open spec fn view(&self) -> EntryView {
        EntryView { name: self.name@, path: self.path@, kind: self.kind }
    }
}

impl View for Link {
    type V = LinkView;

    open spec fn view(&self) -> LinkView {
        LinkView {
            name: self.name@,
            path: self.path@,
            target_path: self.target_path@,
            kind: self.kind,
        }
    }
}

/// The contents of a list of entries.
pub open spec fn entry_views(entries: Seq<Entry>) -> Seq<EntryView> {
    entries.map_values(|entry: Entry| entry@)
}

/// The contents of a list of links.
pub open spec fn link_views(links: Seq<Link>) -> Seq<LinkView> {
    links.map_values(|link: Link| link@)
}

impl View for Tree {
    type V = TreeView;

    open spec fn view(&self) -> TreeView {
        TreeView { entries: entry_views(self.entries@), links: link_views(self.links@) }
    }
}

impl EntryView {
    /// Whether the name is the last segment of the path, as it is for every
    /// entry that was made by joining a parent's path and a name.
    pub open spec fn name_ends_path(self) -> bool {
        last_segment(self.path) == self.name
    }

    /// The text of the line that shows the entry: its type tag, a blank
    /// and its name.
    pub open spec fn label_text(self) -> Seq<char> {
        self.kind.tag_text() + " "@ + self.name
    }
}

impl LinkView {
    /// The link as a listing shows it: under its own name and path, with the
    /// kind of a link.
    pub open spec fn displayed(self) -> EntryView {
        EntryView { name: self.name, path: self.path, kind: self.kind.displayed() }
    }
}

impl Clone for Entry {
    fn clone(&self) -> (copy: Self)
        ensures
            copy@ == self@,
    {
        Entry { name: self.name.clone(), path: self.path.clone(), kind: self.kind }
    }
}

impl Clone for Link {
    fn clone(&self) -> (copy: Self)
        ensures
            copy@ == self@,
    {
        Link {
            name: self.name.clone(),
            path: self.path.clone(),
            target_path: self.target_path.clone(),
            kind: self.kind,
        }
    }
}

impl Entry {
    /// The text of the line that shows the entry.
    pub fn label(&self) -> (text: String)
        ensures
            text@ == self@.label_text(),
    {
        let mut text = self.kind.tag();
        text.append(" ");
        text.append(self.name.as_str());
        text
    }
}

impl Link {
    /// The link as a listing shows it.
    pub fn to_entry(&self) -> (entry: Entry)
        ensures
            entry@ == self@.displayed(),
    {
        Entry {
            name: self.name.clone(),
            path: self.path.clone(),
            kind: self.kind.as_entry_kind(),
        }
    }
}

impl Tree {
    /// A hierarchy that holds nothing.
    pub fn new() -> (tree: Tree)
        ensures
            tree@.entries == Seq::<EntryView>::empty(),
            tree@.links == Seq::<LinkView>::empty(),
    {
        Tree { entries: Vec::new(), links: Vec::new() }
    }
}

/// The contents of a list of entries that got one more entry at its end.
pub proof fn lemma_entry_views_push(entries: Seq<Entry>, entry: Entry)
    ensures
        entry_views(entries.push(entry)) == entry_views(entries).push(entry@),
{
    assert(entry_views(entries.push(entry)) =~= entry_views(entries).push(entry@));
}

/// The contents of a list of links that got one more link at its end.
pub proof fn lemma_link_views_push(links: Seq<Link>, link: Link)
    ensures
        link_views(links.push(link)) == link_views(links).push(link@),
{
    assert(link_views(links.push(link)) =~= link_views(links).push(link@));
}

/// A copy of a list of entries.
pub fn clone_entries(entries: &Vec<Entry>) -> (copy: Vec<Entry>)
    ensures
        entry_views(copy@) == entry_views(entries@),
{
    let mut copy: Vec<Entry> = Vec::new();
    let mut i: usize = 0;
    while i < entries.len()
        invariant
            i <= entries.len(),
            entry_views(copy@) == entry_views(entries@.take(i as int)),
        decreases entries.len() - i,
    {
        let entry = entries[i].clone();
        proof {
            lemma_entry_views_push(copy@, entry);
            lemma_entry_views_push(entries@.take(i as int), entries@[i as int]);
            assert(entries@.take(i + 1) =~= entries@.take(i as int).push(entries@[i as int]));
        }
        copy.push(entry);
        i += 1;
    }
    assert(entries@.take(i as int) =~= entries@);
    copy
}

/// A copy of a list of links.
pub fn clone_links(links: &Vec<Link>) -> (copy: Vec<Link>)
    ensures
        link_views(copy@) == link_views(links@),
{
    let mut copy: Vec<Link> = Vec::new();
    let mut i: usize = 0;
    while i < links.len()
        invariant
            i <= links.len(),
            link_views(copy@) == link_views(links@.take(i as int)),
        decreases links.len() - i,
    {
        let link = links[i].clone();
        proof {
            lemma_link_views_push(copy@, link);
            lemma_link_views_push(links@.take(i as int), links@[i as int]);
            assert(links@.take(i + 1) =~= links@.take(i as int).push(links@[i as int]));
        }
        copy.push(link);
        i += 1;
    }
    assert(links@.take(i as int) =~= links@);
    copy
}

impl Clone for Tree {
    fn clone(&self) -> (copy: Self)
        ensures
            copy@ == self@,
    {
        Tree { entries: clone_entries(&self.entries), links: clone_links(&self.links) }
    }
}

} // verus!
