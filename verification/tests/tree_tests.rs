use tree_browser::error::TreeError;
use tree_browser::snapshot::{parse_tree, EntryRecord, LinkRecord, Snapshot};
use tree_browser::tree::{clone_entries, clone_links, Entry, EntryKind, Link, LinkKind, Tree};

fn entry(name: &str, path: &str, kind: EntryKind) -> Entry {
    Entry { name: name.to_string(), path: path.to_string(), kind }
}

fn link(name: &str, path: &str, target: &str, kind: LinkKind) -> Link {
    Link {
        name: name.to_string(),
        path: path.to_string(),
        target_path: target.to_string(),
        kind,
    }
}

fn entry_record(name: &str, path: &str, tag: &str) -> EntryRecord {
    EntryRecord { name: name.to_string(), path: path.to_string(), type_tag: tag.to_string() }
}

fn link_record(name: &str, path: &str, target: &str, tag: &str) -> LinkRecord {
    LinkRecord {
        name: name.to_string(),
        path: path.to_string(),
        link_path: target.to_string(),
        type_tag: tag.to_string(),
    }
}

#[test]
fn entry_kind_tags() {
    assert_eq!(EntryKind::File.tag(), "file");
    assert_eq!(EntryKind::Directory.tag(), "d");
    assert_eq!(EntryKind::SymlinkToFile.tag(), "filel");
    assert_eq!(EntryKind::SymlinkToDirectory.tag(), "dl");
}

#[test]
fn entry_kind_from_tag() {
    assert_eq!(EntryKind::from_tag("file"), Some(EntryKind::File));
    assert_eq!(EntryKind::from_tag("d"), Some(EntryKind::Directory));
    assert_eq!(EntryKind::from_tag("filel"), Some(EntryKind::SymlinkToFile));
    assert_eq!(EntryKind::from_tag("dl"), Some(EntryKind::SymlinkToDirectory));
    assert_eq!(EntryKind::from_tag("dir"), None);
    assert_eq!(EntryKind::from_tag(""), None);
    assert_eq!(EntryKind::from_tag("File"), None);
}

#[test]
fn entry_kind_tag_round_trip() {
    for kind in [
        EntryKind::File,
        EntryKind::Directory,
        EntryKind::SymlinkToFile,
        EntryKind::SymlinkToDirectory,
    ] {
        assert_eq!(EntryKind::from_tag(&kind.tag()), Some(kind));
    }
}

#[test]
fn link_kind_tags_are_those_of_the_target() {
    assert_eq!(LinkKind::SymlinkToFile.tag(), "file");
    assert_eq!(LinkKind::SymlinkToDirectory.tag(), "d");
    assert_eq!(LinkKind::from_tag("file"), Some(LinkKind::SymlinkToFile));
    assert_eq!(LinkKind::from_tag("d"), Some(LinkKind::SymlinkToDirectory));
    assert_eq!(LinkKind::from_tag("dl"), None);
    assert_eq!(LinkKind::from_tag("filel"), None);
    assert_eq!(LinkKind::from_tag(""), None);
}

#[test]
fn link_kind_is_displayed_as_link() {
    assert_eq!(LinkKind::SymlinkToFile.as_entry_kind(), EntryKind::SymlinkToFile);
    assert_eq!(LinkKind::SymlinkToDirectory.as_entry_kind(), EntryKind::SymlinkToDirectory);
}

#[test]
fn only_directories_and_links_to_them_can_be_entered() {
    assert!(EntryKind::Directory.can_enter());
    assert!(EntryKind::SymlinkToDirectory.can_enter());
    assert!(!EntryKind::File.can_enter());
    assert!(!EntryKind::SymlinkToFile.can_enter());
}

#[test]
fn label_is_tag_blank_name() {
    assert_eq!(entry("docs", "/docs", EntryKind::Directory).label(), "d docs");
    assert_eq!(entry("a.txt", "/a.txt", EntryKind::File).label(), "file a.txt");
    assert_eq!(entry("s", "/s", EntryKind::SymlinkToDirectory).label(), "dl s");
    assert_eq!(entry("t", "/t", EntryKind::SymlinkToFile).label(), "filel t");
}

#[test]
fn link_to_entry_keeps_name_and_path() {
    let shown = link("shortcut", "/shortcut", "/docs", LinkKind::SymlinkToDirectory).to_entry();
    assert_eq!(shown, entry("shortcut", "/shortcut", EntryKind::SymlinkToDirectory));
}

#[test]
fn clones_are_equal() {
    let tree = Tree {
        entries: vec![
            entry("docs", "/docs", EntryKind::Directory),
            entry("a", "/docs/a", EntryKind::File),
        ],
        links: vec![link("s", "/s", "/docs", LinkKind::SymlinkToDirectory)],
    };
    assert_eq!(tree.clone(), tree);
    assert_eq!(clone_entries(&tree.entries), tree.entries);
    assert_eq!(clone_links(&tree.links), tree.links);
    assert_eq!(tree.entries[1].clone(), tree.entries[1]);
    assert_eq!(tree.links[0].clone(), tree.links[0]);
}

#[test]
fn new_tree_is_empty() {
    let tree = Tree::new();
    assert!(tree.entries.is_empty());
    assert!(tree.links.is_empty());
}

#[test]
fn parse_tree_reads_every_record_in_order() {
    let snapshot = Snapshot {
        root: vec![
            entry_record("docs", "/docs", "d"),
            entry_record("notes.txt", "/docs/notes.txt", "file"),
            entry_record("l", "/l", "dl"),
            entry_record("m", "/m", "filel"),
        ],
        links: vec![
            link_record("shortcut", "/shortcut", "/docs", "d"),
            link_record("n", "/n", "/docs/notes.txt", "file"),
        ],
    };
    let tree = parse_tree(&snapshot).unwrap();
    assert_eq!(
        tree.entries,
        vec![
            entry("docs", "/docs", EntryKind::Directory),
            entry("notes.txt", "/docs/notes.txt", EntryKind::File),
            entry("l", "/l", EntryKind::SymlinkToDirectory),
            entry("m", "/m", EntryKind::SymlinkToFile),
        ]
    );
    assert_eq!(
        tree.links,
        vec![
            link("shortcut", "/shortcut", "/docs", LinkKind::SymlinkToDirectory),
            link("n", "/n", "/docs/notes.txt", LinkKind::SymlinkToFile),
        ]
    );
}

#[test]
fn parse_tree_of_an_empty_snapshot() {
    let tree = parse_tree(&Snapshot { root: vec![], links: vec![] }).unwrap();
    assert_eq!(tree, Tree::new());
}

#[test]
fn parse_tree_reports_the_first_unknown_entry_tag() {
    let snapshot = Snapshot {
        root: vec![
            entry_record("a", "/a", "file"),
            entry_record("b", "/b", "dir"),
            entry_record("c", "/c", "socket"),
        ],
        links: vec![link_record("s", "/s", "/a", "pipe")],
    };
    assert_eq!(
        parse_tree(&snapshot),
        Err(TreeError::ParseError("Unknown entry type: dir".to_string()))
    );
}

#[test]
fn parse_tree_reports_an_unknown_link_tag() {
    let snapshot = Snapshot {
        root: vec![entry_record("a", "/a", "file")],
        links: vec![
            link_record("s", "/s", "/a", "file"),
            link_record("t", "/t", "/a", "dl"),
            link_record("u", "/u", "/a", "x"),
        ],
    };
    assert_eq!(
        parse_tree(&snapshot),
        Err(TreeError::ParseError("Unknown entry type: dl".to_string()))
    );
}

#[test]
fn to_snapshot_writes_every_record_in_order() {
    let tree = Tree {
        entries: vec![
            entry("docs", "/docs", EntryKind::Directory),
            entry("notes.txt", "/docs/notes.txt", EntryKind::File),
            entry("l", "/l", EntryKind::SymlinkToDirectory),
        ],
        links: vec![link("shortcut", "/shortcut", "/docs", LinkKind::SymlinkToDirectory)],
    };
    let snapshot = tree.to_snapshot();
    assert_eq!(
        snapshot,
        Snapshot {
            root: vec![
                entry_record("docs", "/docs", "d"),
                entry_record("notes.txt", "/docs/notes.txt", "file"),
                entry_record("l", "/l", "dl"),
            ],
            links: vec![link_record("shortcut", "/shortcut", "/docs", "d")],
        }
    );
}

#[test]
fn snapshot_round_trip_keeps_the_tree() {
    let tree = Tree {
        entries: vec![
            entry("b", "/b", EntryKind::File),
            entry("docs", "/docs", EntryKind::Directory),
            entry("b", "/b", EntryKind::File),
            entry("x", "/docs/x", EntryKind::SymlinkToFile),
            entry("y", "/docs/y", EntryKind::SymlinkToDirectory),
        ],
        links: vec![
            link("s", "/s", "/docs", LinkKind::SymlinkToDirectory),
            link("t", "/t", "/b", LinkKind::SymlinkToFile),
        ],
    };
    assert_eq!(parse_tree(&tree.to_snapshot()), Ok(tree));
}

#[test]
fn error_messages() {
    assert_eq!(TreeError::NotFound.message(), "Entry not found");
    assert_eq!(TreeError::Inconsistent.message(), "Link path not found");
    assert_eq!(TreeError::AlreadyExists.message(), "File already exists");
    assert_eq!(TreeError::IOError("disk full".to_string()).message(), "disk full");
    assert_eq!(TreeError::ParseError("bad".to_string()).message(), "bad");
}

#[test]
fn error_clone_is_equal() {
    for error in [
        TreeError::NotFound,
        TreeError::Inconsistent,
        TreeError::AlreadyExists,
        TreeError::IOError("x".to_string()),
        TreeError::ParseError("y".to_string()),
    ] {
        assert_eq!(error.clone(), error);
    }
}
