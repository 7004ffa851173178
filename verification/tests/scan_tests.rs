use tree_browser::scan::{get_entries, DirItem};
use tree_browser::tree::{Entry, EntryKind};

fn item(file_name: &str, path: &str, is_dir: bool) -> DirItem {
    DirItem { file_name: file_name.to_string(), path: path.to_string(), is_dir }
}

#[test]
fn get_entries_leaves_hidden_items_out() {
    let items = vec![
        item(".git", "/repo/.git", true),
        item("src", "/repo/src", true),
        item(".gitignore", "/repo/.gitignore", false),
        item("README.md", "/repo/README.md", false),
        item(".", "/repo/.", true),
    ];
    assert_eq!(
        get_entries(&items),
        vec![
            Entry {
                name: "src".to_string(),
                path: "/repo/src".to_string(),
                kind: EntryKind::Directory,
            },
            Entry {
                name: "README.md".to_string(),
                path: "/repo/README.md".to_string(),
                kind: EntryKind::File,
            },
        ]
    );
}

#[test]
fn get_entries_keeps_names_with_a_dot_inside() {
    let items = vec![item("a.b", "/a.b", false), item("", "/", true), item("x.", "/x.", true)];
    let entries = get_entries(&items);
    assert_eq!(entries.len(), 3);
    assert_eq!(entries[0].name, "a.b");
    assert_eq!(entries[0].kind, EntryKind::File);
    assert_eq!(entries[1].name, "");
    assert_eq!(entries[1].kind, EntryKind::Directory);
    assert_eq!(entries[2].path, "/x.");
}

#[test]
fn get_entries_of_nothing_is_nothing() {
    assert_eq!(get_entries(&Vec::new()), Vec::new());
}
