use tree_browser::controller::{Action, Browser};
use tree_browser::input::{
    type_key, InputMode, KEY_BACKSPACE, KEY_DELETE, KEY_DOWN, KEY_ENTER, KEY_ESCAPE,
    KEY_NEW_DIRECTORY, KEY_NEW_FILE, KEY_OPEN, KEY_PARENT, KEY_QUIT, KEY_RANGE, KEY_REFRESH,
    KEY_RELOAD, KEY_UP,
};
use tree_browser::error::TreeError;
use tree_browser::mutation::{Attempt, NewKind, Occupant};
use tree_browser::navigation::NavigationState;
use tree_browser::tree::{Entry, EntryKind, Link, LinkKind, Tree};

fn entry(name: &str, path: &str, kind: EntryKind) -> Entry {
    Entry { name: name.to_string(), path: path.to_string(), kind }
}

fn file(path: &str) -> Entry {
    let name = path.rsplit('/').next().unwrap();
    entry(name, path, EntryKind::File)
}

fn dir(path: &str) -> Entry {
    let name = path.rsplit('/').next().unwrap();
    entry(name, path, EntryKind::Directory)
}

fn paths(entries: &[Entry]) -> Vec<String> {
    entries.iter().map(|e| e.path.clone()).collect()
}

fn docs_tree() -> Tree {
    Tree { entries: vec![dir("/docs"), file("/docs/notes.txt")], links: vec![] }
}

fn ten_files() -> Tree {
    Tree { entries: (0..10).map(|i| file(&format!("/f{}", i))).collect(), links: vec![] }
}

fn nav(path: &str, selection: usize, scroll: usize, anchor: Option<usize>) -> NavigationState {
    NavigationState {
        current_path: path.to_string(),
        selection_index: selection,
        scroll_offset: scroll,
        range_anchor: anchor,
    }
}

fn keys(browser: &mut Browser, text: &str) {
    for c in text.chars() {
        assert_eq!(browser.handle_key(c as i32, 24), Action::Continue);
    }
}

#[test]
fn key_codes_are_the_characters_of_the_commands() {
    assert_eq!(KEY_QUIT, 'q' as i32);
    assert_eq!(KEY_DOWN, 'j' as i32);
    assert_eq!(KEY_UP, 'k' as i32);
    assert_eq!(KEY_PARENT, 'h' as i32);
    assert_eq!(KEY_OPEN, 'l' as i32);
    assert_eq!(KEY_NEW_FILE, 'o' as i32);
    assert_eq!(KEY_NEW_DIRECTORY, 'O' as i32);
    assert_eq!(KEY_DELETE, 'd' as i32);
    assert_eq!(KEY_RANGE, 'v' as i32);
    assert_eq!(KEY_REFRESH, 'r' as i32);
    assert_eq!(KEY_RELOAD, 'R' as i32);
    assert_eq!(KEY_ENTER, '\n' as i32);
    assert_eq!(KEY_ESCAPE, 27);
    assert_eq!(KEY_BACKSPACE, 127);
}

#[test]
fn new_browser_is_idle_at_the_root() {
    let browser = Browser::new(docs_tree());
    assert_eq!(browser.mode, InputMode::Idle);
    assert_eq!(browser.nav, NavigationState::new());
    assert_eq!(browser.tree, docs_tree());
    assert_eq!(browser.listing(), Ok(vec![dir("/docs")]));
}

#[test]
fn quit_key_asks_to_quit() {
    let mut browser = Browser::new(docs_tree());
    assert_eq!(browser.handle_key(KEY_QUIT, 24), Action::Quit);
    assert_eq!(browser.mode, InputMode::Idle);
}

#[test]
fn open_then_parent_walks_docs_and_back() {
    let mut browser = Browser::new(docs_tree());
    assert_eq!(browser.handle_key(KEY_OPEN, 24), Action::Continue);
    assert_eq!(browser.nav, nav("/docs", 0, 0, None));
    assert_eq!(browser.listing(), Ok(vec![file("/docs/notes.txt")]));
    assert_eq!(browser.handle_key(KEY_PARENT, 24), Action::Continue);
    assert_eq!(browser.nav, nav("/", 0, 0, None));
    assert_eq!(browser.listing(), Ok(vec![dir("/docs")]));
    assert_eq!(browser.mode, InputMode::Idle);
}

#[test]
fn enter_key_opens_like_the_open_key() {
    let mut browser = Browser::new(docs_tree());
    assert_eq!(browser.handle_key(KEY_ENTER, 24), Action::Continue);
    assert_eq!(browser.nav, nav("/docs", 0, 0, None));
}

#[test]
fn open_key_on_a_file_does_nothing() {
    let mut browser = Browser::new(docs_tree());
    browser.handle_key(KEY_OPEN, 24);
    assert_eq!(browser.handle_key(KEY_OPEN, 24), Action::Continue);
    assert_eq!(browser.nav, nav("/docs", 0, 0, None));
    assert_eq!(browser.mode, InputMode::Idle);
}

#[test]
fn open_key_with_the_selection_past_the_listing_does_nothing() {
    let mut browser = Browser::new(docs_tree());
    browser.nav.selection_index = 7;
    assert_eq!(browser.handle_key(KEY_OPEN, 24), Action::Continue);
    assert_eq!(browser.nav, nav("/", 7, 0, None));
}

#[test]
fn open_key_through_a_link_shows_the_target() {
    let mut tree = docs_tree();
    tree.links.push(Link {
        name: "shortcut".to_string(),
        path: "/shortcut".to_string(),
        target_path: "/docs".to_string(),
        kind: LinkKind::SymlinkToDirectory,
    });
    let mut browser = Browser::new(tree);
    assert_eq!(browser.listing().unwrap()[0].kind, EntryKind::SymlinkToDirectory);
    browser.handle_key(KEY_OPEN, 24);
    assert_eq!(browser.nav, nav("/shortcut", 0, 0, None));
    assert_eq!(browser.mode, InputMode::Idle);
    assert_eq!(browser.listing(), Ok(vec![file("/docs/notes.txt")]));
    browser.handle_key(KEY_PARENT, 24);
    assert_eq!(browser.nav, nav("/", 0, 0, None));
}

#[test]
fn open_key_on_a_broken_link_shows_the_error() {
    let mut tree = docs_tree();
    tree.links.push(Link {
        name: "broken".to_string(),
        path: "/broken".to_string(),
        target_path: "/gone".to_string(),
        kind: LinkKind::SymlinkToDirectory,
    });
    let mut browser = Browser::new(tree);
    assert_eq!(browser.handle_key(KEY_OPEN, 24), Action::Continue);
    assert_eq!(browser.nav, nav("/broken", 0, 0, None));
    assert_eq!(
        browser.mode,
        InputMode::ShowingError { message: "Link path not found".to_string() }
    );
    assert_eq!(browser.listing(), Err(TreeError::Inconsistent));
    // Any key takes the error away; the way out is still open.
    browser.handle_key(KEY_DOWN, 24);
    assert_eq!(browser.mode, InputMode::Idle);
    browser.handle_key(KEY_PARENT, 24);
    assert_eq!(browser.nav, nav("/", 0, 0, None));
    assert_eq!(browser.mode, InputMode::Idle);
}

#[test]
fn commands_that_need_the_listing_show_the_error_of_a_place_that_resolves_to_nothing() {
    for key in [KEY_UP, KEY_DOWN, KEY_OPEN, KEY_ENTER, KEY_DELETE, KEY_REFRESH] {
        let mut browser = Browser::new(docs_tree());
        browser.nav = nav("/nowhere", 1, 0, Some(0));
        assert_eq!(browser.handle_key(key, 24), Action::Continue);
        assert_eq!(browser.nav, nav("/nowhere", 1, 0, Some(0)));
        assert_eq!(
            browser.mode,
            InputMode::ShowingError { message: "Link path not found".to_string() }
        );
    }
}

#[test]
fn move_keys_move_the_selection() {
    let mut browser = Browser::new(ten_files());
    keys(&mut browser, "jjj");
    assert_eq!(browser.nav, nav("/", 3, 0, None));
    keys(&mut browser, "k");
    assert_eq!(browser.nav, nav("/", 2, 0, None));
    keys(&mut browser, "jjjjjjjjjjjj");
    assert_eq!(browser.nav, nav("/", 9, 0, None));
    keys(&mut browser, "kkkkkkkkkkkk");
    assert_eq!(browser.nav, nav("/", 0, 0, None));
}

#[test]
fn move_keys_scroll_in_a_small_window() {
    let mut browser = Browser::new(ten_files());
    for _ in 0..5 {
        browser.handle_key(KEY_DOWN, 6);
    }
    assert_eq!(browser.nav, nav("/", 5, 2, None));
}

#[test]
fn range_key_sets_the_anchor_and_escape_clears_it() {
    let mut browser = Browser::new(ten_files());
    keys(&mut browser, "jjvjjj");
    assert_eq!(browser.nav, nav("/", 5, 0, Some(2)));
    keys(&mut browser, "v");
    assert_eq!(browser.nav, nav("/", 5, 0, Some(2)));
    assert_eq!(browser.handle_key(KEY_ESCAPE, 24), Action::Continue);
    assert_eq!(browser.nav, nav("/", 5, 0, None));
    assert_eq!(browser.mode, InputMode::Idle);
}

#[test]
fn unknown_keys_do_nothing() {
    let mut browser = Browser::new(ten_files());
    keys(&mut browser, "jv");
    for key in [0, -1, 'x' as i32, 'Q' as i32, 369, i32::MAX, i32::MIN] {
        assert_eq!(browser.handle_key(key, 24), Action::Continue);
        assert_eq!(browser.nav, nav("/", 1, 0, Some(1)));
        assert_eq!(browser.mode, InputMode::Idle);
    }
}

#[test]
fn new_file_key_starts_with_an_empty_buffer() {
    let mut browser = Browser::new(docs_tree());
    assert_eq!(browser.handle_key(KEY_NEW_FILE, 24), Action::Continue);
    assert_eq!(browser.mode, InputMode::CreatingFile { buffer: String::new(), cursor: 0 });
    assert_eq!(browser.mode.status_text(), Some("New file name: ".to_string()));
}

#[test]
fn new_directory_key_starts_with_an_empty_buffer() {
    let mut browser = Browser::new(docs_tree());
    assert_eq!(browser.handle_key(KEY_NEW_DIRECTORY, 24), Action::Continue);
    assert_eq!(browser.mode, InputMode::CreatingDirectory { buffer: String::new(), cursor: 0 });
    assert_eq!(browser.mode.status_text(), Some("New folder name: ".to_string()));
}

#[test]
fn typing_fills_the_buffer_and_moves_the_cursor() {
    let mut browser = Browser::new(docs_tree());
    browser.handle_key(KEY_NEW_FILE, 24);
    keys(&mut browser, "a b~q");
    assert_eq!(
        browser.mode,
        InputMode::CreatingFile { buffer: "a b~q".to_string(), cursor: 5 }
    );
    assert_eq!(browser.handle_key(KEY_BACKSPACE, 24), Action::Continue);
    assert_eq!(browser.mode, InputMode::CreatingFile { buffer: "a b~".to_string(), cursor: 4 });
    assert_eq!(browser.mode.status_text(), Some("New file name: a b~".to_string()));
    assert_eq!(browser.nav, NavigationState::new());
}

#[test]
fn backspace_on_an_empty_buffer_does_nothing() {
    let mut browser = Browser::new(docs_tree());
    browser.handle_key(KEY_NEW_DIRECTORY, 24);
    browser.handle_key(KEY_BACKSPACE, 24);
    assert_eq!(browser.mode, InputMode::CreatingDirectory { buffer: String::new(), cursor: 0 });
    keys(&mut browser, "x");
    browser.handle_key(KEY_BACKSPACE, 24);
    browser.handle_key(KEY_BACKSPACE, 24);
    assert_eq!(browser.mode, InputMode::CreatingDirectory { buffer: String::new(), cursor: 0 });
}

#[test]
fn keys_that_are_no_characters_leave_the_buffer_alone() {
    let mut browser = Browser::new(docs_tree());
    browser.handle_key(KEY_NEW_FILE, 24);
    keys(&mut browser, "ab");
    for key in [0, 9, 13, 31, 128, 255, 256 + 97, -1] {
        assert_eq!(browser.handle_key(key, 24), Action::Continue);
    }
    assert_eq!(browser.mode, InputMode::CreatingFile { buffer: "ab".to_string(), cursor: 2 });
}

#[test]
fn type_key_edits_at_the_end() {
    let mut buffer = "ab".to_string();
    let mut cursor = 2;
    type_key(&mut buffer, &mut cursor, 'c' as i32);
    assert_eq!((buffer.as_str(), cursor), ("abc", 3));
    type_key(&mut buffer, &mut cursor, 32);
    assert_eq!((buffer.as_str(), cursor), ("abc ", 4));
    type_key(&mut buffer, &mut cursor, 126);
    assert_eq!((buffer.as_str(), cursor), ("abc ~", 5));
    type_key(&mut buffer, &mut cursor, KEY_BACKSPACE);
    type_key(&mut buffer, &mut cursor, KEY_BACKSPACE);
    assert_eq!((buffer.as_str(), cursor), ("abc", 3));
    type_key(&mut buffer, &mut cursor, 31);
    type_key(&mut buffer, &mut cursor, 128);
    assert_eq!((buffer.as_str(), cursor), ("abc", 3));
}

#[test]
fn type_key_counts_the_cursor_as_far_as_it_can() {
    let mut buffer = "ab".to_string();
    let mut cursor = usize::MAX;
    type_key(&mut buffer, &mut cursor, 'c' as i32);
    assert_eq!((buffer.as_str(), cursor), ("abc", usize::MAX));
    let mut cursor = 0;
    type_key(&mut buffer, &mut cursor, KEY_BACKSPACE);
    assert_eq!((buffer.as_str(), cursor), ("ab", 0));
    let mut empty = String::new();
    let mut cursor = 3;
    type_key(&mut empty, &mut cursor, KEY_BACKSPACE);
    assert_eq!((empty.as_str(), cursor), ("", 3));
}

#[test]
fn escape_while_typing_drops_the_buffer_and_the_range() {
    let mut browser = Browser::new(ten_files());
    keys(&mut browser, "jvo");
    keys(&mut browser, "name");
    assert_eq!(browser.handle_key(KEY_ESCAPE, 24), Action::Continue);
    assert_eq!(browser.mode, InputMode::Idle);
    assert_eq!(browser.nav, nav("/", 1, 0, None));
    browser.handle_key(KEY_NEW_FILE, 24);
    assert_eq!(browser.mode, InputMode::CreatingFile { buffer: String::new(), cursor: 0 });
}

#[test]
fn creating_a_file_goes_from_probe_to_persist() {
    let mut browser = Browser::new(docs_tree());
    browser.handle_key(KEY_OPEN, 24);
    browser.handle_key(KEY_NEW_FILE, 24);
    keys(&mut browser, "new.txt");
    let action = browser.handle_key(KEY_ENTER, 24);
    assert_eq!(
        action,
        Action::Probe {
            name: "new.txt".to_string(),
            kind: NewKind::File,
            path: "/docs/new.txt".to_string(),
        }
    );
    assert_eq!(browser.mode, InputMode::Idle);
    let action = browser.create_probed("new.txt", NewKind::File, Occupant::Nothing);
    let created = file("/docs/new.txt");
    assert_eq!(action, Action::CreateFile { entry: created.clone() });
    assert_eq!(browser.tree, docs_tree());
    let action = browser.create_finished(created.clone(), Ok(()));
    assert_eq!(action, Action::Persist);
    assert_eq!(browser.mode, InputMode::Idle);
    assert_eq!(browser.tree.entries[0], created);
    assert_eq!(browser.listing(), Ok(vec![created, file("/docs/notes.txt")]));
    browser.persist_finished(Ok(()));
    assert_eq!(browser.mode, InputMode::Idle);
}

#[test]
fn creating_a_directory_below_the_root() {
    let mut browser = Browser::new(docs_tree());
    browser.handle_key(KEY_NEW_DIRECTORY, 24);
    keys(&mut browser, "music");
    assert_eq!(
        browser.handle_key(KEY_ENTER, 24),
        Action::Probe {
            name: "music".to_string(),
            kind: NewKind::Directory,
            path: "/music".to_string(),
        }
    );
    let action = browser.create_probed("music", NewKind::Directory, Occupant::Directory);
    assert_eq!(action, Action::CreateDirectory { entry: dir("/music") });
    assert_eq!(browser.create_finished(dir("/music"), Ok(())), Action::Persist);
    assert_eq!(paths(&browser.listing().unwrap()), vec!["/music", "/docs"]);
}

#[test]
fn creating_where_a_file_is_in_the_way_shows_already_exists() {
    let mut browser = Browser::new(docs_tree());
    browser.handle_key(KEY_NEW_FILE, 24);
    keys(&mut browser, "x");
    browser.handle_key(KEY_ENTER, 24);
    let action = browser.create_probed("x", NewKind::File, Occupant::Other);
    assert_eq!(action, Action::Continue);
    assert_eq!(
        browser.mode,
        InputMode::ShowingError { message: "File already exists".to_string() }
    );
    assert_eq!(browser.tree, docs_tree());
    assert_eq!(browser.mode.status_text(), Some("File already exists".to_string()));
}

#[test]
fn creating_that_failed_shows_the_error_and_keeps_the_tree() {
    let mut browser = Browser::new(docs_tree());
    let action = browser.create_finished(file("/x"), Err("read-only file system".to_string()));
    assert_eq!(action, Action::Continue);
    assert_eq!(
        browser.mode,
        InputMode::ShowingError { message: "read-only file system".to_string() }
    );
    assert_eq!(browser.tree, docs_tree());
}

#[test]
fn delete_key_needs_a_listing_that_is_not_empty() {
    let mut browser = Browser::new(Tree::new());
    assert_eq!(browser.handle_key(KEY_DELETE, 24), Action::Continue);
    assert_eq!(browser.mode, InputMode::Idle);
    let mut browser = Browser::new(docs_tree());
    assert_eq!(browser.handle_key(KEY_DELETE, 24), Action::Continue);
    assert_eq!(browser.mode, InputMode::ConfirmingDelete);
    assert_eq!(browser.mode.status_text(), Some("Press enter to delete".to_string()));
}

#[test]
fn confirming_ignores_keys_other_than_enter_and_escape() {
    let mut browser = Browser::new(ten_files());
    keys(&mut browser, "jd");
    keys(&mut browser, "jkqxo");
    assert_eq!(browser.handle_key(KEY_BACKSPACE, 24), Action::Continue);
    assert_eq!(browser.mode, InputMode::ConfirmingDelete);
    assert_eq!(browser.nav, nav("/", 1, 0, None));
    assert_eq!(browser.handle_key(KEY_ESCAPE, 24), Action::Continue);
    assert_eq!(browser.mode, InputMode::Idle);
    assert_eq!(browser.tree, ten_files());
}

#[test]
fn deleting_the_entry_under_the_cursor() {
    let mut browser = Browser::new(docs_tree());
    keys(&mut browser, "d");
    let action = browser.handle_key(KEY_ENTER, 24);
    assert_eq!(action, Action::Remove { targets: vec![dir("/docs")] });
    assert_eq!(browser.mode, InputMode::Idle);
    assert_eq!(browser.tree, docs_tree());
    let attempts = vec![Attempt { entry: dir("/docs"), outcome: Ok(()) }];
    assert_eq!(browser.remove_finished(&attempts), Action::Persist);
    assert_eq!(browser.tree, Tree::new());
    assert_eq!(browser.mode, InputMode::Idle);
    assert_eq!(browser.listing(), Ok(vec![]));
}

#[test]
fn deleting_a_range_removes_positions_two_to_five_from_cache_and_disk() {
    let mut browser = Browser::new(ten_files());
    let mut disk: Vec<String> = paths(&browser.tree.entries);
    keys(&mut browser, "jjvjjjd");
    assert_eq!(browser.nav, nav("/", 5, 0, Some(2)));
    let action = browser.handle_key(KEY_ENTER, 24);
    let targets = match action {
        Action::Remove { targets } => targets,
        other => panic!("unexpected action {:?}", other),
    };
    assert_eq!(paths(&targets), vec!["/f2", "/f3", "/f4", "/f5"]);
    let attempts: Vec<Attempt> = targets
        .into_iter()
        .map(|target| {
            disk.retain(|path| *path != target.path);
            Attempt { entry: target, outcome: Ok(()) }
        })
        .collect();
    assert_eq!(browser.remove_finished(&attempts), Action::Persist);
    let remaining = vec!["/f0", "/f1", "/f6", "/f7", "/f8", "/f9"];
    assert_eq!(paths(&browser.listing().unwrap()), remaining);
    assert_eq!(paths(&browser.tree.entries), remaining);
    assert_eq!(disk, remaining);
    assert_eq!(browser.mode, InputMode::Idle);
}

#[test]
fn deleting_with_the_selection_past_the_listing_is_not_found() {
    let mut browser = Browser::new(docs_tree());
    browser.nav.selection_index = 3;
    keys(&mut browser, "d");
    assert_eq!(browser.handle_key(KEY_ENTER, 24), Action::Continue);
    assert_eq!(browser.mode, InputMode::ShowingError { message: "Entry not found".to_string() });
    assert_eq!(browser.tree, docs_tree());
}

#[test]
fn removal_that_failed_shows_the_last_failure() {
    let mut browser = Browser::new(ten_files());
    let attempts = vec![
        Attempt { entry: file("/f0"), outcome: Err("one".to_string()) },
        Attempt { entry: file("/f1"), outcome: Ok(()) },
        Attempt { entry: file("/f2"), outcome: Err("two".to_string()) },
    ];
    assert_eq!(browser.remove_finished(&attempts), Action::Persist);
    assert_eq!(browser.mode, InputMode::ShowingError { message: "two".to_string() });
    assert_eq!(browser.tree.entries.len(), 9);
    assert_eq!(browser.tree.entries[1], file("/f2"));
}

#[test]
fn removal_where_everything_failed_writes_nothing_down() {
    let mut browser = Browser::new(ten_files());
    let attempts = vec![Attempt { entry: file("/f0"), outcome: Err("busy".to_string()) }];
    assert_eq!(browser.remove_finished(&attempts), Action::Continue);
    assert_eq!(browser.mode, InputMode::ShowingError { message: "busy".to_string() });
    assert_eq!(browser.tree, ten_files());
}

#[test]
fn any_key_takes_an_error_away_and_does_nothing_else() {
    for key in [KEY_QUIT, KEY_DOWN, KEY_NEW_FILE, KEY_DELETE, KEY_RELOAD, KEY_ENTER, 0] {
        let mut browser = Browser::new(ten_files());
        keys(&mut browser, "jv");
        browser.persist_finished(Err("disk full".to_string()));
        assert_eq!(browser.mode, InputMode::ShowingError { message: "disk full".to_string() });
        assert_eq!(browser.handle_key(key, 24), Action::Continue);
        assert_eq!(browser.mode, InputMode::Idle);
        assert_eq!(browser.nav, nav("/", 1, 0, Some(1)));
        assert_eq!(browser.tree, ten_files());
    }
}

#[test]
fn escape_takes_an_error_away_and_closes_the_range() {
    let mut browser = Browser::new(ten_files());
    keys(&mut browser, "jv");
    browser.persist_finished(Err("disk full".to_string()));
    assert_eq!(browser.handle_key(KEY_ESCAPE, 24), Action::Continue);
    assert_eq!(browser.mode, InputMode::Idle);
    assert_eq!(browser.nav, nav("/", 1, 0, None));
}

#[test]
fn refresh_key_changes_nothing_where_the_place_resolves() {
    let mut browser = Browser::new(docs_tree());
    keys(&mut browser, "l");
    assert_eq!(browser.handle_key(KEY_REFRESH, 24), Action::Continue);
    assert_eq!(browser.mode, InputMode::Idle);
    assert_eq!(browser.nav, nav("/docs", 0, 0, None));
}

#[test]
fn reload_key_asks_for_the_cache_and_takes_it() {
    let mut browser = Browser::new(docs_tree());
    keys(&mut browser, "l");
    assert_eq!(browser.handle_key(KEY_RELOAD, 24), Action::Reload);
    assert_eq!(browser.tree, docs_tree());
    let mut fresh = docs_tree();
    fresh.entries.push(file("/docs/more.txt"));
    browser.reload_finished(Ok(fresh.clone()));
    assert_eq!(browser.tree, fresh);
    assert_eq!(browser.mode, InputMode::Idle);
    assert_eq!(browser.nav, nav("/docs", 0, 0, None));
    assert_eq!(paths(&browser.listing().unwrap()), vec!["/docs/notes.txt", "/docs/more.txt"]);
}

#[test]
fn reload_that_loses_the_current_place_shows_the_error() {
    let mut browser = Browser::new(docs_tree());
    keys(&mut browser, "l");
    browser.reload_finished(Ok(Tree::new()));
    assert_eq!(browser.tree, Tree::new());
    assert_eq!(
        browser.mode,
        InputMode::ShowingError { message: "Link path not found".to_string() }
    );
}

#[test]
fn reload_that_failed_keeps_the_cache() {
    let mut browser = Browser::new(docs_tree());
    browser.reload_finished(Err(TreeError::ParseError("expected value at line 1".to_string())));
    assert_eq!(browser.tree, docs_tree());
    assert_eq!(
        browser.mode,
        InputMode::ShowingError { message: "expected value at line 1".to_string() }
    );
    browser.handle_key(KEY_UP, 24);
    browser.reload_finished(Err(TreeError::IOError("No such file".to_string())));
    assert_eq!(browser.mode, InputMode::ShowingError { message: "No such file".to_string() });
}

#[test]
fn persist_that_failed_shows_the_error() {
    let mut browser = Browser::new(docs_tree());
    browser.persist_finished(Err("disk full".to_string()));
    assert_eq!(browser.mode, InputMode::ShowingError { message: "disk full".to_string() });
    assert_eq!(browser.tree, docs_tree());
}

#[test]
fn status_text_of_idle_is_nothing() {
    assert_eq!(InputMode::Idle.status_text(), None);
}

#[test]
fn cursor_stands_behind_the_question_and_the_name() {
    let file = InputMode::CreatingFile { buffer: "ab".to_string(), cursor: 2 };
    assert_eq!(file.cursor_position(), Some(17));
    let empty = InputMode::CreatingFile { buffer: String::new(), cursor: 0 };
    assert_eq!(empty.cursor_position(), Some(15));
    let directory = InputMode::CreatingDirectory { buffer: "music".to_string(), cursor: 5 };
    assert_eq!(directory.cursor_position(), Some(22));
    let far = InputMode::CreatingDirectory { buffer: String::new(), cursor: usize::MAX - 17 };
    assert_eq!(far.cursor_position(), Some(usize::MAX));
    let too_far = InputMode::CreatingDirectory { buffer: String::new(), cursor: usize::MAX - 16 };
    assert_eq!(too_far.cursor_position(), None);
    let too_far = InputMode::CreatingFile { buffer: String::new(), cursor: usize::MAX };
    assert_eq!(too_far.cursor_position(), None);
}

#[test]
fn modes_without_a_name_have_no_cursor() {
    assert_eq!(InputMode::Idle.cursor_position(), None);
    assert_eq!(InputMode::ConfirmingDelete.cursor_position(), None);
    assert_eq!(InputMode::ShowingError { message: "x".to_string() }.cursor_position(), None);
}
