use crate::controller::{ActionView, BrowserView};
use crate::input::{InputModeView, KEY_ESCAPE, KEY_OPEN, KEY_PARENT};
use crate::mutation::{after_attempts, count_removed, AttemptView, NewKind, Occupant};
use crate::navigation::NavigationView;
use crate::paths::{join, lemma_parent_of_join, separator};
use crate::resolver::{
    lemma_direct_children_exact, lemma_listing_of_a_cached_path, stands_for_itself,
};
use crate::tree::EntryView;
use vstd::prelude::*;

verus! {

/// Whether every removal of a batch failed.
pub open spec fn all_failed(attempts: Seq<AttemptView>) -> bool {
    forall|k: int| 0 <= k < attempts.len() ==> (#[trigger] attempts[k]).outcome is Err
}

/// A batch in which every removal failed removes nothing.
proof fn lemma_all_failed(entries: Seq<EntryView>, attempts: Seq<AttemptView>)
    requires
        all_failed(attempts),
    ensures
        after_attempts(entries, attempts) == entries,
        count_removed(attempts) == 0,
    decreases attempts.len(),
{
    if attempts.len() > 0 {
        assert(attempts[0].outcome is Err);
        assert(attempts[attempts.len() - 1].outcome is Err);
        let behind = attempts.drop_first();
        assert forall|k: int| 0 <= k < behind.len() implies (#[trigger] behind[k]).outcome is Err by {
            assert(behind[k] == attempts[k + 1]);
        }
        lemma_all_failed(entries, behind);
        let before = attempts.drop_last();
        assert forall|k: int| 0 <= k < before.len() implies (#[trigger] before[k]).outcome is Err by {
            assert(before[k] == attempts[k]);
        }
        lemma_all_failed(entries, before);
    }
}

/// No key changes the cache: it changes only when the filesystem has
/// carried out what it stands for, or when it is read anew.
pub proof fn lemma_keys_leave_the_cache_alone(browser: BrowserView, key: i32, window_height: i32)
    ensures
        browser.on_key(key, window_height).0.tree == browser.tree,
{
}

/// The escape key leads from every mode back to commands, with no range
/// open, and asks for nothing.
pub proof fn lemma_escape_always_cancels(browser: BrowserView, window_height: i32)
    ensures
        browser.on_key(KEY_ESCAPE, window_height) == (browser.cancelled(), ActionView::Continue),
        browser.cancelled().mode == InputModeView::Idle,
        browser.cancelled().nav.range_anchor is None,
{
}

/// A creation that the filesystem refused changes nothing in the cache and
/// is not written down; neither is a path that was found occupied.
pub proof fn lemma_failed_creation_changes_nothing(
    browser: BrowserView,
    name: Seq<char>,
    kind: NewKind,
    entry: EntryView,
    text: Seq<char>,
)
    ensures
        browser.on_created(entry, Err(text)).0.tree == browser.tree,
        browser.on_created(entry, Err(text)).1 == ActionView::Continue,
        browser.on_probed(name, kind, Occupant::Other).0.tree == browser.tree,
        browser.on_probed(name, kind, Occupant::Other).1 == ActionView::Continue,
{
}

/// A batch of removals that the filesystem refused one and all changes
/// nothing in the cache and is not written down.
pub proof fn lemma_failed_removals_change_nothing(
    browser: BrowserView,
    attempts: Seq<AttemptView>,
)
    requires
        all_failed(attempts),
    ensures
        browser.on_removed(attempts).0.tree == browser.tree,
        browser.on_removed(attempts).1 == ActionView::Continue,
{
    lemma_all_failed(browser.tree.entries, attempts);
}

/// Going into a directory of the listing and pressing the parent key leads
/// back to where one was: so it is wherever the place left is not empty and
/// stands for itself, the name of the directory holds no separator, and the
/// directory resolves to a place.
pub proof fn lemma_open_then_parent_leads_back(browser: BrowserView, window_height: i32)
    requires
        browser.mode is Idle,
        browser.nav.current_path.len() > 0,
        stands_for_itself(browser.tree, browser.nav.current_path),
        browser.nav.selection_index < browser.listing()->0.len(),
        browser.listing()->0[browser.nav.selection_index as int].kind.is_enterable(),
        !browser.listing()->0[browser.nav.selection_index as int].name.contains(separator()),
    ensures
        browser.on_key(KEY_OPEN, window_height).0.nav == NavigationView::at(
            browser.listing()->0[browser.nav.selection_index as int].path,
        ),
        browser.on_key(KEY_OPEN, window_height).0.mode is Idle ==> browser.on_key(
            KEY_OPEN,
            window_height,
        ).0.on_key(KEY_PARENT, window_height).0.nav == NavigationView::at(
            browser.nav.current_path,
        ),
{
    let place = browser.nav.current_path;
    let lines = browser.listing()->0;
    let entry = lines[browser.nav.selection_index as int];
    lemma_listing_of_a_cached_path(browser.tree, place);
    assert(lines.contains(entry));
    lemma_direct_children_exact(browser.tree, place, entry);
    assert(entry.path == join(place, entry.name));
    lemma_parent_of_join(place, entry.name);
}

/// Whether the cache was written down or not, it stays as it is.
pub proof fn lemma_persisting_leaves_the_cache_alone(
    browser: BrowserView,
    outcome: Result<(), Seq<char>>,
)
    ensures
        browser.on_persisted(outcome).tree == browser.tree,
{
}

} // verus!
