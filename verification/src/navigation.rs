use crate::mutation::selection_bounds;
use crate::paths::{parent_of, parent_path, root_path};
use crate::tree::Entry;
use vstd::prelude::*;

verus! {

/// Where the browser stands: the place it shows, the line under the cursor,
/// the first line in view, and the anchor of a range selection if one is open.
#[derive(Debug, PartialEq, Eq)]
pub struct NavigationState {
    pub current_path: String,
    pub selection_index: usize,
    pub scroll_offset: usize,
    pub range_anchor: Option<usize>,
}

/// The contents of a `NavigationState`.
pub struct NavigationView {
    pub current_path: Seq<char>,
    pub selection_index: usize,
    pub scroll_offset: usize,
    pub range_anchor: Option<usize>,
}

impl View for NavigationState {
    type V = NavigationView;

    open spec fn view(&self) -> NavigationView {
        NavigationView {
            current_path: self.current_path@,
            selection_index: self.selection_index,
            scroll_offset: self.scroll_offset,
            range_anchor: self.range_anchor,
        }
    }
}

impl NavigationView {
    /// The state on arrival at `path`: the cursor on the first line, nothing
    /// scrolled, no range open.
    pub open spec fn at(path: Seq<char>) -> NavigationView {
        NavigationView {
            current_path: path,
            selection_index: 0,
            scroll_offset: 0,
            range_anchor: None,
        }
    }

    /// The directory that holds the current place.
    pub open spec fn parent_path(self) -> Seq<char> {
        parent_of(self.current_path)
    }

    /// The line under the cursor after one step up in a listing of `length`
    /// lines: the one before, the first one where there is none before, and
    /// the last one where the cursor stood behind the listing.
    pub open spec fn selection_above(self, length: nat) -> usize {
        if self.selection_index == 0 {
            0
        } else if self.selection_index - 1 < length {
            (self.selection_index - 1) as usize
        } else {
            (length - 1) as usize
        }
    }

    /// The state after one step up in a listing of `length` lines. Nothing
    /// moves in an empty listing. The view follows by one line when the
    /// cursor has risen above it.
    pub open spec fn moved_up(self, length: nat) -> NavigationView {
        if length == 0 {
            self
        } else {
            let selection = self.selection_above(length);
            NavigationView {
                selection_index: selection,
                scroll_offset: if selection < self.scroll_offset {
                    (self.scroll_offset - 1) as usize
                } else {
                    self.scroll_offset
                },
                ..self
            }
        }
    }

    /// The line under the cursor after one step down in a listing of
    /// `length` lines: the next one, and the last one where there is no
    /// next.
    pub open spec fn selection_below(self, length: nat) -> usize {
        if self.selection_index + 1 < length {
            (self.selection_index + 1) as usize
        } else {
            (length - 1) as usize
        }
    }

    /// The state after one step down in a listing of `length` lines, in a
    /// window of `window_height` rows. Nothing moves in an empty listing. The
    /// view follows by one line when the cursor has gone below
    /// `window_height - 3` lines from its top, as long as the offset can
    /// still be counted.
    pub open spec fn moved_down(self, length: nat, window_height: i32) -> NavigationView {
        if length == 0 {
            self
        } else {
            let selection = self.selection_below(length);
            NavigationView {
                selection_index: selection,
                scroll_offset: if selection > window_height - 3 + self.scroll_offset
                    && self.scroll_offset < usize::MAX {
                    (self.scroll_offset + 1) as usize
                } else {
                    self.scroll_offset
                },
                ..self
            }
        }
    }

    /// The state with a range open: one that is open stays as it is, and
    /// otherwise one opens at the cursor.
    pub open spec fn anchored(self) -> NavigationView {
        if self.range_anchor is Some {
            self
        } else {
            NavigationView { range_anchor: Some(self.selection_index), ..self }
        }
    }

    /// The state with no range open.
    pub open spec fn unanchored(self) -> NavigationView {
        NavigationView { range_anchor: None, ..self }
    }

    /// Whether the line at `index` is shown as selected: the line under the
    /// cursor, and with an open range every line from the anchor to the
    /// cursor, either way round.
    pub open spec fn highlights(self, index: usize) -> bool {
        let (low, high) = selection_bounds(self.range_anchor, self.selection_index);
        low <= index <= high
    }

    /// The row of the listing's area in which the line at `index` is drawn,
    /// counted from 0; nothing where the line is out of view. A window of
    /// `window_height` rows shows `window_height - 2` lines, from the one at
    /// the scroll offset on.
    pub open spec fn row_of(self, index: usize, window_height: i32) -> Option<usize> {
        if index >= self.scroll_offset && index - self.scroll_offset < window_height - 2 {
            Some((index - self.scroll_offset) as usize)
        } else {
            None
        }
    }
}

impl NavigationState {
    /// The state on arrival at the root.
    pub fn new() -> (state: NavigationState)
        ensures
            state@ == NavigationView::at(root_path()),
    {
        proof {
            reveal_strlit("/");
            assert("/"@ =~= root_path());
        }
        NavigationState {
            current_path: "/".to_owned(),
            selection_index: 0,
            scroll_offset: 0,
            range_anchor: None,
        }
    }

    /// The directory that holds the current place.
    pub fn parent_path(&self) -> (parent: String)
        ensures
            parent@ == self@.parent_path(),
    {
        parent_path(self.current_path.as_str())
    }

    /// One step up in a listing of `length` lines.
    pub fn move_up(&mut self, length: usize)
        ensures
            final(self)@ == old(self)@.moved_up(length as nat),
    {
        if length > 0 {
            if self.selection_index == 0 {
            } else if self.selection_index - 1 < length {
                self.selection_index = self.selection_index - 1;
            } else {
                self.selection_index = length - 1;
            }
            if self.selection_index < self.scroll_offset {
                self.scroll_offset = self.scroll_offset - 1;
            }
        }
    }

    /// One step down in a listing of `length` lines, in a window of
    /// `window_height` rows.
    pub fn move_down(&mut self, length: usize, window_height: i32)
        ensures
            final(self)@ == old(self)@.moved_down(length as nat, window_height),
    {
        if length > 0 {
            if self.selection_index < length - 1 {
                self.selection_index = self.selection_index + 1;
            } else {
                self.selection_index = length - 1;
            }
            let bottom: i128 = window_height as i128 - 3 + self.scroll_offset as i128;
            if self.selection_index as i128 > bottom && self.scroll_offset < usize::MAX {
                self.scroll_offset = self.scroll_offset + 1;
            }
        }
    }

    /// Goes into `entry` if it is a directory or a link to one: the current
    /// place becomes the entry's path, with the cursor on the first line,
    /// nothing scrolled and no range open. Any other entry changes nothing.
    /// Says whether it went in.
    pub fn enter_directory(&mut self, entry: &Entry) -> (entered: bool)
        ensures
            entered == entry@.kind.is_enterable(),
            final(self)@ == if entered {
                NavigationView::at(entry@.path)
            } else {
                old(self)@
            },
    {
        if entry.kind.can_enter() {
            self.current_path = entry.path.clone();
            self.selection_index = 0;
            self.scroll_offset = 0;
            self.range_anchor = None;
            true
        } else {
            false
        }
    }

    /// Goes to the directory that holds the current place, with the cursor
    /// on the first line, nothing scrolled and no range open.
    pub fn go_to_parent(&mut self)
        ensures
            final(self)@ == NavigationView::at(old(self)@.parent_path()),
    {
        self.current_path = parent_path(self.current_path.as_str());
        self.selection_index = 0;
        self.scroll_offset = 0;
        self.range_anchor = None;
    }

    /// Opens a range at the cursor, unless one is open already.
    pub fn toggle_range_anchor(&mut self)
        ensures
            final(self)@ == old(self)@.anchored(),
    {
        if self.range_anchor.is_none() {
            self.range_anchor = Some(self.selection_index);
        }
    }

    /// Closes the range.
    pub fn clear_range_anchor(&mut self)
        ensures
            final(self)@ == old(self)@.unanchored(),
    {
        self.range_anchor = None;
    }

    /// Whether the line at `index` is shown as selected.
    pub fn is_highlighted(&self, index: usize) -> (yes: bool)
        ensures
            yes == self@.highlights(index),
    {
        match self.range_anchor {
            None => index == self.selection_index,
            Some(start) => if start <= self.selection_index {
                start <= index && index <= self.selection_index
            } else {
                self.selection_index <= index && index <= start
            },
        }
    }

    /// The row in which the line at `index` is drawn, if it is in view.
    pub fn visible_row(&self, index: usize, window_height: i32) -> (row: Option<usize>)
        ensures
            row == self@.row_of(index, window_height),
    {
        if index >= self.scroll_offset && ((index - self.scroll_offset) as i128)
            < window_height as i128 - 2 {
            Some(index - self.scroll_offset)
        } else {
            None
        }
    }
}

/// After a step up or down in a listing that is not empty, the cursor
/// stands on a line of the listing.
pub proof fn lemma_moves_stay_in_the_listing(state: NavigationView, length: nat, window_height: i32)
    requires
        length > 0,
    ensures
        state.moved_up(length).selection_index < length,
        state.moved_down(length, window_height).selection_index < length,
{
}

} // verus!
