use crate::error::{TreeError, TreeErrorView};
use crate::input::{
    type_key, InputMode, InputModeView, KEY_DELETE, KEY_DOWN, KEY_ENTER, KEY_ESCAPE,
    KEY_NEW_DIRECTORY, KEY_NEW_FILE, KEY_OPEN, KEY_PARENT, KEY_QUIT, KEY_RANGE, KEY_REFRESH,
    KEY_RELOAD, KEY_UP,
};
use crate::mutation::{
    after_attempts, attempt_views, count_removed, create_entry, created_entry, delete_batch,
    deletion_targets, last_failure, prepare_create, selected, with_entry_in_front, Attempt,
    AttemptView, NewKind, Occupant,
};
use crate::navigation::{NavigationState, NavigationView};
use crate::paths::{join, join_path, root_path};
use crate::resolver::{children_of, list_children};
use crate::tree::{entry_views, Entry, EntryView, Tree, TreeView};
use vstd::prelude::*;

verus! {

/// What the caller is to do before it reads the next key. Each request to
/// the filesystem names the function that takes its answer.
#[derive(Debug, PartialEq, Eq)]
pub enum Action {
    /// Nothing: show the state and read the next key.
    Continue,
    /// Leave.
    Quit,
    /// Find out what the filesystem holds at `path`, and hand `name`, `kind`
    /// and the answer to `create_probed`.
    Probe { name: String, kind: NewKind, path: String },
    /// Create an empty file at the entry's path, and hand the entry and the
    /// outcome to `create_finished`.
    CreateFile { entry: Entry },
    /// Create a directory at the entry's path, and hand the entry and the
    /// outcome to `create_finished`.
    CreateDirectory { entry: Entry },
    /// Remove what each target stands for, in this order, each as its kind's
    /// `removal_call` says, and hand every target with its outcome to
    /// `remove_finished`.
    Remove { targets: Vec<Entry> },
    /// Write the cache down, and hand the outcome to `persist_finished`.
    Persist,
    /// Read the cache anew, and hand what came of it to `reload_finished`.
    Reload,
}

/// The contents of an `Action`.
pub enum ActionView {
    Continue,
    Quit,
    Probe { name: Seq<char>, kind: NewKind, path: Seq<char> },
    CreateFile { entry: EntryView },
    CreateDirectory { entry: EntryView },
    Remove { targets: Seq<EntryView> },
    Persist,
    Reload,
}

impl View for Action {
    type V = ActionView;

    open spec fn view(&self) -> ActionView {
        match self {
            Action::Continue => ActionView::Continue,
            Action::Quit => ActionView::Quit,
            Action::Probe { name, kind, path } => ActionView::Probe {
                name: name@,
                kind: *kind,
                path: path@,
            },
            Action::CreateFile { entry } => ActionView::CreateFile { entry: entry@ },
            Action::CreateDirectory { entry } => ActionView::CreateDirectory { entry: entry@ },
            Action::Remove { targets } => ActionView::Remove { targets: entry_views(targets@) },
            Action::Persist => ActionView::Persist,
            Action::Reload => ActionView::Reload,
        }
    }
}

/// The browser: the cached hierarchy, where the user stands in it, and what
/// the next key means.
#[derive(Debug, PartialEq, Eq)]
pub struct Browser {
    pub tree: Tree,
    pub nav: NavigationState,
    pub mode: InputMode,
}

/// The contents of a `Browser`.
pub struct BrowserView {
    pub tree: TreeView,
    pub nav: NavigationView,
    pub mode: InputModeView,
}

impl View for Browser {
    type V = BrowserView;

    open spec fn view(&self) -> BrowserView {
        BrowserView { tree: self.tree@, nav: self.nav@, mode: self.mode@ }
    }
}

impl BrowserView {
    /// The listing of the current place; nothing where the place resolves
    /// to none.
    pub open spec fn listing(self) -> Option<Seq<EntryView>> {
        children_of(self.tree, self.nav.current_path)
    }

    /// The same browser in another mode.
    pub open spec fn in_mode(self, mode: InputModeView) -> BrowserView {
        BrowserView { mode, ..self }
    }

    /// The same browser standing elsewhere.
    pub open spec fn standing(self, nav: NavigationView) -> BrowserView {
        BrowserView { nav, ..self }
    }

    /// The same browser showing `error`.
    pub open spec fn failed(self, error: TreeErrorView) -> BrowserView {
        self.in_mode(InputModeView::showing(error))
    }

    /// The browser after a look at the place where it stands: one that
    /// resolves to nothing is shown as an error.
    pub open spec fn looked(self) -> BrowserView {
        if self.listing() is None {
            self.failed(TreeErrorView::Inconsistent)
        } else {
            self
        }
    }

    /// The browser after the escape key: keys are commands again, what was
    /// typed is gone, and no range is open.
    pub open spec fn cancelled(self) -> BrowserView {
        BrowserView { mode: InputModeView::Idle, nav: self.nav.unanchored(), ..self }
    }

    /// What a key does while keys are commands.
    pub open spec fn on_command(self, key: i32, window_height: i32) -> (BrowserView, ActionView) {
        if key == KEY_ESCAPE {
            (self.cancelled(), ActionView::Continue)
        } else if key == KEY_QUIT {
            (self, ActionView::Quit)
        } else if key == KEY_PARENT {
            (
                self.standing(NavigationView::at(self.nav.parent_path())).looked(),
                ActionView::Continue,
            )
        } else if key == KEY_NEW_FILE {
            (
                self.in_mode(InputModeView::CreatingFile { buffer: Seq::empty(), cursor: 0 }),
                ActionView::Continue,
            )
        } else if key == KEY_NEW_DIRECTORY {
            (
                self.in_mode(InputModeView::CreatingDirectory { buffer: Seq::empty(), cursor: 0 }),
                ActionView::Continue,
            )
        } else if key == KEY_RANGE {
            (self.standing(self.nav.anchored()), ActionView::Continue)
        } else if key == KEY_REFRESH {
            (self.looked(), ActionView::Continue)
        } else if key == KEY_RELOAD {
            (self, ActionView::Reload)
        } else if key == KEY_UP || key == KEY_DOWN || key == KEY_OPEN || key == KEY_ENTER || key
            == KEY_DELETE {
            match self.listing() {
                None => (self.failed(TreeErrorView::Inconsistent), ActionView::Continue),
                Some(lines) => if key == KEY_UP {
                    (self.standing(self.nav.moved_up(lines.len())), ActionView::Continue)
                } else if key == KEY_DOWN {
                    (
                        self.standing(self.nav.moved_down(lines.len(), window_height)),
                        ActionView::Continue,
                    )
                } else if key == KEY_DELETE {
                    if lines.len() > 0 {
                        (self.in_mode(InputModeView::ConfirmingDelete), ActionView::Continue)
                    } else {
                        (self, ActionView::Continue)
                    }
                } else if self.nav.selection_index < lines.len()
                    && lines[self.nav.selection_index as int].kind.is_enterable() {
                    (
                        self.standing(
                            NavigationView::at(lines[self.nav.selection_index as int].path),
                        ).looked(),
                        ActionView::Continue,
                    )
                } else {
                    (self, ActionView::Continue)
                },
            }
        } else {
            (self, ActionView::Continue)
        }
    }

    /// What a key does while the name of something new is typed.
    pub open spec fn on_typing(self, kind: NewKind, buffer: Seq<char>, key: i32) -> (
        BrowserView,
        ActionView,
    ) {
        if key == KEY_ESCAPE {
            (self.cancelled(), ActionView::Continue)
        } else if key == KEY_ENTER {
            (
                self.in_mode(InputModeView::Idle),
                ActionView::Probe {
                    name: buffer,
                    kind,
                    path: join(self.nav.current_path, buffer),
                },
            )
        } else {
            (self.in_mode(self.mode.typed(key)), ActionView::Continue)
        }
    }

    /// What a key does before a removal.
    pub open spec fn on_confirming(self, key: i32) -> (BrowserView, ActionView) {
        if key == KEY_ESCAPE {
            (self.cancelled(), ActionView::Continue)
        } else if key == KEY_ENTER {
            match self.listing() {
                None => (self.failed(TreeErrorView::Inconsistent), ActionView::Continue),
                Some(lines) => {
                    let targets = selected(lines, self.nav.range_anchor, self.nav.selection_index);
                    if targets.len() == 0 {
                        (self.failed(TreeErrorView::NotFound), ActionView::Continue)
                    } else {
                        (self.in_mode(InputModeView::Idle), ActionView::Remove { targets })
                    }
                },
            }
        } else {
            (self, ActionView::Continue)
        }
    }

    /// What a key does while an error is shown: it takes the error away and
    /// does nothing else, except that the escape key also closes the range.
    pub open spec fn on_error(self, key: i32) -> (BrowserView, ActionView) {
        if key == KEY_ESCAPE {
            (self.cancelled(), ActionView::Continue)
        } else {
            (self.in_mode(InputModeView::Idle), ActionView::Continue)
        }
    }

    /// The browser after a key, and what the caller is to do next.
    pub open spec fn on_key(self, key: i32, window_height: i32) -> (BrowserView, ActionView) {
        match self.mode {
            InputModeView::Idle => self.on_command(key, window_height),
            InputModeView::CreatingFile { buffer, cursor } => self.on_typing(
                NewKind::File,
                buffer,
                key,
            ),
            InputModeView::CreatingDirectory { buffer, cursor } => self.on_typing(
                NewKind::Directory,
                buffer,
                key,
            ),
            InputModeView::ConfirmingDelete => self.on_confirming(key),
            InputModeView::ShowingError { message } => self.on_error(key),
        }
    }

    /// The browser after the filesystem said what occupies the path of
    /// something new, and what the caller is to do next: create it, unless
    /// something that is not a directory is in the way.
    pub open spec fn on_probed(self, name: Seq<char>, kind: NewKind, occupant: Occupant) -> (
        BrowserView,
        ActionView,
    ) {
        if occupant == Occupant::Other {
            (self.failed(TreeErrorView::AlreadyExists), ActionView::Continue)
        } else {
            let entry = created_entry(self.nav.current_path, name, kind);
            (
                self,
                match kind {
                    NewKind::File => ActionView::CreateFile { entry },
                    NewKind::Directory => ActionView::CreateDirectory { entry },
                },
            )
        }
    }

    /// The browser after the filesystem was asked to create what `entry`
    /// stands for, and what the caller is to do next. Success puts the entry
    /// in front of all others and asks for the cache to be written down.
    /// Failure shows the error and leaves the cache as it was.
    pub open spec fn on_created(self, entry: EntryView, outcome: Result<(), Seq<char>>) -> (
        BrowserView,
        ActionView,
    ) {
        match outcome {
            Ok(_) => (
                BrowserView { tree: with_entry_in_front(self.tree, entry), ..self },
                ActionView::Persist,
            ),
            Err(text) => (self.failed(TreeErrorView::IOError(text)), ActionView::Continue),
        }
    }

    /// The browser after the filesystem was asked for a batch of removals,
    /// and what the caller is to do next. The cache follows every removal
    /// that succeeded. The last failure is shown. The cache is written down
    /// once if anything was removed, and not at all otherwise.
    pub open spec fn on_removed(self, attempts: Seq<AttemptView>) -> (BrowserView, ActionView) {
        let after = BrowserView {
            tree: TreeView {
                entries: after_attempts(self.tree.entries, attempts),
                ..self.tree
            },
            ..self
        };
        (
            match last_failure(attempts) {
                Some(text) => after.failed(TreeErrorView::IOError(text)),
                None => after,
            },
            if count_removed(attempts) > 0 {
                ActionView::Persist
            } else {
                ActionView::Continue
            },
        )
    }

    /// The browser after the cache was to be written down: a failure is
    /// shown.
    pub open spec fn on_persisted(self, outcome: Result<(), Seq<char>>) -> BrowserView {
        match outcome {
            Ok(_) => self,
            Err(text) => self.failed(TreeErrorView::IOError(text)),
        }
    }

    /// The browser after the cache was to be read anew: what was read takes
    /// the place of the cache, and a failure is shown and leaves the cache
    /// as it was.
    pub open spec fn on_reloaded(self, loaded: Result<TreeView, TreeErrorView>) -> BrowserView {
        match loaded {
            Ok(tree) => BrowserView { tree, ..self }.looked(),
            Err(error) => self.failed(error),
        }
    }
}

impl Browser {
    /// A browser over `tree` that stands at the root and takes commands.
    pub fn new(tree: Tree) -> (browser: Browser)
        ensures
            browser@ == (BrowserView {
                tree: tree@,
                nav: NavigationView::at(root_path()),
                mode: InputModeView::Idle,
            }),
    {
        Browser { tree, nav: NavigationState::new(), mode: InputMode::Idle }
    }

    /// The listing of the current place.
    pub fn listing(&self) -> (lines: Result<Vec<Entry>, TreeError>)
        ensures
            match lines {
                Ok(entries) => self@.listing() == Some(entry_views(entries@)),
                Err(error) => self@.listing() is None && error@ == TreeErrorView::Inconsistent,
            },
    {
        list_children(&self.tree, self.nav.current_path.as_str())
    }

    /// Shows `error`.
    fn fail(&mut self, error: &TreeError)
        ensures
            final(self)@ == old(self)@.failed(error@),
    {
        self.mode = InputMode::ShowingError { message: error.message() };
    }

    /// Looks at the place where the browser stands.
    fn look(&mut self)
        ensures
            final(self)@ == old(self)@.looked(),
    {
        match self.listing() {
            Ok(_) => {},
            Err(error) => {
                self.fail(&error);
            },
        }
    }

    /// Back to commands, with what was typed gone and no range open.
    fn cancel(&mut self)
        ensures
            final(self)@ == old(self)@.cancelled(),
    {
        self.mode = InputMode::Idle;
        self.nav.clear_range_anchor();
    }

    fn command_key(&mut self, key: i32, window_height: i32) -> (action: Action)
        ensures
            (final(self)@, action@) == old(self)@.on_command(key, window_height),
    {
        if key == KEY_ESCAPE {
            self.cancel();
            Action::Continue
        } else if key == KEY_QUIT {
            Action::Quit
        } else if key == KEY_PARENT {
            self.nav.go_to_parent();
            self.look();
            Action::Continue
        } else if key == KEY_NEW_FILE {
            self.mode = InputMode::CreatingFile { buffer: String::new(), cursor: 0 };
            Action::Continue
        } else if key == KEY_NEW_DIRECTORY {
            self.mode = InputMode::CreatingDirectory { buffer: String::new(), cursor: 0 };
            Action::Continue
        } else if key == KEY_RANGE {
            self.nav.toggle_range_anchor();
            Action::Continue
        } else if key == KEY_REFRESH {
            self.look();
            Action::Continue
        } else if key == KEY_RELOAD {
            Action::Reload
        } else if key == KEY_UP || key == KEY_DOWN || key == KEY_OPEN || key == KEY_ENTER || key
            == KEY_DELETE {
            match self.listing() {
                Err(error) => {
                    self.fail(&error);
                },
                Ok(lines) => {
                    proof {
                        assert(entry_views(lines@).len() == lines@.len());
                    }
                    if key == KEY_UP {
                        self.nav.move_up(lines.len());
                    } else if key == KEY_DOWN {
                        self.nav.move_down(lines.len(), window_height);
                    } else if key == KEY_DELETE {
                        if lines.len() > 0 {
                            self.mode = InputMode::ConfirmingDelete;
                        }
                    } else if self.nav.selection_index < lines.len() {
                        let entry = &lines[self.nav.selection_index];
                        if self.nav.enter_directory(entry) {
                            self.look();
                        }
                    }
                },
            }
            Action::Continue
        } else {
            Action::Continue
        }
    }

    fn typing_key(&mut self, key: i32) -> (action: Action)
        requires
            old(self).mode is CreatingFile || old(self).mode is CreatingDirectory,
        ensures
            (final(self)@, action@) == old(self)@.on_key(key, 0),
    {
        if key == KEY_ESCAPE {
            self.cancel();
            Action::Continue
        } else if key == KEY_ENTER {
            let mut mode = InputMode::Idle;
            std::mem::swap(&mut self.mode, &mut mode);
            match mode {
                InputMode::CreatingFile { buffer, cursor } => {
                    let path = join_path(self.nav.current_path.as_str(), buffer.as_str());
                    Action::Probe { name: buffer, kind: NewKind::File, path }
                },
                InputMode::CreatingDirectory { buffer, cursor } => {
                    let path = join_path(self.nav.current_path.as_str(), buffer.as_str());
                    Action::Probe { name: buffer, kind: NewKind::Directory, path }
                },
                _ => Action::Continue,
            }
        } else {
            match &mut self.mode {
                InputMode::CreatingFile { buffer, cursor } => {
                    type_key(buffer, cursor, key);
                },
                InputMode::CreatingDirectory { buffer, cursor } => {
                    type_key(buffer, cursor, key);
                },
                _ => {},
            }
            Action::Continue
        }
    }

    fn confirming_key(&mut self, key: i32) -> (action: Action)
        ensures
            (final(self)@, action@) == old(self)@.on_confirming(key),
    {
        if key == KEY_ESCAPE {
            self.cancel();
            Action::Continue
        } else if key == KEY_ENTER {
            match self.listing() {
                Err(error) => {
                    self.fail(&error);
                    Action::Continue
                },
                Ok(lines) => {
                    match deletion_targets(&lines, self.nav.range_anchor, self.nav.selection_index) {
                        Err(error) => {
                            self.fail(&error);
                            Action::Continue
                        },
                        Ok(targets) => {
                            proof {
                                assert(entry_views(targets@).len() == targets@.len());
                            }
                            self.mode = InputMode::Idle;
                            Action::Remove { targets }
                        },
                    }
                },
            }
        } else {
            Action::Continue
        }
    }

    /// Takes a key, and says what the caller is to do before the next one.
    /// `window_height` is the number of rows of the window.
    pub fn handle_key(&mut self, key: i32, window_height: i32) -> (action: Action)
        ensures
            (final(self)@, action@) == old(self)@.on_key(key, window_height),
    {
        match &self.mode {
            InputMode::Idle => self.command_key(key, window_height),
            InputMode::CreatingFile { buffer, cursor } => self.typing_key(key),
            InputMode::CreatingDirectory { buffer, cursor } => self.typing_key(key),
            InputMode::ConfirmingDelete => self.confirming_key(key),
            InputMode::ShowingError { message } => {
                if key == KEY_ESCAPE {
                    self.cancel();
                } else {
                    self.mode = InputMode::Idle;
                }
                Action::Continue
            },
        }
    }

    /// Takes what the filesystem holds at the path of something new that is
    /// to be called `name`, and says what the caller is to do next.
    pub fn create_probed(&mut self, name: &str, kind: NewKind, occupant: Occupant) -> (action:
        Action)
        ensures
            (final(self)@, action@) == old(self)@.on_probed(name@, kind, occupant),
    {
        match prepare_create(self.nav.current_path.as_str(), name, kind, occupant) {
            Err(error) => {
                self.fail(&error);
                Action::Continue
            },
            Ok(entry) => match kind {
                NewKind::File => Action::CreateFile { entry },
                NewKind::Directory => Action::CreateDirectory { entry },
            },
        }
    }

    /// Takes the outcome of the creation of what `entry` stands for, and
    /// says what the caller is to do next.
    pub fn create_finished(&mut self, entry: Entry, outcome: Result<(), String>) -> (action:
        Action)
        ensures
            (final(self)@, action@) == old(self)@.on_created(
                entry@,
                match outcome {
                    Ok(_) => Ok(()),
                    Err(text) => Err(text@),
                },
            ),
    {
        match create_entry(&mut self.tree, entry, outcome) {
            Ok(_) => Action::Persist,
            Err(error) => {
                self.fail(&error);
                Action::Continue
            },
        }
    }

    /// Takes the outcomes of a batch of removals, and says what the caller
    /// is to do next.
    pub fn remove_finished(&mut self, attempts: &Vec<Attempt>) -> (action: Action)
        ensures
            (final(self)@, action@) == old(self)@.on_removed(attempt_views(attempts@)),
    {
        let report = delete_batch(&mut self.tree, attempts);
        match report.failure {
            Some(error) => {
                self.fail(&error);
            },
            None => {},
        }
        if report.removed > 0 {
            Action::Persist
        } else {
            Action::Continue
        }
    }

    /// Takes the outcome of writing the cache down.
    pub fn persist_finished(&mut self, outcome: Result<(), String>)
        ensures
            final(self)@ == old(self)@.on_persisted(
                match outcome {
                    Ok(_) => Ok(()),
                    Err(text) => Err(text@),
                },
            ),
    {
        match outcome {
            Ok(_) => {},
            Err(text) => {
                self.fail(&TreeError::IOError(text));
            },
        }
    }

    /// Takes what came of reading the cache anew.
    pub fn reload_finished(&mut self, loaded: Result<Tree, TreeError>)
        ensures
            final(self)@ == old(self)@.on_reloaded(
                match loaded {
                    Ok(tree) => Ok(tree@),
                    Err(error) => Err(error@),
                },
            ),
    {
        match loaded {
            Ok(tree) => {
                self.tree = tree;
                self.look();
            },
            Err(error) => {
                self.fail(&error);
            },
        }
    }
}

} // verus!
