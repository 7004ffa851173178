use crate::error::{message_of, TreeErrorView};
use crate::text::{pop_char, push_char};
use vstd::prelude::*;
use vstd::string::*;

verus! {

/// The key that confirms: line feed.
pub const KEY_ENTER: i32 = 10;

/// The key that cancels: escape.
pub const KEY_ESCAPE: i32 = 27;

/// The key that takes back the last character: delete.
pub const KEY_BACKSPACE: i32 = 127;

/// `q`: quit.
pub const KEY_QUIT: i32 = 113;

/// `j`: one line down.
pub const KEY_DOWN: i32 = 106;

/// `k`: one line up.
pub const KEY_UP: i32 = 107;

/// `h`: to the parent directory.
pub const KEY_PARENT: i32 = 104;

/// `l`: into the directory under the cursor, as the enter key does.
pub const KEY_OPEN: i32 = 108;

/// `o`: a new file.
pub const KEY_NEW_FILE: i32 = 111;

/// `O`: a new directory.
pub const KEY_NEW_DIRECTORY: i32 = 79;

/// `d`: delete the selection.
pub const KEY_DELETE: i32 = 100;

/// `v`: open a range at the cursor.
pub const KEY_RANGE: i32 = 118;

/// `r`: look at the cache again.
pub const KEY_REFRESH: i32 = 114;

/// `R`: read the cache anew from where it is kept.
pub const KEY_RELOAD: i32 = 82;

/// What the next key means.
#[derive(Debug, PartialEq, Eq)]
pub enum InputMode {
    /// Keys are commands.
    Idle,
    /// Keys spell the name of a new file.
    CreatingFile { buffer: String, cursor: usize },
    /// Keys spell the name of a new directory.
    CreatingDirectory { buffer: String, cursor: usize },
    /// The enter key removes the selection.
    ConfirmingDelete,
    /// An error is on display; the next key takes it away.
    ShowingError { message: String },
}

/// The contents of an `InputMode`.
pub enum InputModeView {
    Idle,
    CreatingFile { buffer: Seq<char>, cursor: usize },
    CreatingDirectory { buffer: Seq<char>, cursor: usize },
    ConfirmingDelete,
    ShowingError { message: Seq<char> },
}

impl View for InputMode {
    type V = InputModeView;

    open spec fn view(&self) -> InputModeView {
        match self {
            InputMode::Idle => InputModeView::Idle,
            InputMode::CreatingFile { buffer, cursor } => InputModeView::CreatingFile {
                buffer: buffer@,
                cursor: *cursor,
            },
            InputMode::CreatingDirectory { buffer, cursor } => InputModeView::CreatingDirectory {
                buffer: buffer@,
                cursor: *cursor,
            },
            InputMode::ConfirmingDelete => InputModeView::ConfirmingDelete,
            InputMode::ShowingError { message } => InputModeView::ShowingError {
                message: message@,
            },
        }
    }
}

/// Whether a key stands for a character that can be part of a name.
pub open spec fn is_printable(key: i32) -> bool {
    32 <= key <= 126
}

/// The character that a printable key stands for.
pub open spec fn key_char(key: i32) -> char {
    key as u8 as char
}

/// The buffer after a key: a printable key puts its character at the end,
/// the backspace key takes the last character off if there is one, any
/// other key changes nothing.
pub open spec fn buffer_after(buffer: Seq<char>, key: i32) -> Seq<char> {
    if key == KEY_BACKSPACE {
        if buffer.len() > 0 {
            buffer.drop_last()
        } else {
            buffer
        }
    } else if is_printable(key) {
        buffer.push(key_char(key))
    } else {
        buffer
    }
}

/// The cursor after a key: one further for a printable key, one back for a
/// backspace that took a character off, each as far as it can be counted.
pub open spec fn cursor_after(buffer: Seq<char>, cursor: usize, key: i32) -> usize {
    if key == KEY_BACKSPACE {
        if buffer.len() > 0 && cursor > 0 {
            (cursor - 1) as usize
        } else {
            cursor
        }
    } else if is_printable(key) && cursor < usize::MAX {
        (cursor + 1) as usize
    } else {
        cursor
    }
}

impl InputModeView {
    /// The mode that shows `error`.
    pub open spec fn showing(error: TreeErrorView) -> InputModeView {
        InputModeView::ShowingError { message: message_of(error) }
    }

    /// The line below the listing: what is asked for and what was typed so
    /// far, the question before a removal, or the error. Nothing while keys
    /// are commands.
    pub open spec fn status_text(self) -> Option<Seq<char>> {
        match self {
            InputModeView::Idle => None,
            InputModeView::CreatingFile { buffer, cursor } => Some("New file name: "@ + buffer),
            InputModeView::CreatingDirectory { buffer, cursor } => Some(
                "New folder name: "@ + buffer,
            ),
            InputModeView::ConfirmingDelete => Some("Press enter to delete"@),
            InputModeView::ShowingError { message } => Some(message),
        }
    }

    /// Where the cursor stands in the status line, counted in characters
    /// from its beginning: behind the question and as many characters of the
    /// name as the cursor has passed. Nothing in a mode without a cursor, and
    /// nothing where the position cannot be counted.
    pub open spec fn cursor_position(self) -> Option<usize> {
        match self {
            InputModeView::CreatingFile { buffer, cursor } => if "New file name: "@.len() + cursor
                <= usize::MAX {
                Some(("New file name: "@.len() + cursor) as usize)
            } else {
                None
            },
            InputModeView::CreatingDirectory { buffer, cursor } => if "New folder name: "@.len()
                + cursor <= usize::MAX {
                Some(("New folder name: "@.len() + cursor) as usize)
            } else {
                None
            },
            _ => None,
        }
    }

    /// The mode after a key while a name is typed.
    pub open spec fn typed(self, key: i32) -> InputModeView {
        match self {
            InputModeView::CreatingFile { buffer, cursor } => InputModeView::CreatingFile {
                buffer: buffer_after(buffer, key),
                cursor: cursor_after(buffer, cursor, key),
            },
            InputModeView::CreatingDirectory { buffer, cursor } => InputModeView::CreatingDirectory {
                buffer: buffer_after(buffer, key),
                cursor: cursor_after(buffer, cursor, key),
            },
            _ => self,
        }
    }
}

/// Applies a key to the name that is typed.
pub fn type_key(buffer: &mut String, cursor: &mut usize, key: i32)
    ensures
        final(buffer)@ == buffer_after(old(buffer)@, key),
        *final(cursor) == cursor_after(old(buffer)@, *old(cursor), key),
{
    if key == KEY_BACKSPACE {
        let last = pop_char(buffer);
        if last.is_some() && *cursor > 0 {
            *cursor = *cursor - 1;
        }
    } else if 32 <= key && key <= 126 {
        push_char(buffer, key as u8 as char);
        if *cursor < usize::MAX {
            *cursor = *cursor + 1;
        }
    }
}

impl InputMode {
    /// The line to show below the listing, if the mode has one.
    pub fn status_text(&self) -> (text: Option<String>)
        ensures
            match text {
                Some(line) => self@.status_text() == Some(line@),
                None => self@.status_text() is None,
            },
    {
        match self {
            InputMode::Idle => None,
            InputMode::CreatingFile { buffer, cursor } => {
                let mut line = "New file name: ".to_owned();
                line.append(buffer.as_str());
                Some(line)
            },
            InputMode::CreatingDirectory { buffer, cursor } => {
                let mut line = "New folder name: ".to_owned();
                line.append(buffer.as_str());
                Some(line)
            },
            InputMode::ConfirmingDelete => Some("Press enter to delete".to_owned()),
            InputMode::ShowingError { message } => Some(message.clone()),
        }
    }

    /// Where the cursor stands in the status line, if the mode has one.
    pub fn cursor_position(&self) -> (position: Option<usize>)
        ensures
            position == self@.cursor_position(),
    {
        match self {
            InputMode::CreatingFile { buffer, cursor } => {
                let question = "New file name: ".unicode_len();
                if *cursor <= usize::MAX - question {
                    Some(question + *cursor)
                } else {
                    None
                }
            },
            InputMode::CreatingDirectory { buffer, cursor } => {
                let question = "New folder name: ".unicode_len();
                if *cursor <= usize::MAX - question {
                    Some(question + *cursor)
                } else {
                    None
                }
            },
            _ => None,
        }
    }
}

} // verus!
