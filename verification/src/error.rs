use vstd::prelude::*;

verus! {

/// What can go wrong while browsing or changing the cached hierarchy.
///
/// Every error is recoverable: the caller shows `message()` and goes on.
#[derive(Debug, PartialEq, Eq)]
pub enum TreeError {
    /// The listing holds nothing at the place that an operation points to.
    NotFound,
    /// A path is neither the root nor a cached entry, and no chain of links
    /// leads from it to one.
    Inconsistent,
    /// Something that is not a directory already occupies the path.
    AlreadyExists,
    /// The filesystem refused to create, remove or persist; the text is its own.
    IOError(String),
    /// The snapshot is corrupt; the text says where.
    ParseError(String),
}

/// The mathematical content of a `TreeError`.
pub enum TreeErrorView {
    NotFound,
    Inconsistent,
    AlreadyExists,
    IOError(Seq<char>),
    ParseError(Seq<char>),
}

impl View for TreeError {
    type V = TreeErrorView;

    open spec fn view(&self) -> TreeErrorView {
        match self {
            TreeError::NotFound => TreeErrorView::NotFound,
            TreeError::Inconsistent => TreeErrorView::Inconsistent,
            TreeError::AlreadyExists => TreeErrorView::AlreadyExists,
            TreeError::IOError(text) => TreeErrorView::IOError(text@),
            TreeError::ParseError(text) => TreeErrorView::ParseError(text@),
        }
    }
}

/// The text shown for an error.
pub open spec fn message_of(error: TreeErrorView) -> Seq<char> {
    match error {
        TreeErrorView::NotFound => "Entry not found"@,
        TreeErrorView::Inconsistent => "Link path not found"@,
        TreeErrorView::AlreadyExists => "File already exists"@,
        TreeErrorView::IOError(text) => text,
        TreeErrorView::ParseError(text) => text,
    }
}

impl TreeError {
    /// The text to show for this error.
    pub fn message(&self) -> (text: String)
        ensures
            text@ == message_of(self@),
    {
        match self {
            TreeError::NotFound => "Entry not found".to_owned(),
            TreeError::Inconsistent => "Link path not found".to_owned(),
            TreeError::AlreadyExists => "File already exists".to_owned(),
            TreeError::IOError(text) => text.clone(),
            TreeError::ParseError(text) => text.clone(),
        }
    }
}

impl Clone for TreeError {
    fn clone(&self) -> (copy: Self)
        ensures
            copy@ == self@,
    {
        match self {
            TreeError::NotFound => TreeError::NotFound,
            TreeError::Inconsistent => TreeError::Inconsistent,
            TreeError::AlreadyExists => TreeError::AlreadyExists,
            TreeError::IOError(text) => TreeError::IOError(text.clone()),
            TreeError::ParseError(text) => TreeError::ParseError(text.clone()),
        }
    }
}

} // verus!
