//! The questions that the library asks of the file system, and the answers
//! that it takes. The library never touches a file itself: it hands a query
//! to its caller and is handed the answer.

use vstd::prelude::*;
use vstd::string::*;

verus! {

/// A question about one path.
#[derive(Debug)]
pub enum FsQuery {
    /// Is the path a regular file?
    IsFile(String),
    /// Does the path exist?
    Exists(String),
    /// Is the path a directory?
    IsDir(String),
    /// What is the canonical form of the path?
    Canonicalize(String),
    /// What text does the file at the path hold?
    ReadToString(String),
}

/// The mathematical content of an [`FsQuery`].
pub enum FsQueryView {
    IsFile(Seq<char>),
    Exists(Seq<char>),
    IsDir(Seq<char>),
    Canonicalize(Seq<char>),
    ReadToString(Seq<char>),
}

impl View for FsQuery {
    type V = FsQueryView;

    open spec fn view(&self) -> FsQueryView {
        match *self {
            FsQuery::IsFile(p) => FsQueryView::IsFile(p@),
            FsQuery::Exists(p) => FsQueryView::Exists(p@),
            FsQuery::IsDir(p) => FsQueryView::IsDir(p@),
            FsQuery::Canonicalize(p) => FsQueryView::Canonicalize(p@),
            FsQuery::ReadToString(p) => FsQueryView::ReadToString(p@),
        }
    }
}

/// An answer to an [`FsQuery`].
#[derive(Debug)]
pub enum FsAnswer {
    /// Yes or no, to a question that asks so.
    Flag(bool),
    /// A canonical path.
    Path(String),
    /// The text of a file.
    Text(String),
    /// The file system refused; the text is its message.
    Failed(String),
}

/// The mathematical content of an [`FsAnswer`].
pub enum FsAnswerView {
    Flag(bool),
    Path(Seq<char>),
    Text(Seq<char>),
    Failed(Seq<char>),
}

impl View for FsAnswer {
    type V = FsAnswerView;

    open spec fn view(&self) -> FsAnswerView {
        match *self {
            FsAnswer::Flag(b) => FsAnswerView::Flag(b),
            FsAnswer::Path(p) => FsAnswerView::Path(p@),
            FsAnswer::Text(t) => FsAnswerView::Text(t@),
            FsAnswer::Failed(m) => FsAnswerView::Failed(m@),
        }
    }
}

/// The message of the failure that stands for an answer of the wrong kind.
pub open spec fn unexpected_answer() -> Seq<char> {
    "unexpected answer"@
}

impl FsAnswerView {
    /// Whether the answer says yes. Everything but a plain yes counts as no.
    pub open spec fn is_yes(self) -> bool {
        self == FsAnswerView::Flag(true)
    }

    /// The path that the answer gives, or the message of the failure.
    pub open spec fn as_path(self) -> Result<Seq<char>, Seq<char>> {
        match self {
            FsAnswerView::Path(p) => Ok(p),
            FsAnswerView::Failed(m) => Err(m),
            _ => Err(unexpected_answer()),
        }
    }

    /// The text that the answer gives, or the message of the failure.
    pub open spec fn as_text(self) -> Result<Seq<char>, Seq<char>> {
        match self {
            FsAnswerView::Text(t) => Ok(t),
            FsAnswerView::Failed(m) => Err(m),
            _ => Err(unexpected_answer()),
        }
    }
}

/// What a result over strings says, as mathematics.
pub open spec fn text_outcome(r: Result<String, String>) -> Result<Seq<char>, Seq<char>> {
    match r {
        Ok(s) => Ok(s@),
        Err(m) => Err(m@),
    }
}

impl FsAnswer {
    /// Whether the answer says yes.
    pub fn is_yes(&self) -> (b: bool)
        ensures
            b == self@.is_yes(),
    {
        match self {
            FsAnswer::Flag(b) => *b,
            _ => false,
        }
    }

    /// The path that the answer gives, or the message of the failure.
    pub fn into_path(self) -> (r: Result<String, String>)
        ensures
            text_outcome(r) == self@.as_path(),
    {
        match self {
            FsAnswer::Path(p) => Ok(p),
            FsAnswer::Failed(m) => Err(m),
            _ => Err(String::from_str("unexpected answer")),
        }
    }

    /// The text that the answer gives, or the message of the failure.
    pub fn into_text(self) -> (r: Result<String, String>)
        ensures
            text_outcome(r) == self@.as_text(),
    {
        match self {
            FsAnswer::Text(t) => Ok(t),
            FsAnswer::Failed(m) => Err(m),
            _ => Err(String::from_str("unexpected answer")),
        }
    }
}

/// A file system at one moment: what it answers to each query.
pub struct FileSystem {
    pub answers: spec_fn(FsQueryView) -> FsAnswerView,
}

impl FileSystem {
    /// The answer to `q`.
    pub open spec fn answer(self, q: FsQueryView) -> FsAnswerView {
        (self.answers)(q)
    }

    /// Whether `path` is a regular file.
    pub open spec fn is_file(self, path: Seq<char>) -> bool {
        self.answer(FsQueryView::IsFile(path)).is_yes()
    }

    /// Whether `path` exists.
    pub open spec fn has_path(self, path: Seq<char>) -> bool {
        self.answer(FsQueryView::Exists(path)).is_yes()
    }

    /// Whether `path` is a directory.
    pub open spec fn is_dir(self, path: Seq<char>) -> bool {
        self.answer(FsQueryView::IsDir(path)).is_yes()
    }

    /// The canonical form of `path`, or the message of the failure.
    pub open spec fn canonical(self, path: Seq<char>) -> Result<Seq<char>, Seq<char>> {
        self.answer(FsQueryView::Canonicalize(path)).as_path()
    }

    /// The text of the file at `path`, or the message of the failure.
    pub open spec fn text(self, path: Seq<char>) -> Result<Seq<char>, Seq<char>> {
        self.answer(FsQueryView::ReadToString(path)).as_text()
    }
}

} // verus!
