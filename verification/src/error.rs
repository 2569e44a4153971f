//! The failures that a bundling run can report.

use vstd::prelude::*;
use vstd::std_specs::convert::FromSpecImpl;
use crate::resolver::{ResolverError, ResolverErrorView};
use crate::text::views;

verus! {

/// Why a bundling run stopped.
#[derive(Debug)]
pub enum BundlerError {
    /// The file system refused a read or a path lookup; the text is its message.
    Io(String),
    /// A module that had to exist does not.
    ModuleNotFound { path: String },
    /// The module graph holds a cycle; `modules` is the chain of module ids
    /// that was being explored when the cycle closed.
    CircularDependency { modules: Vec<String> },
    /// A source text could not be scanned.
    ParseError { file: String, message: String },
    /// A loader is missing or failed.
    LoaderError(String),
    /// A plugin hook failed.
    PluginError(String),
    /// The configuration is unusable.
    ConfigError(String),
    /// Path resolution failed.
    ResolverError(ResolverError),
}

/// The mathematical content of a [`BundlerError`].
pub enum BundlerErrorView {
    Io(Seq<char>),
    ModuleNotFound { path: Seq<char> },
    CircularDependency { modules: Seq<Seq<char>> },
    ParseError { file: Seq<char>, message: Seq<char> },
    LoaderError(Seq<char>),
    PluginError(Seq<char>),
    ConfigError(Seq<char>),
    ResolverError(ResolverErrorView),
}

impl View for BundlerError {
    type V = BundlerErrorView;

    open spec fn view(&self) -> BundlerErrorView {
        match *self {
            BundlerError::Io(m) => BundlerErrorView::Io(m@),
            BundlerError::ModuleNotFound { path } => BundlerErrorView::ModuleNotFound { path: path@ },
            BundlerError::CircularDependency { modules } => BundlerErrorView::CircularDependency {
                modules: views(modules@),
            },
            BundlerError::ParseError { file, message } => BundlerErrorView::ParseError {
                file: file@,
                message: message@,
            },
            BundlerError::LoaderError(m) => BundlerErrorView::LoaderError(m@),
            BundlerError::PluginError(m) => BundlerErrorView::PluginError(m@),
            BundlerError::ConfigError(m) => BundlerErrorView::ConfigError(m@),
            BundlerError::ResolverError(e) => BundlerErrorView::ResolverError(e@),
        }
    }
}

impl From<ResolverError> for BundlerError {
    fn from(e: ResolverError) -> (r: BundlerError) {
        BundlerError::ResolverError(e)
    }
}

impl FromSpecImpl<ResolverError> for BundlerError {
    open spec fn obeys_from_spec() -> bool {
        true
    }

    open spec fn from_spec(e: ResolverError) -> BundlerError {
        BundlerError::ResolverError(e)
    }
}

/// What a text transform gave, as mathematics.
pub open spec fn text_result(r: Result<String, BundlerError>) -> Result<Seq<char>, BundlerErrorView> {
    match r {
        Ok(s) => Ok(s@),
        Err(e) => Err(e@),
    }
}

} // verus!
