//! One reference from a module's text to another module.

use vstd::prelude::*;

verus! {

/// How a dependency was written in the source.
#[derive(Debug, Clone, Copy, PartialEq, Eq, Structural)]
pub enum DependencyType {
    Import,
    Require,
    DynamicImport,
    ImportMeta,
}

/// A span of the source text, in bytes.
#[derive(Debug, Clone, Copy, PartialEq, Eq, Structural)]
pub struct Range {
    pub start: usize,
    pub end: usize,
}

/// A dependency of a module: the request as written, its kind, and where it
/// stood in the text if that is known.
#[derive(Debug)]
pub struct Dependency {
    pub request: String,
    pub dependency_type: DependencyType,
    pub range: Option<Range>,
}

/// The mathematical content of a [`Dependency`].
pub struct DependencyView {
    pub request: Seq<char>,
    pub dependency_type: DependencyType,
    pub range: Option<Range>,
}

impl View for Dependency {
    type V = DependencyView;

    open spec fn view(&self) -> DependencyView {
        DependencyView {
            request: self.request@,
            dependency_type: self.dependency_type,
            range: self.range,
        }
    }
}

impl Clone for Dependency {
    fn clone(&self) -> (r: Dependency)
        ensures
            r == *self,
    {
        Dependency {
            request: self.request.clone(),
            dependency_type: self.dependency_type,
            range: self.range,
        }
    }
}

/// The views of a list of dependencies, in order.
pub open spec fn dependency_views(v: Seq<Dependency>) -> Seq<DependencyView> {
    Seq::new(v.len(), |i: int| v[i]@)
}

impl Dependency {
    /// A dependency on `request` of the given kind, with no known position.
    pub fn new(request: String, dependency_type: DependencyType) -> (d: Dependency)
        ensures
            d.request == request,
            d.dependency_type == dependency_type,
            d.range is None,
    {
        Dependency { request, dependency_type, range: None }
    }

    /// The same dependency, positioned at `start..end`.
    pub fn with_range(self, start: usize, end: usize) -> (d: Dependency)
        ensures
            d.request == self.request,
            d.dependency_type == self.dependency_type,
            d.range == Some(Range { start, end }),
    {
        let mut d = self;
        d.range = Some(Range { start, end });
        d
    }
}

} // verus!
