//! The traversal that discovers the modules of a run.
//!
//! From the entry file on, each file is canonicalized, read, and scanned for
//! dependencies; each dependency that resolves adds an edge and is visited
//! in turn, one that does not resolve is skipped. A file that was visited
//! before is not visited again. A module enters the graph when all its
//! dependencies have been visited, so the graph holds the modules in
//! post-order. An edge leads to the id of the module of the file that the
//! dependency resolved to: to the marked id where that is the entry file.
//!
//! The traversal never touches the file system. A [`Traversal`] says which
//! question comes next and, handed the answer, either asks the next one or
//! ends with the graph or with the first failure.

use vstd::prelude::*;
use vstd::string::*;
use crate::dependency::{dependency_views, Dependency, DependencyView};
use crate::error::{BundlerError, BundlerErrorView};
use crate::compiler::Compiler;
use crate::extract::extraction;
use crate::fs::{FsAnswer, FsAnswerView, FsQuery, FsQueryView};
use crate::module::{
    entry_marker, extension_of, type_of_extension, Module, ModuleGraph, ModuleGraphView, ModuleView,
};
use crate::resolver::{Resolution, ResolutionView, ResolveStep, ResolveStepView, Resolver};
use crate::text::{contains_text, views};

verus! {

/// A module whose dependencies are being visited.
pub struct Frame {
    module: Module,
    dependencies: Vec<Dependency>,
    next: usize,
}

/// The mathematical content of a [`Frame`]: the module as far as it is
/// built, all dependencies that were found in its text, and how many of
/// them have been taken up.
pub struct FrameView {
    pub module: ModuleView,
    pub dependencies: Seq<DependencyView>,
    pub next: int,
}

impl View for Frame {
    type V = FrameView;

    closed spec fn view(&self) -> FrameView {
        FrameView {
            module: self.module@,
            dependencies: dependency_views(self.dependencies@),
            next: self.next as int,
        }
    }
}

/// The views of a stack of frames, bottom first.
pub open spec fn frame_views(v: Seq<Frame>) -> Seq<FrameView> {
    Seq::new(v.len(), |i: int| v[i]@)
}

/// What a traversal waits for.
pub enum Pending {
    /// The canonical form of a file that is to be visited.
    Locate { path: String, entry: bool },
    /// The text of a file that is visited for the first time.
    Read { path: String, entry: bool },
    /// The next answer for the resolution of a dependency of the module on
    /// top of the stack.
    Resolve(Resolution),
}

/// The mathematical content of a [`Pending`].
pub enum PendingView {
    Locate { path: Seq<char>, entry: bool },
    Read { path: Seq<char>, entry: bool },
    Resolve(ResolutionView),
}

impl View for Pending {
    type V = PendingView;

    open spec fn view(&self) -> PendingView {
        match *self {
            Pending::Locate { path, entry } => PendingView::Locate { path: path@, entry },
            Pending::Read { path, entry } => PendingView::Read { path: path@, entry },
            Pending::Resolve(r) => PendingView::Resolve(r@),
        }
    }
}

/// The mathematical content of a [`Traversal`].
pub struct TraversalView {
    /// The extensions that resolution tries.
    pub extensions: Seq<Seq<char>>,
    /// The modules that are finished, and the edges found so far.
    pub graph: ModuleGraphView,
    /// The canonical paths that were visited, oldest first.
    pub processed: Seq<Seq<char>>,
    /// The canonical path of the entry file, once it is known.
    pub entry_path: Option<Seq<char>>,
    /// The modules whose dependencies are being visited, outermost first.
    pub stack: Seq<FrameView>,
    /// What the traversal waits for.
    pub pending: PendingView,
}

/// What a traversal does next, as mathematics.
pub enum TraversalStepView {
    Ask(TraversalView),
    Done(Result<ModuleGraphView, BundlerErrorView>),
}

/// The paths of a list of modules, in order.
pub open spec fn module_paths(modules: Seq<ModuleView>) -> Seq<Seq<char>> {
    Seq::new(modules.len(), |i: int| modules[i].path)
}

/// The paths of the modules of a stack of frames, bottom first.
pub open spec fn frame_paths(stack: Seq<FrameView>) -> Seq<Seq<char>> {
    Seq::new(stack.len(), |i: int| stack[i].module.path)
}

/// A module as it is when its file has just been read.
pub open spec fn fresh_module(id: Seq<char>, path: Seq<char>, content: Seq<char>) -> ModuleView {
    ModuleView {
        id,
        path,
        content,
        dependencies: Seq::empty(),
        source_map: None,
        module_type: type_of_extension(extension_of(path)),
    }
}

/// Whether the last module of `graph` is the entry module and the ids
/// follow from the paths: the path behind the entry marker for the last
/// module, the path itself for every module of another file.
pub open spec fn entry_is_last(graph: ModuleGraphView) -> bool {
    &&& graph.modules.len() > 0
    &&& forall|i: int|
        0 <= i < graph.modules.len() ==> (#[trigger] graph.modules[i]).id == module_id(
            graph.modules[i].path,
            graph.modules[i].path == graph.modules.last().path,
        )
}

/// The id of the module for the file at `path`: the path, behind the entry
/// marker for the entry module.
pub open spec fn module_id(path: Seq<char>, entry: bool) -> Seq<char> {
    if entry {
        entry_marker() + path
    } else {
        path
    }
}

impl TraversalView {
    /// The traversal from `entry` before its first question.
    pub open spec fn start(extensions: Seq<Seq<char>>, entry: Seq<char>) -> TraversalView {
        TraversalView {
            extensions,
            graph: ModuleGraphView { modules: Seq::empty(), edges: Seq::empty() },
            processed: Seq::empty(),
            entry_path: None,
            stack: Seq::empty(),
            pending: PendingView::Locate { path: entry, entry: true },
        }
    }

    /// The pending question.
    pub open spec fn query(self) -> FsQueryView {
        match self.pending {
            PendingView::Locate { path, entry } => FsQueryView::Canonicalize(path),
            PendingView::Read { path, entry } => FsQueryView::ReadToString(path),
            PendingView::Resolve(r) => r.query(),
        }
    }

    /// Finished and unfinished modules have paths of their own, all of them
    /// visited, and no frame has taken up more dependencies than it has.
    pub open spec fn frames_in_order(self) -> bool {
        let done = module_paths(self.graph.modules);
        let open = frame_paths(self.stack);
        &&& done.no_duplicates()
        &&& open.no_duplicates()
        &&& forall|i: int, j: int| 0 <= i < done.len() && 0 <= j < open.len() ==> done[i] != open[j]
        &&& forall|i: int| 0 <= i < done.len() ==> self.processed.contains(#[trigger] done[i])
        &&& forall|j: int| 0 <= j < open.len() ==> self.processed.contains(#[trigger] open[j])
        &&& forall|j: int| 0 <= j < self.stack.len() ==> 0 <= (#[trigger] self.stack[j]).next <= self.stack[j].dependencies.len()
    }

    /// Besides, what the traversal waits for fits its frames: a file that is
    /// being read is visited and no module yet, and a resolution belongs to
    /// a module on the stack.
    pub open spec fn ordered(self) -> bool {
        &&& self.frames_in_order()
        &&& match self.pending {
            PendingView::Locate { path, entry } => true,
            PendingView::Read { path, entry } => {
                &&& self.processed.contains(path)
                &&& !module_paths(self.graph.modules).contains(path)
                &&& !frame_paths(self.stack).contains(path)
            },
            PendingView::Resolve(r) => r.well_formed() && self.stack.len() > 0,
        }
    }

    /// The id of the module that an edge to the file at `path` leads to.
    pub open spec fn target_id(self, path: Seq<char>) -> Seq<char> {
        module_id(path, self.entry_path == Some(path))
    }

    /// The ids of the finished modules, in order.
    pub open spec fn graph_ids(self) -> Seq<Seq<char>> {
        Seq::new(self.graph.modules.len(), |i: int| self.graph.modules[i].id)
    }

    /// The ids of the modules on the stack, bottom first.
    pub open spec fn stack_ids(self) -> Seq<Seq<char>> {
        Seq::new(self.stack.len(), |j: int| self.stack[j].module.id)
    }

    /// Whether `id` is the id of a module, finished or on the stack.
    pub open spec fn knows_id(self, id: Seq<char>) -> bool {
        self.graph_ids().contains(id) || self.stack_ids().contains(id)
    }

    /// Whether `path` is the path of a module, finished or on the stack.
    pub open spec fn holds_path(self, path: Seq<char>) -> bool {
        module_paths(self.graph.modules).contains(path) || frame_paths(self.stack).contains(path)
    }

    /// Whether `id` is the id of the module whose file is being read.
    pub open spec fn reads_id(self, id: Seq<char>) -> bool {
        self.pending matches PendingView::Read { path, entry } && id == module_id(path, entry)
    }

    /// Whether `path` is the path of the file that is being read.
    pub open spec fn reads_path(self, path: Seq<char>) -> bool {
        self.pending matches PendingView::Read { path: p, entry } && p == path
    }

    /// Each module has the id that edges to its file lead to, and the entry
    /// file, once known, is visited.
    pub open spec fn ids_fit(self) -> bool {
        &&& self.entry_path matches Some(p) ==> self.processed.contains(p)
        &&& forall|i: int|
            0 <= i < self.graph.modules.len() ==> (#[trigger] self.graph.modules[i]).id == self.target_id(
                self.graph.modules[i].path,
            )
        &&& forall|j: int|
            0 <= j < self.stack.len() ==> (#[trigger] self.stack[j]).module.id == self.target_id(
                self.stack[j].module.path,
            )
    }

    /// Whether the module of the entry file is the one at the bottom of the
    /// stack.
    pub open spec fn entry_at_bottom(self) -> bool {
        self.stack.len() > 0 && self.entry_path == Some(self.stack[0].module.path)
    }

    /// Whether the module of the entry file is the one at the bottom of the
    /// stack or, where the stack is empty, the last one of the graph.
    pub open spec fn entry_below(self) -> bool {
        if self.stack.len() > 0 {
            self.entry_path == Some(self.stack[0].module.path)
        } else {
            self.graph.modules.len() > 0 && self.entry_path == Some(self.graph.modules.last().path)
        }
    }

    /// The entry file is where the traversal starts and ends: once it is
    /// read, its module is at the bottom of the stack, below the modules of
    /// all other files.
    pub open spec fn anchored(self) -> bool {
        match self.pending {
            PendingView::Locate { path, entry } => entry || self.entry_at_bottom(),
            PendingView::Read { path, entry } => if entry {
                self.stack.len() == 0 && self.entry_path == Some(path)
            } else {
                self.entry_at_bottom()
            },
            PendingView::Resolve(r) => self.entry_at_bottom(),
        }
    }

    /// Modules and edges fit, as they must when the traversal goes on with
    /// its stack: each visited file is a module, and each edge joins two
    /// modules.
    pub open spec fn joined(self) -> bool {
        &&& self.ids_fit()
        &&& self.entry_below()
        &&& forall|k: int| 0 <= k < self.processed.len() ==> self.holds_path(#[trigger] self.processed[k])
        &&& forall|k: int|
            0 <= k < self.graph.edges.len() ==> self.knows_id((#[trigger] self.graph.edges[k]).0) && self.knows_id(
                self.graph.edges[k].1,
            )
    }

    /// Modules and edges fit while the traversal waits: each visited file is
    /// a module or is being read, each edge joins two of these, and the
    /// traversal waits for the entry file only at its start.
    pub open spec fn linked(self) -> bool {
        &&& self.ids_fit()
        &&& self.anchored()
        &&& forall|k: int|
            0 <= k < self.processed.len() ==> self.holds_path(#[trigger] self.processed[k]) || self.reads_path(
                self.processed[k],
            )
        &&& forall|k: int|
            0 <= k < self.graph.edges.len() ==> (self.knows_id((#[trigger] self.graph.edges[k]).0) || self.reads_id(
                self.graph.edges[k].0,
            )) && (self.knows_id(self.graph.edges[k].1) || self.reads_id(self.graph.edges[k].1))
        &&& match self.pending {
            PendingView::Locate { path, entry } => entry ==> {
                &&& self.entry_path is None
                &&& self.graph.modules.len() == 0
                &&& self.stack.len() == 0
                &&& self.processed.len() == 0
                &&& self.graph.edges.len() == 0
            },
            PendingView::Read { path, entry } => entry == (self.entry_path == Some(path)),
            PendingView::Resolve(r) => true,
        }
    }

    /// The traversal is in a state that its own steps lead to.
    pub open spec fn well_formed(self) -> bool {
        self.ordered() && self.linked()
    }

    /// Goes on with the module on top of the stack: takes up its next
    /// dependency and starts to resolve it or, where none is left, moves the
    /// module into the graph and goes on with the module below. With an
    /// empty stack the traversal is done.
    pub open spec fn settle(self) -> TraversalStepView
        decreases self.stack.len(),
    {
        if self.stack.len() == 0 {
            TraversalStepView::Done(Ok(self.graph))
        } else {
            let top = self.stack.last();
            if 0 <= top.next < top.dependencies.len() {
                let dep = top.dependencies[top.next];
                let module = ModuleView { dependencies: top.module.dependencies.push(dep), ..top.module };
                let frame = FrameView { module, dependencies: top.dependencies, next: top.next + 1 };
                TraversalStepView::Ask(
                    TraversalView {
                        stack: self.stack.drop_last().push(frame),
                        pending: PendingView::Resolve(
                            ResolutionView::start(self.extensions, dep.request, top.module.path),
                        ),
                        ..self
                    },
                )
            } else {
                TraversalView {
                    stack: self.stack.drop_last(),
                    graph: ModuleGraphView { modules: self.graph.modules.push(top.module), edges: self.graph.edges },
                    ..self
                }.settle()
            }
        }
    }

    /// What the traversal does when its pending question is answered.
    pub open spec fn advance(self, answer: FsAnswerView) -> TraversalStepView {
        match self.pending {
            PendingView::Locate { path, entry } => match answer.as_path() {
                Err(m) => TraversalStepView::Done(Err(BundlerErrorView::Io(m))),
                Ok(found) => {
                    let entry_path = if entry {
                        Some(found)
                    } else {
                        self.entry_path
                    };
                    let known = TraversalView { entry_path, ..self };
                    let edges = if self.stack.len() > 0 {
                        self.graph.edges.push((self.stack.last().module.id, known.target_id(found)))
                    } else {
                        self.graph.edges
                    };
                    let linked = TraversalView {
                        graph: ModuleGraphView { modules: self.graph.modules, edges },
                        ..known
                    };
                    if self.processed.contains(found) {
                        linked.settle()
                    } else {
                        TraversalStepView::Ask(
                            TraversalView {
                                processed: self.processed.push(found),
                                pending: PendingView::Read { path: found, entry },
                                ..linked
                            },
                        )
                    }
                },
            },
            PendingView::Read { path, entry } => match answer.as_text() {
                Err(m) => TraversalStepView::Done(Err(BundlerErrorView::Io(m))),
                Ok(content) => match extraction(content, path) {
                    Err(e) => TraversalStepView::Done(Err(e)),
                    Ok(dependencies) => TraversalView {
                        stack: self.stack.push(
                            FrameView {
                                module: fresh_module(module_id(path, entry), path, content),
                                dependencies,
                                next: 0,
                            },
                        ),
                        ..self
                    }.settle(),
                },
            },
            PendingView::Resolve(r) => match r.advance(answer) {
                ResolveStepView::Ask(next) => TraversalStepView::Ask(
                    TraversalView { pending: PendingView::Resolve(next), ..self },
                ),
                ResolveStepView::Done(Ok(found)) => TraversalStepView::Ask(
                    TraversalView { pending: PendingView::Locate { path: found, entry: false }, ..self },
                ),
                ResolveStepView::Done(Err(_)) => self.settle(),
            },
        }
    }

    /// Settling does not look at what the traversal waited for.
    pub proof fn lemma_settle_ignores_pending(self, pending: PendingView)
        ensures
            (TraversalView { pending, ..self }).settle() == self.settle(),
        decreases self.stack.len(),
    {
        if self.stack.len() > 0 {
            let top = self.stack.last();
            if !(0 <= top.next < top.dependencies.len()) {
                let moved = TraversalView {
                    stack: self.stack.drop_last(),
                    graph: ModuleGraphView { modules: self.graph.modules.push(top.module), edges: self.graph.edges },
                    ..self
                };
                moved.lemma_settle_ignores_pending(pending);
            }
        }
    }

    /// Settling keeps the traversal in order, and a graph that it ends with
    /// holds no two modules for one path.
    pub proof fn lemma_settle_in_order(self)
        requires
            self.frames_in_order(),
        ensures
            match self.settle() {
                TraversalStepView::Ask(next) => next.ordered(),
                TraversalStepView::Done(Ok(graph)) => module_paths(graph.modules).no_duplicates(),
                TraversalStepView::Done(Err(_)) => true,
            },
        decreases self.stack.len(),
    {
        if self.stack.len() > 0 {
            let top = self.stack.last();
            let done = module_paths(self.graph.modules);
            let open = frame_paths(self.stack);
            if 0 <= top.next < top.dependencies.len() {
                let next = self.settle()->Ask_0;
                assert(frame_paths(next.stack) =~= open);
                assert forall|j: int| 0 <= j < next.stack.len() implies 0 <= (#[trigger] next.stack[j]).next
                    <= next.stack[j].dependencies.len() by {
                    if j < self.stack.len() - 1 {
                        assert(next.stack[j] == self.stack[j]);
                    }
                }
            } else {
                let moved = TraversalView {
                    stack: self.stack.drop_last(),
                    graph: ModuleGraphView { modules: self.graph.modules.push(top.module), edges: self.graph.edges },
                    ..self
                };
                let done2 = module_paths(moved.graph.modules);
                let open2 = frame_paths(moved.stack);
                assert(done2 =~= done.push(top.module.path));
                assert(open2 =~= open.drop_last());
                assert(open[open.len() - 1] == top.module.path);
                assert forall|i: int, j: int| 0 <= i < done2.len() && 0 <= j < open2.len() implies done2[i]
                    != open2[j] by {
                    assert(open2[j] == open[j]);
                    if i < done.len() {
                        assert(done2[i] == done[i]);
                    }
                }
                assert(done2.no_duplicates()) by {
                    assert forall|a: int, b: int| 0 <= a < done2.len() && 0 <= b < done2.len() && a != b implies done2[a]
                        != done2[b] by {
                        if a < done.len() && b < done.len() {
                            assert(done2[a] == done[a] && done2[b] == done[b]);
                        }
                    }
                }
                assert forall|i: int| 0 <= i < done2.len() implies moved.processed.contains(#[trigger] done2[i]) by {
                    if i < done.len() {
                        assert(done2[i] == done[i]);
                    } else {
                        assert(done2[i] == open[open.len() - 1]);
                    }
                }
                assert forall|j: int| 0 <= j < open2.len() implies moved.processed.contains(#[trigger] open2[j]) by {
                    assert(open2[j] == open[j]);
                }
                assert forall|j: int| 0 <= j < moved.stack.len() implies 0 <= (#[trigger] moved.stack[j]).next
                    <= moved.stack[j].dependencies.len() by {
                    assert(moved.stack[j] == self.stack[j]);
                }
                moved.lemma_settle_in_order();
            }
        }
    }

    /// A step keeps the traversal in order, and a graph that it ends with
    /// holds no two modules for one path: however many requests lead to a
    /// file, it is one module.
    pub proof fn lemma_advance_in_order(self, answer: FsAnswerView)
        requires
            self.ordered(),
        ensures
            match self.advance(answer) {
                TraversalStepView::Ask(next) => next.ordered(),
                TraversalStepView::Done(Ok(graph)) => module_paths(graph.modules).no_duplicates(),
                TraversalStepView::Done(Err(_)) => true,
            },
    {
        let done = module_paths(self.graph.modules);
        let open = frame_paths(self.stack);
        match self.pending {
            PendingView::Locate { path, entry } => {
                match answer.as_path() {
                    Err(m) => {},
                    Ok(found) => {
                        let entry_path = if entry {
                            Some(found)
                        } else {
                            self.entry_path
                        };
                        let known = TraversalView { entry_path, ..self };
                        let edges = if self.stack.len() > 0 {
                            self.graph.edges.push((self.stack.last().module.id, known.target_id(found)))
                        } else {
                            self.graph.edges
                        };
                        let linked = TraversalView {
                            graph: ModuleGraphView { modules: self.graph.modules, edges },
                            ..known
                        };
                        assert(linked.frames_in_order());
                        if self.processed.contains(found) {
                            linked.lemma_settle_in_order();
                        } else {
                            let next = self.advance(answer)->Ask_0;
                            let grown = self.processed.push(found);
                            assert(grown[self.processed.len() as int] == found);
                            assert forall|x: Seq<char>| self.processed.contains(x) implies grown.contains(x) by {
                                let k = choose|k: int| 0 <= k < self.processed.len() && self.processed[k] == x;
                                assert(grown[k] == x);
                            }
                            assert(!done.contains(found)) by {
                                if done.contains(found) {
                                    let k = choose|k: int| 0 <= k < done.len() && done[k] == found;
                                    assert(self.processed.contains(done[k]));
                                }
                            }
                            assert(!open.contains(found)) by {
                                if open.contains(found) {
                                    let k = choose|k: int| 0 <= k < open.len() && open[k] == found;
                                    assert(self.processed.contains(open[k]));
                                }
                            }
                            assert(next.frames_in_order()) by {
                                assert forall|i: int| 0 <= i < done.len() implies grown.contains(#[trigger] done[i]) by {
                                    assert(self.processed.contains(done[i]));
                                }
                                assert forall|j: int| 0 <= j < open.len() implies grown.contains(#[trigger] open[j]) by {
                                    assert(self.processed.contains(open[j]));
                                }
                            }
                        }
                    },
                }
            },
            PendingView::Read { path, entry } => {
                match answer.as_text() {
                    Err(m) => {},
                    Ok(content) => match extraction(content, path) {
                        Err(e) => {},
                        Ok(dependencies) => {
                            let frame = FrameView {
                                module: fresh_module(module_id(path, entry), path, content),
                                dependencies,
                                next: 0,
                            };
                            let pushed = TraversalView { stack: self.stack.push(frame), ..self };
                            let open2 = frame_paths(pushed.stack);
                            assert(open2 =~= open.push(path));
                            assert(open2.no_duplicates()) by {
                                assert forall|a: int, b: int|
                                    0 <= a < open2.len() && 0 <= b < open2.len() && a != b implies open2[a]
                                    != open2[b] by {
                                    if a < open.len() && b < open.len() {
                                        assert(open2[a] == open[a] && open2[b] == open[b]);
                                    } else if a < open.len() {
                                        assert(open.contains(open[a]));
                                    } else if b < open.len() {
                                        assert(open.contains(open[b]));
                                    }
                                }
                            }
                            assert forall|i: int, j: int| 0 <= i < done.len() && 0 <= j < open2.len() implies done[i]
                                != open2[j] by {
                                if j < open.len() {
                                    assert(open2[j] == open[j]);
                                } else {
                                    assert(done.contains(done[i]));
                                }
                            }
                            assert forall|j: int| 0 <= j < open2.len() implies pushed.processed.contains(
                                #[trigger] open2[j],
                            ) by {
                                if j < open.len() {
                                    assert(open2[j] == open[j]);
                                }
                            }
                            assert forall|j: int| 0 <= j < pushed.stack.len() implies 0 <= (
                            #[trigger] pushed.stack[j]).next <= pushed.stack[j].dependencies.len() by {
                                if j < self.stack.len() {
                                    assert(pushed.stack[j] == self.stack[j]);
                                }
                            }
                            pushed.lemma_settle_in_order();
                        },
                    },
                }
            },
            PendingView::Resolve(r) => {
                match r.advance(answer) {
                    ResolveStepView::Ask(next) => {},
                    ResolveStepView::Done(Ok(found)) => {},
                    ResolveStepView::Done(Err(_)) => {
                        self.lemma_settle_in_order();
                    },
                }
            },
        }
    }
}

impl TraversalView {
    /// Settling keeps modules and edges fitted, and in a graph that it ends
    /// with each edge joins two modules of the graph.
    pub proof fn lemma_settle_joined(self)
        requires
            self.joined(),
        ensures
            match self.settle() {
                TraversalStepView::Ask(next) => next.linked(),
                TraversalStepView::Done(Ok(graph)) => graph.edges_join_modules() && entry_is_last(graph),
                TraversalStepView::Done(Err(_)) => true,
            },
        decreases self.stack.len(),
    {
        if self.stack.len() == 0 {
            assert(self.stack_ids() =~= Seq::<Seq<char>>::empty());
            assert(self.graph_ids() =~= self.graph.digraph().roots);
        } else {
            let top = self.stack.last();
            if 0 <= top.next < top.dependencies.len() {
                let next = self.settle()->Ask_0;
                assert(next.stack_ids() =~= self.stack_ids());
                assert(frame_paths(next.stack) =~= frame_paths(self.stack));
                assert(next.graph_ids() == self.graph_ids());
                assert forall|j: int| 0 <= j < next.stack.len() implies (#[trigger] next.stack[j]).module.id
                    == next.target_id(next.stack[j].module.path) by {
                    assert(next.stack[j].module.id == self.stack[j].module.id);
                    assert(next.stack[j].module.path == self.stack[j].module.path);
                }
                assert forall|k: int| 0 <= k < next.processed.len() implies next.holds_path(
                    #[trigger] next.processed[k],
                ) by {
                    assert(self.holds_path(self.processed[k]));
                }
                assert forall|k: int| 0 <= k < next.graph.edges.len() implies next.knows_id(
                    (#[trigger] next.graph.edges[k]).0,
                ) && next.knows_id(next.graph.edges[k].1) by {
                    assert(self.knows_id(self.graph.edges[k].0) && self.knows_id(self.graph.edges[k].1));
                }
            } else {
                let moved = TraversalView {
                    stack: self.stack.drop_last(),
                    graph: ModuleGraphView { modules: self.graph.modules.push(top.module), edges: self.graph.edges },
                    ..self
                };
                self.lemma_move_keeps(moved);
                moved.lemma_settle_joined();
            }
        }
    }

    /// A step keeps modules and edges fitted, and in a graph that it ends
    /// with each edge joins two modules of the graph.
    pub proof fn lemma_advance_linked(self, answer: FsAnswerView)
        requires
            self.ordered(),
            self.linked(),
        ensures
            match self.advance(answer) {
                TraversalStepView::Ask(next) => next.linked(),
                TraversalStepView::Done(Ok(graph)) => graph.edges_join_modules() && entry_is_last(graph),
                TraversalStepView::Done(Err(_)) => true,
            },
    {
        match self.pending {
            PendingView::Locate { path, entry } => {
                match answer.as_path() {
                    Err(m) => {},
                    Ok(found) => {
                        self.lemma_located(found);
                    },
                }
            },
            PendingView::Read { path, entry } => {
                match answer.as_text() {
                    Err(m) => {},
                    Ok(content) => match extraction(content, path) {
                        Err(e) => {},
                        Ok(dependencies) => {
                            let frame = FrameView {
                                module: fresh_module(module_id(path, entry), path, content),
                                dependencies,
                                next: 0,
                            };
                            let pushed = TraversalView { stack: self.stack.push(frame), ..self };
                            self.lemma_push_keeps(pushed, frame);
                            pushed.lemma_settle_joined();
                        },
                    },
                }
            },
            PendingView::Resolve(r) => {
                match r.advance(answer) {
                    ResolveStepView::Ask(next) => {
                        let after = TraversalView { pending: PendingView::Resolve(next), ..self };
                        self.lemma_waiting_keeps(after);
                    },
                    ResolveStepView::Done(Ok(found)) => {
                        let after = TraversalView {
                            pending: PendingView::Locate { path: found, entry: false },
                            ..self
                        };
                        self.lemma_waiting_keeps(after);
                    },
                    ResolveStepView::Done(Err(_)) => {
                        self.lemma_waiting_keeps(self);
                        self.lemma_settle_joined();
                    },
                }
            },
        }
    }

    /// Behind a resolution, another thing to wait for changes nothing about
    /// modules and edges.
    proof fn lemma_waiting_keeps(self, after: TraversalView)
        requires
            self.linked(),
            self.pending is Resolve,
            !(after.pending is Read),
            after.pending matches PendingView::Locate { path, entry } ==> !entry,
            after == (TraversalView { pending: after.pending, ..self }),
        ensures
            after.linked(),
            after.joined(),
    {
        assert(after.graph_ids() == self.graph_ids());
        assert(after.stack_ids() == self.stack_ids());
        assert forall|k: int| 0 <= k < after.processed.len() implies after.holds_path(
            #[trigger] after.processed[k],
        ) by {
            assert(self.holds_path(self.processed[k]) || self.reads_path(self.processed[k]));
        }
        assert forall|k: int| 0 <= k < after.graph.edges.len() implies after.knows_id(
            (#[trigger] after.graph.edges[k]).0,
        ) && after.knows_id(after.graph.edges[k].1) by {
            assert(self.knows_id(self.graph.edges[k].0) || self.reads_id(self.graph.edges[k].0));
            assert(self.knows_id(self.graph.edges[k].1) || self.reads_id(self.graph.edges[k].1));
        }
        assert forall|i: int| 0 <= i < after.graph.modules.len() implies (#[trigger] after.graph.modules[i]).id
            == after.target_id(after.graph.modules[i].path) by {
            assert(self.graph.modules[i].id == self.target_id(self.graph.modules[i].path));
        }
        assert forall|j: int| 0 <= j < after.stack.len() implies (#[trigger] after.stack[j]).module.id
            == after.target_id(after.stack[j].module.path) by {
            assert(self.stack[j].module.id == self.target_id(self.stack[j].module.path));
        }
    }

    /// Putting the module whose file was read on the stack keeps modules and
    /// edges fitted.
    proof fn lemma_push_keeps(self, pushed: TraversalView, frame: FrameView)
        requires
            self.linked(),
            self.pending matches PendingView::Read { path, entry } && frame.module.path == path && frame.module.id
                == module_id(path, entry),
            pushed == (TraversalView { stack: self.stack.push(frame), ..self }),
        ensures
            pushed.joined(),
    {
        let n = self.stack.len() as int;
        assert(pushed.graph_ids() == self.graph_ids());
        assert(pushed.stack_ids() =~= self.stack_ids().push(frame.module.id));
        assert(frame_paths(pushed.stack) =~= frame_paths(self.stack).push(frame.module.path));
        assert forall|x: Seq<char>| self.knows_id(x) || self.reads_id(x) implies pushed.knows_id(x) by {
            if self.graph_ids().contains(x) {
            } else if self.stack_ids().contains(x) {
                let j = choose|j: int| 0 <= j < self.stack_ids().len() && self.stack_ids()[j] == x;
                assert(pushed.stack_ids()[j] == x);
            } else {
                assert(pushed.stack_ids()[n] == x);
            }
        }
        assert forall|x: Seq<char>| self.holds_path(x) || self.reads_path(x) implies pushed.holds_path(x) by {
            let fp = frame_paths(self.stack);
            if module_paths(self.graph.modules).contains(x) {
            } else if fp.contains(x) {
                let j = choose|j: int| 0 <= j < fp.len() && fp[j] == x;
                assert(frame_paths(pushed.stack)[j] == x);
            } else {
                assert(frame_paths(pushed.stack)[n] == x);
            }
        }
        assert forall|j: int| 0 <= j < pushed.stack.len() implies (#[trigger] pushed.stack[j]).module.id
            == pushed.target_id(pushed.stack[j].module.path) by {
            if j < n {
                assert(pushed.stack[j] == self.stack[j]);
            }
        }
        assert forall|i: int| 0 <= i < pushed.graph.modules.len() implies (#[trigger] pushed.graph.modules[i]).id
            == pushed.target_id(pushed.graph.modules[i].path) by {
            assert(self.graph.modules[i].id == self.target_id(self.graph.modules[i].path));
        }
        assert forall|k: int| 0 <= k < pushed.processed.len() implies pushed.holds_path(
            #[trigger] pushed.processed[k],
        ) by {
            assert(self.holds_path(self.processed[k]) || self.reads_path(self.processed[k]));
        }
        assert forall|k: int| 0 <= k < pushed.graph.edges.len() implies pushed.knows_id(
            (#[trigger] pushed.graph.edges[k]).0,
        ) && pushed.knows_id(pushed.graph.edges[k].1) by {
            assert(self.knows_id(self.graph.edges[k].0) || self.reads_id(self.graph.edges[k].0));
            assert(self.knows_id(self.graph.edges[k].1) || self.reads_id(self.graph.edges[k].1));
        }
    }

    /// The step that takes the canonical path `found` of a file keeps modules
    /// and edges fitted.
    proof fn lemma_located(self, found: Seq<char>)
        requires
            self.ordered(),
            self.linked(),
            self.pending is Locate,
        ensures
            match self.advance(FsAnswerView::Path(found)) {
                TraversalStepView::Ask(next) => next.linked(),
                TraversalStepView::Done(Ok(graph)) => graph.edges_join_modules() && entry_is_last(graph),
                TraversalStepView::Done(Err(_)) => true,
            },
    {
        let entry = self.pending->Locate_entry;
        let entry_path = if entry {
            Some(found)
        } else {
            self.entry_path
        };
        let known = TraversalView { entry_path, ..self };
        let edges = if self.stack.len() > 0 {
            self.graph.edges.push((self.stack.last().module.id, known.target_id(found)))
        } else {
            self.graph.edges
        };
        let linked = TraversalView { graph: ModuleGraphView { modules: self.graph.modules, edges }, ..known };
        assert(linked.graph_ids() == self.graph_ids());
        assert(linked.stack_ids() == self.stack_ids());
        if entry {
            let next = self.advance(FsAnswerView::Path(found))->Ask_0;
            assert(next.processed[0] == found);
            assert(next.processed.contains(found));
            assert(next.reads_path(next.processed[0]));
        } else {
            assert forall|i: int| 0 <= i < linked.graph.modules.len() implies (#[trigger] linked.graph.modules[i]).id
                == linked.target_id(linked.graph.modules[i].path) by {
                assert(self.graph.modules[i].id == self.target_id(self.graph.modules[i].path));
            }
            assert forall|j: int| 0 <= j < linked.stack.len() implies (#[trigger] linked.stack[j]).module.id
                == linked.target_id(linked.stack[j].module.path) by {
                assert(self.stack[j].module.id == self.target_id(self.stack[j].module.path));
            }
            assert forall|k: int| 0 <= k < self.graph.edges.len() implies linked.knows_id(
                (#[trigger] linked.graph.edges[k]).0,
            ) && linked.knows_id(linked.graph.edges[k].1) by {
                assert(linked.graph.edges[k] == self.graph.edges[k]);
                assert(self.knows_id(self.graph.edges[k].0) || self.reads_id(self.graph.edges[k].0));
                assert(self.knows_id(self.graph.edges[k].1) || self.reads_id(self.graph.edges[k].1));
            }
            if self.stack.len() > 0 {
                let last = self.stack.len() - 1;
                assert(self.stack_ids()[last] == self.stack.last().module.id);
                assert(linked.knows_id(self.stack.last().module.id));
            }
            if self.processed.contains(found) {
                let k = choose|k: int| 0 <= k < self.processed.len() && self.processed[k] == found;
                assert(self.holds_path(self.processed[k]) || self.reads_path(self.processed[k]));
                let gp = module_paths(self.graph.modules);
                let fp = frame_paths(self.stack);
                if gp.contains(found) {
                    let i = choose|i: int| 0 <= i < gp.len() && gp[i] == found;
                    assert(self.graph.modules[i].id == self.target_id(self.graph.modules[i].path));
                    assert(linked.graph_ids()[i] == linked.target_id(found));
                } else {
                    let j = choose|j: int| 0 <= j < fp.len() && fp[j] == found;
                    assert(self.stack[j].module.id == self.target_id(self.stack[j].module.path));
                    assert(linked.stack_ids()[j] == linked.target_id(found));
                }
                assert(linked.knows_id(linked.target_id(found)));
                assert forall|k: int| 0 <= k < linked.processed.len() implies linked.holds_path(
                    #[trigger] linked.processed[k],
                ) by {
                    assert(self.holds_path(self.processed[k]) || self.reads_path(self.processed[k]));
                }
                assert(linked.joined());
                linked.lemma_settle_joined();
            } else {
                let next = self.advance(FsAnswerView::Path(found))->Ask_0;
                let n = self.processed.len() as int;
                assert(next.processed[n] == found);
                assert(next.graph_ids() == self.graph_ids());
                assert(next.stack_ids() == self.stack_ids());
                if self.entry_path == Some(found) {
                    assert(self.processed.contains(found));
                }
                assert(next.reads_id(next.target_id(found)));
                assert forall|k: int| 0 <= k < next.processed.len() implies next.holds_path(
                    #[trigger] next.processed[k],
                ) || next.reads_path(next.processed[k]) by {
                    if k < n {
                        assert(next.processed[k] == self.processed[k]);
                        assert(self.holds_path(self.processed[k]) || self.reads_path(self.processed[k]));
                    }
                }
                assert(self.entry_path matches Some(p) ==> next.processed.contains(p)) by {
                    if self.entry_path is Some {
                        let p = self.entry_path->Some_0;
                        let k = choose|k: int| 0 <= k < self.processed.len() && self.processed[k] == p;
                        assert(next.processed[k] == p);
                    }
                }
                assert forall|i: int| 0 <= i < next.graph.modules.len() implies (#[trigger] next.graph.modules[i]).id
                    == next.target_id(next.graph.modules[i].path) by {
                    assert(self.graph.modules[i].id == self.target_id(self.graph.modules[i].path));
                }
                assert forall|j: int| 0 <= j < next.stack.len() implies (#[trigger] next.stack[j]).module.id
                    == next.target_id(next.stack[j].module.path) by {
                    assert(self.stack[j].module.id == self.target_id(self.stack[j].module.path));
                }
                assert forall|k: int| 0 <= k < next.graph.edges.len() implies (next.knows_id(
                    (#[trigger] next.graph.edges[k]).0,
                ) || next.reads_id(next.graph.edges[k].0)) && (next.knows_id(next.graph.edges[k].1) || next.reads_id(
                    next.graph.edges[k].1,
                )) by {
                    if k < self.graph.edges.len() {
                        assert(next.graph.edges[k] == self.graph.edges[k]);
                        assert(self.knows_id(self.graph.edges[k].0) || self.reads_id(self.graph.edges[k].0));
                        assert(self.knows_id(self.graph.edges[k].1) || self.reads_id(self.graph.edges[k].1));
                    }
                }
            }
        }
    }

    /// Moving the module on top of the stack into the graph keeps modules
    /// and edges fitted.
    proof fn lemma_move_keeps(self, moved: TraversalView)
        requires
            self.joined(),
            self.stack.len() > 0,
            moved == (TraversalView {
                stack: self.stack.drop_last(),
                graph: ModuleGraphView {
                    modules: self.graph.modules.push(self.stack.last().module),
                    edges: self.graph.edges,
                },
                ..self
            }),
        ensures
            moved.joined(),
    {
        let top = self.stack.last();
        let n = self.stack.len() as int;
        assert(moved.graph_ids() =~= self.graph_ids().push(top.module.id));
        assert(moved.stack_ids() =~= self.stack_ids().drop_last());
        assert(module_paths(moved.graph.modules) =~= module_paths(self.graph.modules).push(top.module.path));
        assert(frame_paths(moved.stack) =~= frame_paths(self.stack).drop_last());
        assert forall|x: Seq<char>| self.knows_id(x) implies moved.knows_id(x) by {
            if self.graph_ids().contains(x) {
                let i = choose|i: int| 0 <= i < self.graph_ids().len() && self.graph_ids()[i] == x;
                assert(moved.graph_ids()[i] == x);
            } else {
                let j = choose|j: int| 0 <= j < self.stack_ids().len() && self.stack_ids()[j] == x;
                if j < n - 1 {
                    assert(moved.stack_ids()[j] == x);
                } else {
                    assert(moved.graph_ids()[self.graph_ids().len() as int] == x);
                }
            }
        }
        assert forall|x: Seq<char>| self.holds_path(x) implies moved.holds_path(x) by {
            let gp = module_paths(self.graph.modules);
            let fp = frame_paths(self.stack);
            if gp.contains(x) {
                let i = choose|i: int| 0 <= i < gp.len() && gp[i] == x;
                assert(module_paths(moved.graph.modules)[i] == x);
            } else {
                let j = choose|j: int| 0 <= j < fp.len() && fp[j] == x;
                if j < n - 1 {
                    assert(frame_paths(moved.stack)[j] == x);
                } else {
                    assert(module_paths(moved.graph.modules)[gp.len() as int] == x);
                }
            }
        }
        assert forall|i: int| 0 <= i < moved.graph.modules.len() implies (#[trigger] moved.graph.modules[i]).id
            == moved.target_id(moved.graph.modules[i].path) by {
            if i < self.graph.modules.len() {
                assert(moved.graph.modules[i] == self.graph.modules[i]);
            } else {
                assert(moved.graph.modules[i] == self.stack[n - 1].module);
            }
        }
        assert forall|j: int| 0 <= j < moved.stack.len() implies (#[trigger] moved.stack[j]).module.id
            == moved.target_id(moved.stack[j].module.path) by {
            assert(moved.stack[j] == self.stack[j]);
        }
        assert forall|k: int| 0 <= k < moved.processed.len() implies moved.holds_path(
            #[trigger] moved.processed[k],
        ) by {
            assert(self.holds_path(self.processed[k]));
        }
        assert forall|k: int| 0 <= k < moved.graph.edges.len() implies moved.knows_id(
            (#[trigger] moved.graph.edges[k]).0,
        ) && moved.knows_id(moved.graph.edges[k].1) by {
            assert(self.knows_id(self.graph.edges[k].0) && self.knows_id(self.graph.edges[k].1));
        }
    }
}

/// A traversal under way.
pub struct Traversal {
    resolver: Resolver,
    graph: ModuleGraph,
    processed: Vec<String>,
    entry_path: Option<String>,
    stack: Vec<Frame>,
    pending: Pending,
}

impl View for Traversal {
    type V = TraversalView;

    closed spec fn view(&self) -> TraversalView {
        TraversalView {
            extensions: self.resolver.extension_seq(),
            graph: self.graph@,
            processed: views(self.processed@),
            entry_path: crate::text::option_view(self.entry_path),
            stack: frame_views(self.stack@),
            pending: self.pending@,
        }
    }
}

/// What a traversal does next.
pub enum TraversalStep {
    /// It has another question.
    Ask(Traversal),
    /// It has ended: with the graph, or with the first failure.
    Done(Result<ModuleGraph, BundlerError>),
}

/// What a traversal ended with, as mathematics.
pub open spec fn graph_result(r: Result<ModuleGraph, BundlerError>) -> Result<ModuleGraphView, BundlerErrorView> {
    match r {
        Ok(g) => Ok(g@),
        Err(e) => Err(e@),
    }
}

impl View for TraversalStep {
    type V = TraversalStepView;

    open spec fn view(&self) -> TraversalStepView {
        match *self {
            TraversalStep::Ask(t) => TraversalStepView::Ask(t@),
            TraversalStep::Done(r) => TraversalStepView::Done(graph_result(r)),
        }
    }
}

/// The id of the module for the file at `path`.
fn make_module_id(path: &String, entry: bool) -> (id: String)
    ensures
        id@ == module_id(path@, entry),
{
    if entry {
        let mut id = String::from_str("entry:");
        id.append(path.as_str());
        id
    } else {
        path.clone()
    }
}

impl Traversal {
    /// The traversal from the entry file `entry`, with the extensions of
    /// `resolver`, before its first question.
    pub fn start(resolver: &Resolver, entry: &str) -> (t: Traversal)
        ensures
            t@ == TraversalView::start(resolver.extension_seq(), entry@),
            t@.well_formed(),
    {
        let graph = ModuleGraph::new();
        let t = Traversal {
            resolver: resolver.duplicate(),
            graph,
            processed: Vec::new(),
            entry_path: None,
            stack: Vec::new(),
            pending: Pending::Locate { path: String::from_str(entry), entry: true },
        };
        proof {
            assert(t@.graph.modules =~= Seq::<ModuleView>::empty());
            assert(t@.graph.edges =~= Seq::<(Seq<char>, Seq<char>)>::empty());
            assert(t@.processed =~= Seq::<Seq<char>>::empty());
            assert(t@.stack =~= Seq::<FrameView>::empty());
            assert(module_paths(t@.graph.modules) =~= Seq::<Seq<char>>::empty());
            assert(frame_paths(t@.stack) =~= Seq::<Seq<char>>::empty());
        }
        t
    }

    /// The pending question.
    pub fn query(&self) -> (q: FsQuery)
        ensures
            q@ == self@.query(),
    {
        match &self.pending {
            Pending::Locate { path, entry } => FsQuery::Canonicalize(path.clone()),
            Pending::Read { path, entry } => FsQuery::ReadToString(path.clone()),
            Pending::Resolve(r) => r.query(),
        }
    }

    /// Goes on with the module on top of the stack.
    fn settle(self) -> (step: TraversalStep)
        ensures
            step@ == self@.settle(),
    {
        let ghost origin = self@;
        let ghost goal = self@.settle();
        let Traversal { resolver, graph, processed, entry_path, stack, pending } = self;
        let mut graph = graph;
        let mut stack = stack;
        loop
            invariant
                (TraversalView {
                    extensions: resolver.extension_seq(),
                    graph: graph@,
                    processed: views(processed@),
                    entry_path: crate::text::option_view(entry_path),
                    stack: frame_views(stack@),
                    pending: pending@,
                }).settle() == goal,
                goal == origin.settle(),
                origin == self@,
            decreases stack@.len(),
        {
            let ghost here = TraversalView {
                extensions: resolver.extension_seq(),
                graph: graph@,
                processed: views(processed@),
                entry_path: crate::text::option_view(entry_path),
                stack: frame_views(stack@),
                pending: pending@,
            };
            assert(here.settle() == goal);
            match stack.pop() {
                None => {
                    assert(here.stack.len() == 0);
                    assert(here.settle() == TraversalStepView::Done(Ok(here.graph)));
                    return TraversalStep::Done(Ok(graph));
                },
                Some(frame) => {
                    let ghost top = here.stack.last();
                    assert(top == frame@);
                    assert(frame_views(stack@) =~= here.stack.drop_last());
                    let Frame { module, dependencies, next } = frame;
                    let mut module = module;
                    if next < dependencies.len() {
                        let dep = dependencies[next].clone();
                        assert(dep@ == top.dependencies[top.next]);
                        let resolution = resolver.resolve(dep.request.as_str(), module.path.as_str());
                        let ghost before = module@;
                        module.add_dependency(dep);
                        assert(module@.dependencies =~= before.dependencies.push(dep@));
                        let frame = Frame { module, dependencies, next: next + 1 };
                        let ghost rest = frame_views(stack@);
                        stack.push(frame);
                        assert(frame_views(stack@) =~= rest.push(frame@));
                        let t = Traversal {
                            resolver,
                            graph,
                            processed,
                            entry_path,
                            stack,
                            pending: Pending::Resolve(resolution),
                        };
                        assert(TraversalStepView::Ask(t@) == here.settle());
                        return TraversalStep::Ask(t);
                    } else {
                        graph.add_module(module);
                    }
                },
            }
        }
    }

    /// Takes the answer to the pending question and says what comes next:
    /// another question, the finished graph, or the first failure.
    ///
    /// A traversal that was started by [`Traversal::start`] and brought on by
    /// this function is well formed. The graph that it ends with holds no two
    /// modules for one path, each of its edges joins two of its modules, its
    /// last module is the entry module, and each id follows from the path.
    pub fn advance(self, answer: FsAnswer) -> (step: TraversalStep)
        ensures
            step@ == self@.advance(answer@),
            self@.well_formed() ==> match step {
                TraversalStep::Ask(next) => next@.well_formed(),
                TraversalStep::Done(Ok(graph)) => module_paths(graph@.modules).no_duplicates()
                    && graph@.edges_join_modules() && entry_is_last(graph@),
                TraversalStep::Done(Err(_)) => true,
            },
    {
        proof {
            if self@.well_formed() {
                self@.lemma_advance_in_order(answer@);
                self@.lemma_advance_linked(answer@);
            }
        }
        let ghost start = self@;
        let Traversal { resolver, graph, processed, entry_path, stack, pending } = self;
        let mut graph = graph;
        let mut processed = processed;
        let mut stack = stack;
        match pending {
            Pending::Locate { path, entry } => {
                match answer.into_path() {
                    Err(m) => TraversalStep::Done(Err(BundlerError::Io(m))),
                    Ok(found) => {
                        let entry_path = if entry {
                            Some(found.clone())
                        } else {
                            entry_path
                        };
                        if stack.len() > 0 {
                            let is_entry = match &entry_path {
                                Some(p) => *p == found,
                                None => false,
                            };
                            let from = stack[stack.len() - 1].module.id.clone();
                            assert(from@ == start.stack.last().module.id);
                            let to = make_module_id(&found, is_entry);
                            graph.add_dependency(from, to);
                        }
                        if contains_text(&processed, &found) {
                            let t = Traversal {
                                resolver,
                                graph,
                                processed,
                                entry_path,
                                stack,
                                pending: Pending::Locate { path, entry },
                            };
                            let step = t.settle();
                            assert(step@ == start.advance(answer@));
                            step
                        } else {
                            proof {
                                assert(views(processed@.push(found)) =~= views(processed@).push(found@));
                            }
                            processed.push(found.clone());
                            let step = TraversalStep::Ask(
                                Traversal {
                                    resolver,
                                    graph,
                                    processed,
                                    entry_path,
                                    stack,
                                    pending: Pending::Read { path: found, entry },
                                },
                            );
                            assert(step@ == start.advance(answer@));
                            step
                        }
                    },
                }
            },
            Pending::Read { path, entry } => {
                match answer.into_text() {
                    Err(m) => TraversalStep::Done(Err(BundlerError::Io(m))),
                    Ok(content) => match Compiler::parse_dependencies(content.as_str(), path.as_str()) {
                        Err(e) => TraversalStep::Done(Err(e)),
                        Ok(dependencies) => {
                            let id = make_module_id(&path, entry);
                            let module = Module::new(id, path.clone(), content);
                            assert(module@.dependencies =~= Seq::<DependencyView>::empty());
                            assert(module@ == fresh_module(module_id(path@, entry), path@, content@));
                            let frame = Frame { module, dependencies, next: 0 };
                            let ghost rest = frame_views(stack@);
                            stack.push(frame);
                            assert(frame_views(stack@) =~= rest.push(frame@));
                            let t = Traversal {
                                resolver,
                                graph,
                                processed,
                                entry_path,
                                stack,
                                pending: Pending::Read { path, entry },
                            };
                            let step = t.settle();
                            assert(step@ == start.advance(answer@));
                            step
                        },
                    },
                }
            },
            Pending::Resolve(r) => {
                match r.advance(answer) {
                    ResolveStep::Ask(next) => TraversalStep::Ask(
                        Traversal { resolver, graph, processed, entry_path, stack, pending: Pending::Resolve(next) },
                    ),
                    ResolveStep::Done(Ok(found)) => TraversalStep::Ask(
                        Traversal {
                            resolver,
                            graph,
                            processed,
                            entry_path,
                            stack,
                            pending: Pending::Locate { path: found, entry: false },
                        },
                    ),
                    ResolveStep::Done(Err(e)) => {
                        let t = Traversal {
                            resolver,
                            graph,
                            processed,
                            entry_path,
                            stack,
                            pending: Pending::Locate { path: String::new(), entry: false },
                        };
                        proof {
                            start.lemma_settle_ignores_pending(t@.pending);
                            assert(t@ == (TraversalView { pending: t@.pending, ..start }));
                        }
                        t.settle()
                    },
                }
            },
        }
    }
}

} // verus!
