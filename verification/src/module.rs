//! Modules, and the graph that a traversal builds of them.

use vstd::prelude::*;
use vstd::string::*;
use crate::dependency::{dependency_views, Dependency, DependencyView};
use crate::error::{BundlerError, BundlerErrorView};
use crate::graph::{explored, Digraph};
use crate::text::{chars_of, contains_text, option_view, same_text, starts_with, views};

verus! {

/// What kind of file a module is, by its extension.
#[derive(Debug, Clone, Copy, PartialEq, Eq, Structural)]
pub enum ModuleType {
    JavaScript,
    TypeScript,
    Json,
    Css,
    Asset,
}

/// One source file in the dependency graph.
#[derive(Debug)]
pub struct Module {
    pub id: String,
    pub path: String,
    pub content: String,
    pub dependencies: Vec<Dependency>,
    pub source_map: Option<String>,
    pub module_type: ModuleType,
}

/// The mathematical content of a [`Module`].
pub struct ModuleView {
    pub id: Seq<char>,
    pub path: Seq<char>,
    pub content: Seq<char>,
    pub dependencies: Seq<DependencyView>,
    pub source_map: Option<Seq<char>>,
    pub module_type: ModuleType,
}

impl View for Module {
    type V = ModuleView;

    open spec fn view(&self) -> ModuleView {
        ModuleView {
            id: self.id@,
            path: self.path@,
            content: self.content@,
            dependencies: dependency_views(self.dependencies@),
            source_map: option_view(self.source_map),
            module_type: self.module_type,
        }
    }
}

/// The views of a list of modules, in order.
pub open spec fn module_views(v: Seq<Module>) -> Seq<ModuleView> {
    Seq::new(v.len(), |i: int| v[i]@)
}

/// The ids of a list of modules, in order.
pub open spec fn module_ids(v: Seq<Module>) -> Seq<Seq<char>> {
    Seq::new(v.len(), |i: int| v[i].id@)
}

/// The modules of `modules` whose id carries the entry marker, in order.
pub open spec fn entry_modules(modules: Seq<Module>) -> Seq<Module> {
    modules.filter(|m: Module| is_entry_id(m.id@))
}

/// The marker that the id of an entry module begins with.
pub open spec fn entry_marker() -> Seq<char> {
    "entry:"@
}

/// Whether `id` carries the entry marker.
pub open spec fn is_entry_id(id: Seq<char>) -> bool {
    entry_marker().is_prefix_of(id)
}

/// Whether position `i` of `path` holds the dot that starts its extension:
/// a dot that does not open the last path segment and after which neither a
/// dot nor a `/` follows.
pub open spec fn is_extension_dot(path: Seq<char>, i: int) -> bool {
    &&& 0 < i < path.len()
    &&& path[i] == '.'
    &&& path[i - 1] != '/'
    &&& forall|j: int| i < j < path.len() ==> path[j] != '.' && path[j] != '/'
}

/// The extension of a path, without its dot, if it has one.
pub open spec fn extension_of(path: Seq<char>) -> Option<Seq<char>> {
    if exists|i: int| is_extension_dot(path, i) {
        let i = choose|i: int| is_extension_dot(path, i);
        Some(path.subrange(i + 1, path.len() as int))
    } else {
        None
    }
}

/// The module type that an extension stands for.
pub open spec fn type_of_extension(ext: Option<Seq<char>>) -> ModuleType {
    if ext == Some("js"@) {
        ModuleType::JavaScript
    } else if ext == Some("ts"@) {
        ModuleType::TypeScript
    } else if ext == Some("json"@) {
        ModuleType::Json
    } else if ext == Some("css"@) {
        ModuleType::Css
    } else {
        ModuleType::Asset
    }
}

/// The extension of `path`, found by scanning from its end.
fn find_extension(path: &str) -> (ext: Option<String>)
    ensures
        option_view(ext) == extension_of(path@),
{
    let cs = chars_of(path);
    let n = cs.len();
    let mut j: usize = n;
    while j > 0
        invariant
            j <= n,
            n == cs.len(),
            cs@ == path@,
            forall|k: int| j <= k < n ==> cs@[k] != '.' && cs@[k] != '/',
        decreases j,
    {
        j -= 1;
        if cs[j] == '/' {
            assert forall|i: int| !is_extension_dot(path@, i) by {
                if is_extension_dot(path@, i) {
                    if i < j {
                        assert(path@[j as int] != '/');
                    } else if i > j {
                        assert(cs@[i] != '.');
                    }
                }
            }
            return None;
        }
        if cs[j] == '.' {
            if j > 0 && cs[j - 1] != '/' {
                assert(is_extension_dot(path@, j as int));
                assert forall|i: int| is_extension_dot(path@, i) implies i == j by {
                    if i < j {
                        assert(path@[j as int] != '.');
                    } else if i > j {
                        assert(cs@[i] != '.');
                    }
                }
                let s = path.substring_char(j + 1, n);
                return Some(String::from_str(s));
            } else {
                assert forall|i: int| !is_extension_dot(path@, i) by {
                    if is_extension_dot(path@, i) {
                        if i < j {
                            assert(path@[j as int] != '.');
                        } else if i > j {
                            assert(cs@[i] != '.');
                        }
                    }
                }
                return None;
            }
        }
    }
    assert forall|i: int| !is_extension_dot(path@, i) by {
        if is_extension_dot(path@, i) {
            assert(cs@[i] != '.');
        }
    }
    None
}

impl Module {
    /// A module with the given id, path and text, no dependencies yet, and
    /// the type that the path's extension stands for.
    pub fn new(id: String, path: String, content: String) -> (m: Module)
        ensures
            m.id == id,
            m.path == path,
            m.content == content,
            m.dependencies@.len() == 0,
            m.source_map is None,
            m.module_type == type_of_extension(extension_of(path@)),
    {
        let module_type = Self::determine_type(&path);
        Module { id, path, content, dependencies: Vec::new(), source_map: None, module_type }
    }

    /// Appends a dependency to the module's list.
    pub fn add_dependency(&mut self, dependency: Dependency)
        ensures
            final(self).dependencies@ == old(self).dependencies@.push(dependency),
            final(self).id == old(self).id,
            final(self).path == old(self).path,
            final(self).content == old(self).content,
            final(self).source_map == old(self).source_map,
            final(self).module_type == old(self).module_type,
    {
        self.dependencies.push(dependency);
    }

    /// The request of each dependency, in order.
    pub fn get_dependency_paths(&self) -> (paths: Vec<String>)
        ensures
            paths@.len() == self.dependencies@.len(),
            forall|i: int| 0 <= i < paths@.len() ==> paths@[i] == self.dependencies@[i].request,
    {
        let mut paths: Vec<String> = Vec::new();
        let mut i: usize = 0;
        while i < self.dependencies.len()
            invariant
                i <= self.dependencies.len(),
                paths@.len() == i,
                forall|k: int| 0 <= k < i ==> paths@[k] == self.dependencies@[k].request,
            decreases self.dependencies.len() - i,
        {
            paths.push(self.dependencies[i].request.clone());
            i += 1;
        }
        paths
    }

    /// The module type for a path, from its extension: `js`, `ts`, `json`
    /// and `css` have a type of their own, everything else is an asset.
    pub fn determine_type(path: &str) -> (t: ModuleType)
        ensures
            t == type_of_extension(extension_of(path@)),
    {
        match find_extension(path) {
            Some(ext) => {
                if same_text(ext.as_str(), "js") {
                    ModuleType::JavaScript
                } else if same_text(ext.as_str(), "ts") {
                    ModuleType::TypeScript
                } else if same_text(ext.as_str(), "json") {
                    ModuleType::Json
                } else if same_text(ext.as_str(), "css") {
                    ModuleType::Css
                } else {
                    ModuleType::Asset
                }
            },
            None => ModuleType::Asset,
        }
    }

    /// Whether the module was created as an entry: its id carries the marker.
    pub fn is_entry(&self) -> (r: bool)
        ensures
            r == is_entry_id(self.id@),
    {
        starts_with(self.id.as_str(), "entry:")
    }
}

impl Clone for Module {
    fn clone(&self) -> (r: Module)
        ensures
            r@ == self@,
            r.id == self.id,
            r.path == self.path,
            r.content == self.content,
    {
        let mut dependencies: Vec<Dependency> = Vec::new();
        let mut i: usize = 0;
        while i < self.dependencies.len()
            invariant
                i <= self.dependencies.len(),
                dependencies@ == self.dependencies@.take(i as int),
            decreases self.dependencies.len() - i,
        {
            dependencies.push(self.dependencies[i].clone());
            i += 1;
        }
        assert(dependencies@ == self.dependencies@);
        let source_map = match &self.source_map {
            Some(s) => Some(s.clone()),
            None => None,
        };
        Module {
            id: self.id.clone(),
            path: self.path.clone(),
            content: self.content.clone(),
            dependencies,
            source_map,
            module_type: self.module_type,
        }
    }
}

/// The registry of discovered modules and the edges between their ids.
/// Modules are kept in the order in which they were added; edges may repeat.
#[derive(Debug)]
pub struct ModuleGraph {
    modules: Vec<Module>,
    dependencies: Vec<(String, String)>,
}

/// The mathematical content of a [`ModuleGraph`].
pub struct ModuleGraphView {
    pub modules: Seq<ModuleView>,
    pub edges: Seq<(Seq<char>, Seq<char>)>,
}

impl ModuleGraphView {
    /// The graph over module ids that cycle detection explores.
    pub open spec fn digraph(self) -> Digraph {
        Digraph { roots: Seq::new(self.modules.len(), |i: int| self.modules[i].id), edges: self.edges }
    }

    /// Each edge joins two modules of the graph.
    pub open spec fn edges_join_modules(self) -> bool {
        forall|k: int|
            0 <= k < self.edges.len() ==> self.digraph().roots.contains((#[trigger] self.edges[k]).0)
                && self.digraph().roots.contains(self.edges[k].1)
    }
}

proof fn lemma_views_push(v: Seq<String>, s: String)
    ensures
        views(v.push(s)) == views(v).push(s@),
{
    assert(views(v.push(s)) =~= views(v).push(s@));
}

proof fn lemma_views_drop_last(v: Seq<String>)
    requires
        v.len() > 0,
    ensures
        views(v.drop_last()) == views(v).drop_last(),
{
    assert(views(v.drop_last()) =~= views(v).drop_last());
}

impl View for ModuleGraph {
    type V = ModuleGraphView;

    closed spec fn view(&self) -> ModuleGraphView {
        ModuleGraphView {
            modules: module_views(self.modules@),
            edges: Seq::new(
                self.dependencies@.len(),
                |i: int| (self.dependencies@[i].0@, self.dependencies@[i].1@),
            ),
        }
    }
}

impl ModuleGraph {
    /// The modules as they are stored.
    pub closed spec fn module_seq(&self) -> Seq<Module> {
        self.modules@
    }

    /// An empty graph.
    pub fn new() -> (g: ModuleGraph)
        ensures
            g@.modules.len() == 0,
            g@.edges.len() == 0,
            g.module_seq().len() == 0,
    {
        ModuleGraph { modules: Vec::new(), dependencies: Vec::new() }
    }

    /// Appends a module, whatever the graph already holds.
    pub fn add_module(&mut self, module: Module)
        ensures
            final(self)@.modules == old(self)@.modules.push(module@),
            final(self)@.edges == old(self)@.edges,
            final(self).module_seq() == old(self).module_seq().push(module),
    {
        self.modules.push(module);
        assert(self@.modules =~= old(self)@.modules.push(module@));
        assert(self@.edges =~= old(self)@.edges);
    }

    /// Appends an edge from `from_id` to `to_id`, whether or not it is there already.
    pub fn add_dependency(&mut self, from_id: String, to_id: String)
        ensures
            final(self)@.modules == old(self)@.modules,
            final(self)@.edges == old(self)@.edges.push((from_id@, to_id@)),
            final(self).module_seq() == old(self).module_seq(),
    {
        self.dependencies.push((from_id, to_id));
        assert(self@.edges =~= old(self)@.edges.push((from_id@, to_id@)));
    }

    /// The modules, in the order in which they were added.
    pub fn get_modules(&self) -> (ms: &[Module])
        ensures
            ms@ == self.module_seq(),
            module_views(ms@) == self@.modules,
    {
        self.modules.as_slice()
    }

    /// The modules whose id carries the entry marker, in the order in which
    /// they were added.
    pub fn get_entry_modules(&self) -> (entries: Vec<&Module>)
        ensures
            entries@.map_values(|m: &Module| *m) == entry_modules(self.module_seq()),
    {
        let mut entries: Vec<&Module> = Vec::new();
        let ghost pred = |m: Module| is_entry_id(m.id@);
        let mut i: usize = 0;
        while i < self.modules.len()
            invariant
                i <= self.modules.len(),
                pred == (|m: Module| is_entry_id(m.id@)),
                entries@.map_values(|m: &Module| *m) == self.modules@.take(i as int).filter(pred),
            decreases self.modules.len() - i,
        {
            let m = &self.modules[i];
            proof {
                let prev = self.modules@.take(i as int);
                assert(self.modules@.take(i + 1) =~= prev.push(*m));
                assert(prev.push(*m).drop_last() =~= prev);
                reveal(Seq::filter);
            }
            if m.is_entry() {
                let ghost before = entries@;
                entries.push(m);
                assert(entries@.map_values(|m: &Module| *m) =~= before.map_values(|m: &Module| *m).push(*m));
            }
            i += 1;
        }
        assert(self.modules@.take(i as int) =~= self.modules@);
        entries
    }

    /// Looks for a cycle that can be reached from a module of the graph, by a
    /// depth-first walk from each module that was not visited before.
    ///
    /// Succeeds exactly when no such cycle exists. Otherwise the error holds
    /// the exploration path at the moment the first cycle closed: a chain of
    /// distinct ids that starts at a module of the graph, each with an edge to
    /// the next, whose last id has an edge back into the chain.
    pub fn detect_circular_dependencies(&self) -> (r: Result<(), BundlerError>)
        ensures
            r is Ok <==> !self@.digraph().has_reachable_cycle(),
            r matches Err(e) ==> (e@ matches BundlerErrorView::CircularDependency { modules }
                && self@.digraph().is_cycle_chain(modules)),
            match self@.digraph().first_cycle_chain() {
                Some(chain) => r matches Err(e) && e@ == (BundlerErrorView::CircularDependency { modules: chain }),
                None => r is Ok,
            },
    {
        let ghost g = self@.digraph();
        let mut visited: Vec<String> = Vec::new();
        let mut rec_stack: Vec<String> = Vec::new();
        let mut i: usize = 0;
        assert(g.traversal_state(views(visited@), views(rec_stack@)));
        assert(views(visited@) =~= Seq::<Seq<char>>::empty());
        while i < self.modules.len()
            invariant
                i <= self.modules.len(),
                g == self@.digraph(),
                rec_stack@.len() == 0,
                g.traversal_state(views(visited@), views(rec_stack@)),
                forall|k: int| 0 <= k < i ==> views(visited@).contains(#[trigger] g.roots[k]),
                g.search(i as int, views(visited@)) == g.first_cycle_chain(),
            decreases self.modules.len() - i,
        {
            assert(g.roots[i as int] == self.modules@[i as int].id@);
            assert(views(rec_stack@) =~= Seq::<Seq<char>>::empty());
            if !contains_text(&visited, &self.modules[i].id) {
                let ghost before = views(visited@);
                let found = self.has_cycle(&self.modules[i].id, &mut visited, &mut rec_stack);
                if found {
                    proof {
                        g.lemma_chain_shows_cycle(views(rec_stack@));
                    }
                    return Err(BundlerError::CircularDependency { modules: rec_stack });
                }
                assert(views(rec_stack@).len() == 0);
                assert forall|k: int| 0 <= k < i + 1 implies views(visited@).contains(#[trigger] g.roots[k]) by {
                    if k < i {
                        assert(before.contains(g.roots[k]));
                    }
                }
            }
            i += 1;
        }
        proof {
            let done = explored(views(visited@), views(rec_stack@));
            assert forall|r: Seq<char>| g.roots.contains(r) implies done.contains(r) by {
                let k = choose|k: int| 0 <= k < g.roots.len() && g.roots[k] == r;
                assert(views(visited@).contains(g.roots[k]));
            }
            g.lemma_no_reachable_cycle(done);
        }
        Ok(())
    }

    /// One depth-first visit of `module_id`: marks it visited, puts it on the
    /// stack, follows each edge that leaves it, and takes it off the stack
    /// again if no cycle closed. Returns whether a cycle closed; the stack is
    /// then left as it was at that moment.
    fn has_cycle(&self, module_id: &String, visited: &mut Vec<String>, rec_stack: &mut Vec<String>) -> (found: bool)
        requires
            self@.digraph().traversal_state(views(old(visited)@), views(old(rec_stack)@)),
            !views(old(visited)@).contains(module_id@),
            old(rec_stack)@.len() == 0 ==> self@.digraph().roots.contains(module_id@),
            old(rec_stack)@.len() > 0 ==> self@.digraph().edge(views(old(rec_stack)@).last(), module_id@),
        ensures
            self@.digraph().visit(module_id@, views(old(visited)@), views(old(rec_stack)@)) == (
                views(final(visited)@),
                if found {
                    Some(views(final(rec_stack)@))
                } else {
                    None
                },
            ),
            found ==> self@.digraph().is_cycle_chain(views(final(rec_stack)@)),
            !found ==> {
                &&& views(final(rec_stack)@) == views(old(rec_stack)@)
                &&& self@.digraph().traversal_state(views(final(visited)@), views(final(rec_stack)@))
                &&& explored(views(final(visited)@), views(final(rec_stack)@)).contains(module_id@)
                &&& final(visited)@.len() >= old(visited)@.len()
                &&& forall|n: Seq<char>| views(old(visited)@).contains(n) ==> views(final(visited)@).contains(n)
            },
        decreases self@.digraph().node_list().to_set().len() - old(visited)@.len(),
    {
        let ghost g = self@.digraph();
        let ghost u = module_id@;
        let ghost visited0 = views(visited@);
        let ghost stack0 = views(rec_stack@);
        let ghost goal = g.visit(u, visited0, stack0);
        proof {
            lemma_views_push(visited@, *module_id);
            lemma_views_push(rec_stack@, *module_id);
            g.lemma_enter(visited0, stack0, u);
        }
        visited.push(module_id.clone());
        rec_stack.push(module_id.clone());
        let ghost stack1 = stack0.push(u);
        assert forall|n: Seq<char>| visited0.contains(n) implies views(visited@).contains(n) by {
            let k = choose|k: int| 0 <= k < visited0.len() && visited0[k] == n;
            assert(views(visited@)[k] == n);
        }
        let mut i: usize = 0;
        while i < self.dependencies.len()
            invariant
                i <= self.dependencies.len(),
                g == self@.digraph(),
                u == module_id@,
                stack1 == stack0.push(u),
                views(rec_stack@) == stack1,
                g.traversal_state(views(visited@), stack1),
                visited@.len() > old(visited)@.len(),
                g.follow(u, i as int, views(visited@), stack1) == goal,
                goal == g.visit(u, visited0, stack0),
                visited0 == views(old(visited)@),
                stack0 == views(old(rec_stack)@),
                forall|n: Seq<char>| visited0.contains(n) ==> views(visited@).contains(n),
                forall|k: int| 0 <= k < i && #[trigger] g.edges[k].0 == u ==> explored(views(visited@), stack1).contains(g.edges[k].1),
            decreases self.dependencies.len() - i,
        {
            assert(g.edges[i as int] == (self.dependencies@[i as int].0@, self.dependencies@[i as int].1@));
            if self.dependencies[i].0 == *module_id {
                let to = &self.dependencies[i].1;
                assert(g.edge(u, to@));
                if !contains_text(visited, to) {
                    let ghost visited1 = views(visited@);
                    proof {
                        assert(stack1.last() == u);
                        g.lemma_enter(visited1, stack1, to@);
                    }
                    let found = self.has_cycle(to, visited, rec_stack);
                    if found {
                        return true;
                    }
                    proof {
                        assert forall|k: int| 0 <= k < i + 1 && #[trigger] g.edges[k].0 == u implies explored(views(visited@), stack1).contains(g.edges[k].1) by {
                            if k < i {
                                assert(explored(visited1, stack1).contains(g.edges[k].1));
                            }
                        }
                    }
                } else if contains_text(rec_stack, to) {
                    proof {
                        let j = choose|j: int| 0 <= j < stack1.len() && stack1[j] == to@;
                        assert(g.edge(stack1.last(), stack1[j]));
                        assert(g.is_cycle_chain(stack1));
                    }
                    return true;
                }
            }
            i += 1;
        }
        proof {
            lemma_views_drop_last(rec_stack@);
            assert forall|c: Seq<char>| #[trigger] g.edge(u, c) implies explored(views(visited@), stack1).contains(c) by {
                let k = choose|k: int| 0 <= k < g.edges.len() && #[trigger] g.edges[k] == (u, c);
                assert(g.edges[k].0 == u);
            }
            g.lemma_leave(views(visited@), stack0, u);
        }
        rec_stack.pop();
        assert(views(rec_stack@) =~= stack0);
        false
    }
}

} // verus!
