//! The compiler: from a finished module graph to chunks and assets, and the
//! traversal that builds the graph.

use vstd::prelude::*;
use vstd::string::*;
use crate::chunk::{chunk_views, main_chunk, Chunk, ChunkGenerator, ChunkView};
use crate::config::Config;
use crate::dependency::{dependency_views, Dependency, DependencyType, DependencyView};
use crate::emit::{
    asset_name, assets_of, bundle_head, bundle_text, is_first_with_id, module_table, module_with_id,
    table_entry, table_separator, transform_result, BODY_CLOSE, BODY_OPEN, DEFAULT_IMPORT_PATTERN,
    EXPORT_FUNCTION_PATTERN, KEY_OPEN, NAMED_IMPORT_PATTERN, RUNTIME_PRELUDE, TABLE_CLOSE, TABLE_OPEN,
};
use crate::error::{text_result, BundlerError, BundlerErrorView};
use crate::extract::{
    collect_requests, dependencies_in, extraction, extraction_view, IMPORT_PATTERN, REQUIRE_PATTERN,
};
use crate::loader::LoaderRegistry;
use crate::module::{module_ids, module_views, Module, ModuleGraph, ModuleGraphView, ModuleView};
use crate::pattern::{capture_groups, rejection, replace_matches, Rewrite};
use crate::plugin::{append_item, hook_failed, hooks_ran, Plugin, PluginContext, PluginManager};
use crate::resolver::Resolver;
use crate::traversal::{Traversal, TraversalView};
use crate::text::{clone_texts, views};
use crate::text_map::TextMap;

verus! {

/// What a run hands back: the chunks, the text of each asset by file name,
/// and the modules.
pub struct CompilationResult {
    pub chunks: Vec<Chunk>,
    pub assets: TextMap<String>,
    pub modules: Vec<Module>,
}

/// The texts of a map of assets.
pub open spec fn asset_texts(assets: Map<Seq<char>, String>) -> Map<Seq<char>, Seq<char>> {
    Map::new(|name: Seq<char>| assets.dom().contains(name), |name: Seq<char>| assets[name]@)
}

/// What building the assets gave, as mathematics.
pub open spec fn assets_view(r: Result<TextMap<String>, BundlerError>) -> Result<
    Map<Seq<char>, Seq<char>>,
    BundlerErrorView,
> {
    match r {
        Ok(assets) => Ok(asset_texts(assets@)),
        Err(e) => Err(e@),
    }
}

/// The mathematical content of a [`CompilationResult`].
pub struct CompilationView {
    pub chunks: Seq<ChunkView>,
    pub assets: Map<Seq<char>, Seq<char>>,
    pub modules: Seq<ModuleView>,
}

impl View for CompilationResult {
    type V = CompilationView;

    open spec fn view(&self) -> CompilationView {
        CompilationView {
            chunks: chunk_views(self.chunks@),
            assets: asset_texts(self.assets@),
            modules: module_views(self.modules@),
        }
    }
}

/// What a compilation gave, as mathematics.
pub open spec fn compilation_view(r: Result<CompilationResult, BundlerError>) -> Result<
    CompilationView,
    BundlerErrorView,
> {
    match r {
        Ok(result) => Ok(result@),
        Err(e) => Err(e@),
    }
}

/// What compiling `graph` gives where no cycle and no plugin stands in the
/// way: the main chunk of the modules, its asset, and the modules in the
/// order of the graph; or the failure to emit the bundle.
pub open spec fn compiled(graph: ModuleGraphView, fallback: Seq<char>) -> Result<CompilationView, BundlerErrorView> {
    let chunks = seq![main_chunk(graph.digraph().roots)];
    match assets_of(chunks, graph.modules, fallback, 1) {
        Err(e) => Err(e),
        Ok(assets) => Ok(CompilationView { chunks, assets, modules: graph.modules }),
    }
}

/// Whether `context` is what the plugins of a run start from: the output
/// directory `output_path`, the modules `modules`, and no data.
pub open spec fn hooks_start_from(context: PluginContext, output_path: Seq<char>, modules: Seq<ModuleView>) -> bool {
    &&& context.output_path@ == output_path
    &&& module_views(context.modules@) == modules
    &&& context.data@.len() == 0
}

/// Whether every hook of `plugins` ran well, in order, from the context of
/// a run for `output_path` and `modules`.
pub open spec fn all_hooks_ran(plugins: Seq<Box<dyn Plugin>>, output_path: Seq<char>, modules: Seq<ModuleView>) -> bool {
    exists|before: PluginContext, after: PluginContext|
        hooks_start_from(before, output_path, modules) && #[trigger] hooks_ran(
            plugins,
            plugins.len() as int,
            before,
            after,
        )
}

/// Whether the hooks of `plugins` ran well, in order, from the context of a
/// run for `output_path` and `modules`, up to one that failed with `e`.
pub open spec fn hooks_stopped_with(
    plugins: Seq<Box<dyn Plugin>>,
    output_path: Seq<char>,
    modules: Seq<ModuleView>,
    e: BundlerError,
) -> bool {
    exists|before: PluginContext, after: PluginContext|
        hooks_start_from(before, output_path, modules) && #[trigger] hook_failed(plugins, before, after, e)
}

/// Whether compiling `graph` may fail with `e`: with the first cycle chain
/// of the graph where it has a cycle within reach, else with the failure to
/// emit the bundle where there is one, else only where a plugin is
/// registered.
pub open spec fn failure_allowed(
    graph: ModuleGraphView,
    fallback: Seq<char>,
    plugins: nat,
    e: BundlerErrorView,
) -> bool {
    if graph.digraph().has_reachable_cycle() {
        e matches BundlerErrorView::CircularDependency { modules } && graph.digraph().is_cycle_chain(modules)
            && graph.digraph().first_cycle_chain() == Some(modules)
    } else {
        match compiled(graph, fallback) {
            Err(x) => e == x,
            Ok(_) => plugins > 0,
        }
    }
}

/// A copy of a list of modules.
pub fn clone_modules(modules: &[Module]) -> (copy: Vec<Module>)
    ensures
        module_views(copy@) == module_views(modules@),
{
    let mut copy: Vec<Module> = Vec::new();
    let mut i: usize = 0;
    while i < modules.len()
        invariant
            i <= modules.len(),
            module_views(copy@) == module_views(modules@).take(i as int),
        decreases modules.len() - i,
    {
        let m = modules[i].clone();
        proof {
            let before = module_views(copy@);
            assert(m@ == module_views(modules@)[i as int]);
            assert(module_views(copy@.push(m)) =~= before.push(m@));
            assert(module_views(modules@).take(i + 1) =~= module_views(modules@).take(i as int).push(m@));
        }
        copy.push(m);
        i += 1;
    }
    assert(module_views(modules@).take(i as int) =~= module_views(modules@));
    copy
}

/// The position of the first module with the id `id`.
fn find_module(modules: &[Module], id: &String) -> (r: Option<usize>)
    ensures
        match r {
            Some(i) => is_first_with_id(module_views(modules@), id@, i as int),
            None => forall|i: int| !is_first_with_id(module_views(modules@), id@, i),
        },
{
    let mut i: usize = 0;
    while i < modules.len()
        invariant
            i <= modules.len(),
            forall|j: int| 0 <= j < i ==> module_views(modules@)[j].id != id@,
        decreases modules.len() - i,
    {
        if modules[i].id == *id {
            return Some(i);
        }
        i += 1;
    }
    None
}

/// Drives a run: holds the configuration, the loaders, the plugins and the
/// resolver.
pub struct Compiler {
    config: Config,
    loader_registry: LoaderRegistry,
    plugin_manager: PluginManager,
    resolver: Resolver,
}

impl Compiler {
    /// The entry file of the run, as configured.
    pub closed spec fn entry(&self) -> Seq<char> {
        self.config.entry@
    }

    /// The file name for the asset of an unnamed chunk, as configured.
    pub closed spec fn fallback_filename(&self) -> Seq<char> {
        self.config.output.filename@
    }

    /// The output directory, as configured.
    pub closed spec fn output_path(&self) -> Seq<char> {
        self.config.output.path@
    }

    /// The extensions that resolution tries, as configured.
    pub closed spec fn extensions(&self) -> Seq<Seq<char>> {
        self.resolver.extension_seq()
    }

    /// The registered plugins, oldest first.
    pub closed spec fn plugins(&self) -> Seq<Box<dyn Plugin>> {
        self.plugin_manager.registered()
    }

    /// A compiler for `config`, with the default loaders, no plugins, and a
    /// resolver for the configured extensions.
    pub fn new(config: Config) -> (c: Compiler)
        ensures
            c.entry() == config.entry@,
            c.fallback_filename() == config.output.filename@,
            c.output_path() == config.output.path@,
            c.extensions() == views(config.resolve.extensions@),
            c.plugins().len() == 0,
    {
        let extensions = clone_texts(&config.resolve.extensions);
        Compiler {
            config,
            loader_registry: LoaderRegistry::new(),
            plugin_manager: PluginManager::new(),
            resolver: Resolver::new().with_extensions(extensions),
        }
    }

    /// Registers `plugin` behind the plugins that are registered already,
    /// which stay as they are.
    pub fn add_plugin(&mut self, plugin: Box<dyn Plugin>)
        ensures
            final(self).plugins() == old(self).plugins().push(plugin),
            final(self).plugins().len() == old(self).plugins().len() + 1,
            forall|i: int|
                0 <= i < old(self).plugins().len() ==> #[trigger] final(self).plugins()[i] == old(self).plugins()[i],
            final(self).entry() == old(self).entry(),
            final(self).fallback_filename() == old(self).fallback_filename(),
            final(self).output_path() == old(self).output_path(),
            final(self).extensions() == old(self).extensions(),
    {
        append_item(self.plugin_manager.list(), plugin);
    }

    /// Starts the traversal from the configured entry file. The traversal
    /// that comes back asks the file system question by question and ends
    /// with the module graph, or with the first failure.
    pub fn build_module_graph(&self) -> (t: Traversal)
        ensures
            t@ == TraversalView::start(self.extensions(), self.entry()),
            t@.well_formed(),
    {
        Traversal::start(&self.resolver, self.config.entry.as_str())
    }

    /// The context that the plugins of a run start from: the configured
    /// output directory, a copy of the modules, and no data.
    pub fn plugin_context(&self, modules: &[Module]) -> (context: PluginContext)
        ensures
            context.output_path@ == self.output_path(),
            module_views(context.modules@) == module_views(modules@),
            context.data@.len() == 0,
    {
        let mut context = PluginContext::new(self.config.output.path.clone());
        context.modules = clone_modules(modules);
        context
    }

    /// Compiles a finished module graph: looks for cycles, puts the modules
    /// into chunks, emits the bundle of each chunk, and runs the plugins.
    ///
    /// A cycle that can be reached from a module fails the run before any
    /// chunk or asset is made. Then a bundle that cannot be emitted fails it.
    /// Then the plugins run, in the order of their registration, from the
    /// context that [`Compiler::plugin_context`] makes of the modules; the
    /// first plugin that fails fails the run with its error, and the plugins
    /// behind it do not run. A run that succeeds hands back the main chunk,
    /// its asset, and the modules in the order of the graph; without plugins
    /// nothing else can fail.
    pub fn compile(&mut self, module_graph: ModuleGraph) -> (r: Result<CompilationResult, BundlerError>)
        ensures
            *final(self) == *old(self),
            compilation_view(r) matches Err(e) ==> failure_allowed(
                module_graph@,
                old(self).fallback_filename(),
                old(self).plugins().len(),
                e,
            ),
            compilation_view(r) matches Ok(outcome) ==> !module_graph@.digraph().has_reachable_cycle()
                && compiled(module_graph@, old(self).fallback_filename()) == Ok::<CompilationView, BundlerErrorView>(
                outcome,
            ),
            r matches Ok(result) ==> result.assets.well_formed(),
            r is Ok ==> all_hooks_ran(old(self).plugins(), old(self).output_path(), module_graph@.modules),
            r matches Err(e) ==> (!module_graph@.digraph().has_reachable_cycle() && compiled(
                module_graph@,
                old(self).fallback_filename(),
            ) is Ok ==> hooks_stopped_with(
                old(self).plugins(),
                old(self).output_path(),
                module_graph@.modules,
                e,
            )),
    {
        match module_graph.detect_circular_dependencies() {
            Err(e) => {
                return Err(e);
            },
            Ok(()) => {},
        }
        let modules = module_graph.get_modules();
        assert(module_ids(modules@) =~= module_graph@.digraph().roots);
        let mut chunk_generator = ChunkGenerator::new();
        let chunks = match chunk_generator.generate_chunks(modules) {
            Ok(chunks) => chunks,
            Err(e) => {
                return Err(e);
            },
        };
        assert(chunk_views(chunks@).len() == 1);
        assert(chunks@.len() == 1);
        let ghost expected = assets_of(
            seq![main_chunk(module_graph@.digraph().roots)],
            module_graph@.modules,
            self.fallback_filename(),
            1,
        );
        let assets = match self.generate_assets(chunks.as_slice(), modules) {
            Ok(assets) => assets,
            Err(e) => {
                return Err(e);
            },
        };
        assert(expected == Ok::<Map<Seq<char>, Seq<char>>, BundlerErrorView>(asset_texts(assets@)));
        let mut plugin_context = self.plugin_context(modules);
        let ghost before = plugin_context;
        assert(hooks_start_from(before, self.output_path(), module_graph@.modules));
        match self.plugin_manager.apply_all(&mut plugin_context) {
            Ok(()) => {
                assert(hooks_ran(self.plugins(), self.plugins().len() as int, before, plugin_context));
            },
            Err(e) => {
                assert(hook_failed(self.plugins(), before, plugin_context, e));
                return Err(e);
            },
        }
        Ok(CompilationResult { chunks, assets, modules: clone_modules(modules) })
    }

    /// The dependencies of the module with the text `content`, found by
    /// pattern: imports first, then requires. `path` is named in the error.
    pub fn parse_dependencies(content: &str, path: &str) -> (r: Result<Vec<Dependency>, BundlerError>)
        ensures
            extraction_view(r) == extraction(content@, path@),
    {
        let mut dependencies: Vec<Dependency> = Vec::new();
        assert(dependency_views(dependencies@) =~= Seq::<DependencyView>::empty());
        match capture_groups(IMPORT_PATTERN, content) {
            Some(captures) => {
                collect_requests(&mut dependencies, &captures, DependencyType::Import);
            },
            None => {
                return Err(
                    BundlerError::ParseError { file: String::from_str(path), message: rejection(IMPORT_PATTERN) },
                );
            },
        }
        match capture_groups(REQUIRE_PATTERN, content) {
            Some(captures) => {
                collect_requests(&mut dependencies, &captures, DependencyType::Require);
            },
            None => {
                return Err(
                    BundlerError::ParseError { file: String::from_str(path), message: rejection(REQUIRE_PATTERN) },
                );
            },
        }
        assert(dependency_views(dependencies@) =~= dependencies_in(content@));
        Ok(dependencies)
    }

    /// The text `content` of `module` as the runtime loads it: imports become
    /// calls of the require function, and before the declaration of each
    /// exported function, which stays whole, stands its assignment to the
    /// exports object.
    pub fn transform_module_content(&self, content: &str, module: &Module) -> (r: Result<String, BundlerError>)
        ensures
            text_result(r) == transform_result(content@, module.path@),
    {
        let named = match replace_matches(NAMED_IMPORT_PATTERN, content, Rewrite::NamedImport) {
            Some(t) => t,
            None => {
                return Err(
                    BundlerError::ParseError { file: module.path.clone(), message: rejection(NAMED_IMPORT_PATTERN) },
                );
            },
        };
        let default = match replace_matches(DEFAULT_IMPORT_PATTERN, named.as_str(), Rewrite::DefaultImport) {
            Some(t) => t,
            None => {
                return Err(
                    BundlerError::ParseError {
                        file: module.path.clone(),
                        message: rejection(DEFAULT_IMPORT_PATTERN),
                    },
                );
            },
        };
        match replace_matches(EXPORT_FUNCTION_PATTERN, default.as_str(), Rewrite::ExportFunction) {
            Some(t) => Ok(t),
            None => Err(
                BundlerError::ParseError { file: module.path.clone(), message: rejection(EXPORT_FUNCTION_PATTERN) },
            ),
        }
    }

    /// The text of the bundle for `chunk`: the runtime, the bootstrap call on
    /// the chunk's first entry point, and the table of its modules, an object
    /// that holds the function with the body of each module under the id of
    /// the module, behind a comment with that id.
    pub fn generate_chunk_content(&self, chunk: &Chunk, modules: &[Module]) -> (r: Result<String, BundlerError>)
        ensures
            text_result(r) == bundle_text(chunk@, module_views(modules@)),
    {
        let ghost ids = chunk@.modules;
        let ghost ms = module_views(modules@);
        let mut out = String::from_str(RUNTIME_PRELUDE);
        if chunk.entry_points.len() > 0 {
            assert(chunk@.entry_points[0] == chunk.entry_points@[0]@);
            out.append("'");
            out.append(chunk.entry_points[0].as_str());
            out.append("'");
        } else {
            out.append("0");
        }
        out.append(TABLE_OPEN);
        assert(out@ =~= bundle_head(chunk@));
        let mut i: usize = 0;
        let mut emitted = false;
        assert(out@ =~= bundle_head(chunk@) + Seq::<char>::empty());
        while i < chunk.modules.len()
            invariant
                i <= chunk.modules.len(),
                ids == chunk@.modules,
                ids == views(chunk.modules@),
                ms == module_views(modules@),
                module_table(ids, ms, i as int) matches Ok(table) && out@ == bundle_head(chunk@) + table && emitted
                    == (table.len() > 0),
            decreases chunk.modules.len() - i,
        {
            let module_id = &chunk.modules[i];
            let ghost table = module_table(ids, ms, i as int)->Ok_0;
            assert(ids[i as int] == module_id@);
            match find_module(modules, module_id) {
                Some(k) => {
                    let module = &modules[k];
                    proof {
                        assert forall|j: int| is_first_with_id(ms, module_id@, j) implies j == k by {
                            if j < k {
                                assert(ms[j].id != module_id@);
                            } else if j > k {
                                assert(ms[k as int].id == module_id@);
                            }
                        }
                        assert(module_with_id(ms, module_id@) == Some(ms[k as int]));
                        assert(ms[k as int] == module@);
                    }
                    match self.transform_module_content(module.content.as_str(), module) {
                        Ok(body) => {
                            if emitted {
                                out.append(",\n");
                            }
                            out.append("/* ");
                            out.append(module_id.as_str());
                            out.append(KEY_OPEN);
                            out.append(module_id.as_str());
                            out.append(BODY_OPEN);
                            out.append(body.as_str());
                            out.append(BODY_CLOSE);
                            emitted = true;
                            proof {
                                reveal_strlit("/* ");
                                let entry = table_entry(module_id@, body@);
                                assert(entry.len() >= "/* "@.len());
                                assert(out@ =~= bundle_head(chunk@) + (table + table_separator(table) + entry));
                            }
                        },
                        Err(e) => {
                            proof {
                                lemma_table_failure(ids, ms, i + 1, chunk.modules@.len() as int);
                            }
                            return Err(e);
                        },
                    }
                },
                None => {
                    assert(module_with_id(ms, module_id@) is None);
                },
            }
            i += 1;
        }
        out.append(TABLE_CLOSE);
        assert(out@ =~= bundle_head(chunk@) + module_table(ids, ms, ids.len() as int)->Ok_0 + TABLE_CLOSE@);
        Ok(out)
    }

    /// The text of each asset by file name: for each chunk its bundle, under
    /// the chunk's name with `.js`, or under the configured file name where
    /// the chunk has no name.
    pub fn generate_assets(&self, chunks: &[Chunk], modules: &[Module]) -> (r: Result<TextMap<String>, BundlerError>)
        ensures
            assets_view(r) == assets_of(
                chunk_views(chunks@),
                module_views(modules@),
                self.fallback_filename(),
                chunks@.len() as int,
            ),
            r matches Ok(assets) ==> assets.well_formed(),
    {
        let ghost cs = chunk_views(chunks@);
        let ghost ms = module_views(modules@);
        let ghost fallback = self.fallback_filename();
        let mut assets: TextMap<String> = TextMap::new();
        assert(asset_texts(assets@) =~= Map::<Seq<char>, Seq<char>>::empty());
        let mut i: usize = 0;
        while i < chunks.len()
            invariant
                i <= chunks.len(),
                cs == chunk_views(chunks@),
                ms == module_views(modules@),
                fallback == self.fallback_filename(),
                assets.well_formed(),
                assets_of(cs, ms, fallback, i as int) == Ok::<Map<Seq<char>, Seq<char>>, BundlerErrorView>(
                    asset_texts(assets@),
                ),
            decreases chunks.len() - i,
        {
            let chunk = &chunks[i];
            assert(cs[i as int] == chunk@);
            match self.generate_chunk_content(chunk, modules) {
                Ok(text) => {
                    let filename = match &chunk.name {
                        Some(name) => {
                            let mut f = name.clone();
                            f.append(".js");
                            f
                        },
                        None => self.config.output.filename.clone(),
                    };
                    assert(filename@ == asset_name(chunk@, fallback));
                    let ghost before = assets@;
                    assets.insert(filename, text);
                    assert(asset_texts(assets@) =~= asset_texts(before).insert(filename@, text@));
                },
                Err(e) => {
                    proof {
                        lemma_assets_failure(cs, ms, fallback, i + 1, chunks@.len() as int);
                    }
                    return Err(e);
                },
            }
            i += 1;
        }
        Ok(assets)
    }
}

/// Once an entry of the module table has failed, the table fails the same
/// way however far it goes on.
pub proof fn lemma_table_failure(ids: Seq<Seq<char>>, modules: Seq<ModuleView>, k: int, n: int)
    requires
        0 <= k <= n,
        module_table(ids, modules, k) is Err,
    ensures
        module_table(ids, modules, n) == module_table(ids, modules, k),
    decreases n - k,
{
    if k < n {
        lemma_table_failure(ids, modules, k, n - 1);
    }
}

/// Once the bundle of a chunk has failed, the assets fail the same way
/// however many chunks follow.
pub proof fn lemma_assets_failure(
    chunks: Seq<ChunkView>,
    modules: Seq<ModuleView>,
    fallback: Seq<char>,
    k: int,
    n: int,
)
    requires
        0 <= k <= n,
        assets_of(chunks, modules, fallback, k) is Err,
    ensures
        assets_of(chunks, modules, fallback, n) == assets_of(chunks, modules, fallback, k),
    decreases n - k,
{
    if k < n {
        lemma_assets_failure(chunks, modules, fallback, k, n - 1);
    }
}

} // verus!
