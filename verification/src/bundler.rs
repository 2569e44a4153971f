//! The bundler: a compiler and the place where its assets go.

use vstd::prelude::*;
use vstd::string::*;
use crate::compiler::{
    all_hooks_ran, asset_texts, compiled, failure_allowed, hooks_stopped_with, Compiler,
};
use crate::config::Config;
use crate::error::BundlerError;
use crate::module::ModuleGraph;
use crate::path::{join_path, path_join};
use crate::text::views;
use crate::text_map::{lemma_position, position, TextMap};

verus! {

/// A file that is to be written: where, and with what text.
#[derive(Debug)]
pub struct OutputFile {
    pub path: String,
    pub content: String,
}

/// Whether `file` is one of the assets, under its file name in `dir`.
pub open spec fn is_asset_file(file: OutputFile, dir: Seq<char>, assets: Map<Seq<char>, Seq<char>>) -> bool {
    exists|name: Seq<char>| #[trigger] assets.contains_pair(name, file.content@) && file.path@ == path_join(dir, name)
}

/// Whether one of `files` holds `text` at `path`.
pub open spec fn has_file(files: Seq<OutputFile>, path: Seq<char>, text: Seq<char>) -> bool {
    exists|i: int| 0 <= i < files.len() && (#[trigger] files[i]).path@ == path && files[i].content@ == text
}

/// Whether `files` are the assets, each under its file name in the
/// directory `dir`: every file is an asset, and every asset is a file.
pub open spec fn files_hold(files: Seq<OutputFile>, dir: Seq<char>, assets: Map<Seq<char>, Seq<char>>) -> bool {
    &&& forall|i: int| 0 <= i < files.len() ==> is_asset_file(#[trigger] files[i], dir, assets)
    &&& forall|name: Seq<char>| #[trigger]
        assets.dom().contains(name) ==> has_file(files, path_join(dir, name), assets[name])
}

/// Runs a compilation and says which files its assets become. Writing them
/// is the caller's part.
pub struct Bundler {
    config: Config,
    compiler: Compiler,
}

impl Bundler {
    /// The output directory, as configured.
    pub closed spec fn output_path(&self) -> Seq<char> {
        self.config.output.path@
    }

    /// The entry file, as configured.
    pub closed spec fn entry(&self) -> Seq<char> {
        self.config.entry@
    }

    /// The compiler of this bundler.
    pub closed spec fn compiler_spec(&self) -> Compiler {
        self.compiler
    }

    /// A bundler for `config`. Never fails.
    pub fn new(config: Config) -> (r: Result<Bundler, BundlerError>)
        ensures
            r matches Ok(b) && b.output_path() == config.output.path@ && b.entry() == config.entry@
                && b.compiler_spec().entry() == config.entry@ && b.compiler_spec().fallback_filename()
                == config.output.filename@ && b.compiler_spec().extensions() == views(config.resolve.extensions@)
                && b.compiler_spec().plugins().len() == 0,
    {
        let copy = Config {
            entry: config.entry.clone(),
            output: crate::config::OutputConfig {
                path: config.output.path.clone(),
                filename: config.output.filename.clone(),
                chunk_filename: config.output.chunk_filename.clone(),
            },
            module: config.module.clone(),
            resolve: crate::config::ResolveConfig {
                extensions: crate::text::clone_texts(&config.resolve.extensions),
                alias: config.resolve.alias.clone(),
            },
            plugins: crate::text::clone_texts(&config.plugins),
            mode: config.mode,
        };
        let compiler = Compiler::new(copy);
        Ok(Bundler { config, compiler })
    }

    /// The output directory, as configured.
    pub fn output_directory(&self) -> (dir: &str)
        ensures
            dir@ == self.output_path(),
    {
        self.config.output.path.as_str()
    }

    /// The compiler of this bundler.
    pub fn compiler(&mut self) -> (c: &mut Compiler)
        ensures
            *c == old(self).compiler_spec(),
            *final(c) == final(self).compiler_spec(),
            final(self).output_path() == old(self).output_path(),
            final(self).entry() == old(self).entry(),
    {
        &mut self.compiler
    }

    /// Compiles the finished module graph, which runs the plugins, and says
    /// which files are to be written: one file for each asset of the
    /// compilation, under its file name in the output directory. Fails as
    /// the compilation fails.
    pub fn run(&mut self, module_graph: ModuleGraph) -> (r: Result<Vec<OutputFile>, BundlerError>)
        ensures
            final(self).output_path() == old(self).output_path(),
            final(self).entry() == old(self).entry(),
            final(self).compiler_spec() == old(self).compiler_spec(),
            r matches Err(e) ==> failure_allowed(
                module_graph@,
                old(self).compiler_spec().fallback_filename(),
                old(self).compiler_spec().plugins().len(),
                e@,
            ),
            r matches Ok(files) ==> compiled(module_graph@, old(self).compiler_spec().fallback_filename())
                matches Ok(outcome) && files_hold(files@, old(self).output_path(), outcome.assets)
                && outcome.assets.dom().finite() && files@.len() == outcome.assets.dom().len(),
            r is Ok ==> all_hooks_ran(
                old(self).compiler_spec().plugins(),
                old(self).compiler_spec().output_path(),
                module_graph@.modules,
            ),
            r matches Err(e) ==> (!module_graph@.digraph().has_reachable_cycle() && compiled(
                module_graph@,
                old(self).compiler_spec().fallback_filename(),
            ) is Ok ==> hooks_stopped_with(
                old(self).compiler_spec().plugins(),
                old(self).compiler_spec().output_path(),
                module_graph@.modules,
                e,
            )),
    {
        let result = match self.compiler.compile(module_graph) {
            Ok(result) => result,
            Err(e) => {
                return Err(e);
            },
        };
        let files = self.asset_files(&result.assets);
        proof {
            let outcome = compiled(module_graph@, old(self).compiler_spec().fallback_filename())->Ok_0;
            let assets = result.assets;
            let dir = self.output_path();
            assets.lemma_shape();
            assets.lemma_count();
            assert(outcome.assets == asset_texts(assets@));
            assert(outcome.assets.dom() =~= assets@.dom());
            assert forall|i: int| 0 <= i < files@.len() implies is_asset_file(
                #[trigger] files@[i],
                dir,
                outcome.assets,
            ) by {
                let name = assets.key_seq()[i];
                assert(assets@.contains_pair(name, assets.value_seq()[i]));
                assert(outcome.assets.contains_pair(name, files@[i].content@));
            }
            assert forall|name: Seq<char>| #[trigger] outcome.assets.dom().contains(name) implies has_file(
                files@,
                path_join(dir, name),
                outcome.assets[name],
            ) by {
                assert(assets@.dom().contains(name));
                lemma_position(assets.key_seq(), name);
                let i = position(assets.key_seq(), name);
                assert(assets@.contains_pair(assets.key_seq()[i], assets.value_seq()[i]));
                assert(files@[i].path@ == path_join(dir, name));
            }
        }
        Ok(files)
    }

    /// The files that `assets` become: each asset under its file name in the
    /// output directory, in the order of the assets.
    pub fn asset_files(&self, assets: &TextMap<String>) -> (files: Vec<OutputFile>)
        ensures
            files@.len() == assets.key_seq().len(),
            forall|i: int| 0 <= i < files@.len() ==> (#[trigger] files@[i]).path@ == path_join(
                self.output_path(),
                assets.key_seq()[i],
            ) && files@[i].content@ == assets.value_seq()[i]@,
    {
        let mut files: Vec<OutputFile> = Vec::new();
        let n = assets.len();
        let mut i: usize = 0;
        while i < n
            invariant
                i <= n,
                n == assets.key_seq().len(),
                n == assets.value_seq().len(),
                files@.len() == i,
                forall|k: int| 0 <= k < i ==> (#[trigger] files@[k]).path@ == path_join(
                    self.output_path(),
                    assets.key_seq()[k],
                ) && files@[k].content@ == assets.value_seq()[k]@,
            decreases n - i,
        {
            let path = join_path(self.config.output.path.as_str(), assets.key_at(i).as_str());
            let content = assets.value_at(i).clone();
            files.push(OutputFile { path, content });
            i += 1;
        }
        files
    }
}

} // verus!
