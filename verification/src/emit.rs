//! The text of a bundle, as mathematics: the runtime, the bootstrap call,
//! and the module table, an object that holds the function of each module
//! under the id of the module.

use vstd::prelude::*;
use crate::chunk::ChunkView;
use crate::error::BundlerErrorView;
use crate::module::ModuleView;
use crate::pattern::{pattern_compiles, rejected_message, rewritten, Rewrite};
use crate::text::{lemma_occurs_at_end, lemma_occurs_behind, lemma_occurs_in_longer, occurs_in};

verus! {

/// A named import: `import { a, b } from 'x'`.
pub const NAMED_IMPORT_PATTERN: &'static str = "import\\s+\\{([^}]+)\\}\\s+from\\s+['\"]([^'\"]+)['\"]";

/// A default import: `import a from 'x'`.
pub const DEFAULT_IMPORT_PATTERN: &'static str = "import\\s+(\\w+)\\s+from\\s+['\"]([^'\"]+)['\"]";

/// An exported function: `export function f`.
pub const EXPORT_FUNCTION_PATTERN: &'static str = "export\\s+function\\s+(\\w+)";

/// The runtime that every bundle starts with, up to the argument of the
/// bootstrap call: a cache of instantiated modules keyed by module id, and
/// the function that requires a module, which runs its body on first use
/// and hands out the cached exports from then on.
pub const RUNTIME_PRELUDE: &'static str =
    "(function(modules) {\n  var installedModules = {};\n  function __webpack_require__(moduleId) {\n    if(installedModules[moduleId]) {\n      return installedModules[moduleId].exports;\n    }\n    var module = installedModules[moduleId] = {\n      i: moduleId,\n      l: false,\n      exports: {}\n    };\n    modules[moduleId].call(module.exports, module, module.exports, __webpack_require__);\n    module.l = true;\n    return module.exports;\n  }\n  return __webpack_require__(__webpack_require__.s = ";

/// What stands between the bootstrap argument and the module table: the
/// table is an object, keyed by module id.
pub const TABLE_OPEN: &'static str = ");\n})({";

/// What closes the module table and the bundle.
pub const TABLE_CLOSE: &'static str = "});";

/// What stands between the comment with the id of a module and its key.
pub const KEY_OPEN: &'static str = " */\n'";

/// What opens the body of a module, behind its key.
pub const BODY_OPEN: &'static str = "': function(module, exports, __webpack_require__) {\n";

/// What closes the body of a module.
pub const BODY_CLOSE: &'static str = "\n}";

/// Whether `Regex::new` accepts the three patterns of the module rewrite.
pub open spec fn rewrite_patterns_compile() -> bool {
    &&& pattern_compiles(NAMED_IMPORT_PATTERN@)
    &&& pattern_compiles(DEFAULT_IMPORT_PATTERN@)
    &&& pattern_compiles(EXPORT_FUNCTION_PATTERN@)
}

/// The first pattern of the module rewrite that `Regex::new` rejects.
pub open spec fn first_rejected_rewrite() -> Seq<char> {
    if !pattern_compiles(NAMED_IMPORT_PATTERN@) {
        NAMED_IMPORT_PATTERN@
    } else if !pattern_compiles(DEFAULT_IMPORT_PATTERN@) {
        DEFAULT_IMPORT_PATTERN@
    } else {
        EXPORT_FUNCTION_PATTERN@
    }
}

/// The text of a module as the runtime loads it: named imports, then default
/// imports become calls of the require function, then each exported function
/// becomes an assignment to the exports object and, behind it, the plain
/// declaration of the function.
pub open spec fn transformed(content: Seq<char>) -> Seq<char> {
    let named = rewritten(NAMED_IMPORT_PATTERN@, content, Rewrite::NamedImport);
    let default = rewritten(DEFAULT_IMPORT_PATTERN@, named, Rewrite::DefaultImport);
    rewritten(EXPORT_FUNCTION_PATTERN@, default, Rewrite::ExportFunction)
}

/// What the rewrite of the text of the module at `file` gives: the
/// transformed text, or a parse error that names the first rejected pattern.
pub open spec fn transform_result(content: Seq<char>, file: Seq<char>) -> Result<Seq<char>, BundlerErrorView> {
    if rewrite_patterns_compile() {
        Ok(transformed(content))
    } else {
        Err(BundlerErrorView::ParseError { file, message: rejected_message(first_rejected_rewrite()) })
    }
}

/// The argument of the bootstrap call: the first entry point in quotes, or
/// `0` where the chunk has none.
pub open spec fn bootstrap_argument(entry_points: Seq<Seq<char>>) -> Seq<char> {
    if entry_points.len() > 0 {
        "'"@ + entry_points[0] + "'"@
    } else {
        "0"@
    }
}

/// The bundle up to its module table.
pub open spec fn bundle_head(chunk: ChunkView) -> Seq<char> {
    RUNTIME_PRELUDE@ + bootstrap_argument(chunk.entry_points) + TABLE_OPEN@
}

/// Whether `i` is the position of the first module with the id `id`.
pub open spec fn is_first_with_id(modules: Seq<ModuleView>, id: Seq<char>, i: int) -> bool {
    &&& 0 <= i < modules.len()
    &&& modules[i].id == id
    &&& forall|j: int| 0 <= j < i ==> modules[j].id != id
}

/// The first module with the id `id`, if there is one.
pub open spec fn module_with_id(modules: Seq<ModuleView>, id: Seq<char>) -> Option<ModuleView> {
    if exists|i: int| is_first_with_id(modules, id, i) {
        Some(modules[choose|i: int| is_first_with_id(modules, id, i)])
    } else {
        None
    }
}

/// One entry of the module table: a comment with the id, the id in quotes
/// as the key, and under it the function with the body.
pub open spec fn table_entry(id: Seq<char>, body: Seq<char>) -> Seq<char> {
    "/* "@ + id + KEY_OPEN@ + id + BODY_OPEN@ + body + BODY_CLOSE@
}

/// What separates a new entry from the table so far: nothing for the first
/// entry, a comma and a line break for each one after it.
pub open spec fn table_separator(table: Seq<char>) -> Seq<char> {
    if table.len() > 0 {
        ",\n"@
    } else {
        Seq::empty()
    }
}

/// The module table for the first `n` of the ids `ids`: for each id that a
/// module has, in order, the entry of the first module with that id, keyed
/// by the id. An id without a module adds nothing. The first rewrite that
/// fails is the result.
pub open spec fn module_table(ids: Seq<Seq<char>>, modules: Seq<ModuleView>, n: int) -> Result<
    Seq<char>,
    BundlerErrorView,
>
    decreases n,
{
    if n <= 0 {
        Ok(Seq::empty())
    } else {
        match module_table(ids, modules, n - 1) {
            Err(e) => Err(e),
            Ok(table) => match module_with_id(modules, ids[n - 1]) {
                None => Ok(table),
                Some(m) => match transform_result(m.content, m.path) {
                    Err(e) => Err(e),
                    Ok(body) => Ok(table + table_separator(table) + table_entry(ids[n - 1], body)),
                },
            },
        }
    }
}

/// The text of the bundle for `chunk`, with the bodies of `modules`.
pub open spec fn bundle_text(chunk: ChunkView, modules: Seq<ModuleView>) -> Result<Seq<char>, BundlerErrorView> {
    match module_table(chunk.modules, modules, chunk.modules.len() as int) {
        Err(e) => Err(e),
        Ok(table) => Ok(bundle_head(chunk) + table + TABLE_CLOSE@),
    }
}

/// The file name of the asset for `chunk`: its name with `.js`, or
/// `fallback` where it has none.
pub open spec fn asset_name(chunk: ChunkView, fallback: Seq<char>) -> Seq<char> {
    match chunk.name {
        Some(name) => name + ".js"@,
        None => fallback,
    }
}

/// The assets of the first `n` chunks, by file name. A later chunk with the
/// name of an earlier one takes its place. The first bundle that fails is the
/// result.
pub open spec fn assets_of(chunks: Seq<ChunkView>, modules: Seq<ModuleView>, fallback: Seq<char>, n: int) -> Result<
    Map<Seq<char>, Seq<char>>,
    BundlerErrorView,
>
    decreases n,
{
    if n <= 0 {
        Ok(Map::empty())
    } else {
        match assets_of(chunks, modules, fallback, n - 1) {
            Err(e) => Err(e),
            Ok(assets) => match bundle_text(chunks[n - 1], modules) {
                Err(e) => Err(e),
                Ok(text) => Ok(assets.insert(asset_name(chunks[n - 1], fallback), text)),
            },
        }
    }
}

/// The bundle of a chunk with an entry point starts its run by requiring
/// that entry point: the text begins with the runtime and the call of the
/// require function on the quoted id.
pub proof fn lemma_bootstrap_requires_entry(chunk: ChunkView, modules: Seq<ModuleView>)
    requires
        chunk.entry_points.len() > 0,
        bundle_text(chunk, modules) is Ok,
    ensures
        (RUNTIME_PRELUDE@ + "'"@ + chunk.entry_points[0] + "'"@ + TABLE_OPEN@).is_prefix_of(
            bundle_text(chunk, modules)->Ok_0,
        ),
{
    let table = module_table(chunk.modules, modules, chunk.modules.len() as int)->Ok_0;
    let start = RUNTIME_PRELUDE@ + "'"@ + chunk.entry_points[0] + "'"@ + TABLE_OPEN@;
    let text = bundle_text(chunk, modules)->Ok_0;
    assert(bundle_head(chunk) =~= start);
    assert(text =~= start + (table + TABLE_CLOSE@));
    assert(text.subrange(0, start.len() as int) =~= start);
}

/// Where `Regex::new` accepts the three patterns of the module rewrite, the
/// module table can be made for every list of ids.
pub proof fn lemma_table_is_made(ids: Seq<Seq<char>>, modules: Seq<ModuleView>, n: int)
    requires
        rewrite_patterns_compile(),
    ensures
        module_table(ids, modules, n) is Ok,
    decreases n,
{
    if n > 0 {
        lemma_table_is_made(ids, modules, n - 1);
    }
}

/// Where `Regex::new` accepts the three patterns of the module rewrite, the
/// bundle of every chunk can be made.
pub proof fn lemma_bundle_is_made(chunk: ChunkView, modules: Seq<ModuleView>)
    requires
        rewrite_patterns_compile(),
    ensures
        bundle_text(chunk, modules) is Ok,
{
    lemma_table_is_made(chunk.modules, modules, chunk.modules.len() as int);
}

/// The bundle boots its entry module. Where the three patterns of the
/// module rewrite are accepted and the first entry point of the chunk is
/// one of its modules, the bundle is made; it begins with the runtime and
/// the one call of the require function, on the quoted id of that entry
/// point; and its table holds the function of the entry module under that
/// id, for the call to find.
pub proof fn lemma_bundle_boots_entry(chunk: ChunkView, modules: Seq<ModuleView>, e: int)
    requires
        rewrite_patterns_compile(),
        chunk.entry_points.len() > 0,
        0 <= e < chunk.modules.len(),
        chunk.modules[e] == chunk.entry_points[0],
        module_with_id(modules, chunk.entry_points[0]) is Some,
    ensures
        bundle_text(chunk, modules) is Ok,
        (RUNTIME_PRELUDE@ + "'"@ + chunk.entry_points[0] + "'"@ + TABLE_OPEN@).is_prefix_of(
            bundle_text(chunk, modules)->Ok_0,
        ),
        occurs_in(
            bundle_text(chunk, modules)->Ok_0,
            table_entry(
                chunk.entry_points[0],
                transformed(module_with_id(modules, chunk.entry_points[0])->Some_0.content),
            ),
        ),
{
    lemma_bundle_is_made(chunk, modules);
    lemma_bootstrap_requires_entry(chunk, modules);
    lemma_bundle_is_keyed(chunk, modules, e);
}

/// The module table is keyed by module id: where it can be made, it holds,
/// for each of the first `n` ids that a module has, the entry that binds
/// the id to the function with the body of that module.
pub proof fn lemma_table_is_keyed(ids: Seq<Seq<char>>, modules: Seq<ModuleView>, n: int, i: int)
    requires
        0 <= i < n,
        module_table(ids, modules, n) is Ok,
        module_with_id(modules, ids[i]) is Some,
    ensures
        rewrite_patterns_compile(),
        occurs_in(
            module_table(ids, modules, n)->Ok_0,
            table_entry(ids[i], transformed(module_with_id(modules, ids[i])->Some_0.content)),
        ),
    decreases n,
{
    let table = module_table(ids, modules, n - 1)->Ok_0;
    let whole = module_table(ids, modules, n)->Ok_0;
    if i == n - 1 {
        let m = module_with_id(modules, ids[i])->Some_0;
        let entry = table_entry(ids[i], transformed(m.content));
        lemma_occurs_at_end(table + table_separator(table), entry);
    } else {
        lemma_table_is_keyed(ids, modules, n - 1, i);
        let m = module_with_id(modules, ids[i])->Some_0;
        let entry = table_entry(ids[i], transformed(m.content));
        if module_with_id(modules, ids[n - 1]) is Some {
            let last = module_with_id(modules, ids[n - 1])->Some_0;
            let tail = table_separator(table) + table_entry(ids[n - 1], transformed(last.content));
            assert(whole =~= table + tail);
            lemma_occurs_in_longer(table, tail, entry);
        }
    }
}

/// The bundle of a chunk holds, for each module id of the chunk that a
/// module has, the entry that binds the id to the function with the body of
/// that module; so the runtime finds the function of a module under its id.
pub proof fn lemma_bundle_is_keyed(chunk: ChunkView, modules: Seq<ModuleView>, i: int)
    requires
        0 <= i < chunk.modules.len(),
        bundle_text(chunk, modules) is Ok,
        module_with_id(modules, chunk.modules[i]) is Some,
    ensures
        occurs_in(
            bundle_text(chunk, modules)->Ok_0,
            table_entry(
                chunk.modules[i],
                transformed(module_with_id(modules, chunk.modules[i])->Some_0.content),
            ),
        ),
{
    let n = chunk.modules.len() as int;
    let table = module_table(chunk.modules, modules, n)->Ok_0;
    let entry = table_entry(
        chunk.modules[i],
        transformed(module_with_id(modules, chunk.modules[i])->Some_0.content),
    );
    lemma_table_is_keyed(chunk.modules, modules, n, i);
    lemma_occurs_in_longer(table, TABLE_CLOSE@, entry);
    lemma_occurs_behind(bundle_head(chunk), table + TABLE_CLOSE@, entry);
    assert(bundle_text(chunk, modules)->Ok_0 =~= bundle_head(chunk) + (table + TABLE_CLOSE@));
}

} // verus!
