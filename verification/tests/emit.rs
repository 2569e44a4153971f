use bundler_core::chunk::{Chunk, ChunkType};
use bundler_core::compiler::Compiler;
use bundler_core::config::Config;
use bundler_core::dependency::DependencyType;
use bundler_core::emit::RUNTIME_PRELUDE;
use bundler_core::extract::collect_requests;
use bundler_core::module::Module;
use bundler_core::pattern::Rewrite;

fn compiler() -> Compiler {
    Compiler::new(Config::default())
}

fn module(id: &str, content: &str) -> Module {
    Module::new(id.to_string(), id.to_string(), content.to_string())
}

#[test]
fn named_import_becomes_a_require() {
    let c = compiler();
    let m = module("/a.js", "");
    let out = c.transform_module_content("import { a, b } from \"./x\";\nrun();", &m).unwrap();
    assert_eq!(out, "const {  a, b  } = __webpack_require__('./x');;\nrun();");
}

#[test]
fn default_import_becomes_a_require() {
    let c = compiler();
    let m = module("/a.js", "");
    let out = c.transform_module_content("import lib from './lib'\nlib()", &m).unwrap();
    assert_eq!(out, "const lib = __webpack_require__('./lib');\nlib()");
}

#[test]
fn exported_function_is_assigned_to_exports() {
    let c = compiler();
    let m = module("/a.js", "");
    let out = c.transform_module_content("export function go(x) { return x; }", &m).unwrap();
    assert_eq!(out, "exports.go = go;\nfunction go(x) { return x; }");
    assert!(!out.contains("export "));
}

#[test]
fn exported_function_keeps_its_declaration_whole() {
    let c = compiler();
    let m = module("/a.js", "");
    let out = c.transform_module_content("export function helper() {}", &m).unwrap();
    assert_eq!(out, "exports.helper = helper;\nfunction helper() {}");
    assert!(out.contains("function helper() {}"));
    assert!(out.contains("exports.helper = helper"));
    assert!(!out.contains("export "));
}

#[test]
fn text_without_patterns_is_unchanged() {
    let c = compiler();
    let m = module("/a.js", "");
    let text = "const a = require('./b');\nmodule.exports = a;\n";
    assert_eq!(c.transform_module_content(text, &m).unwrap(), text);
}

#[test]
fn rewrite_reaches_matching_text_in_comments_too() {
    let c = compiler();
    let m = module("/a.js", "");
    let out = c.transform_module_content("// export function hidden", &m).unwrap();
    assert_eq!(out, "// exports.hidden = hidden;\nfunction hidden");
}

#[test]
fn rendered_replacements() {
    let groups = vec![Some("whole".to_string()), Some("one".to_string()), Some("two".to_string())];
    assert_eq!(Rewrite::NamedImport.render(&groups), "const { one } = __webpack_require__('two');");
    assert_eq!(Rewrite::DefaultImport.render(&groups), "const one = __webpack_require__('two');");
    assert_eq!(Rewrite::ExportFunction.render(&groups), "exports.one = one;\nfunction one");
    assert_eq!(Rewrite::QuoteKey.render(&groups), "\"one\":");
    assert_eq!(Rewrite::Remove.render(&groups), "");
    let short = vec![Some("whole".to_string()), None];
    assert_eq!(Rewrite::DefaultImport.render(&short), "const  = __webpack_require__('');");
}

#[test]
fn bundle_of_one_module_is_exact() {
    let c = compiler();
    let mut chunk = Chunk::new("main".to_string(), ChunkType::Entry);
    chunk.add_module("entry:/p/a.js".to_string());
    chunk.add_entry_point("entry:/p/a.js".to_string());
    let modules = vec![module("entry:/p/a.js", "run();")];
    let text = c.generate_chunk_content(&chunk, &modules).unwrap();
    let expected = "(function(modules) {\n  var installedModules = {};\n  function __webpack_require__(moduleId) {\n    if(installedModules[moduleId]) {\n      return installedModules[moduleId].exports;\n    }\n    var module = installedModules[moduleId] = {\n      i: moduleId,\n      l: false,\n      exports: {}\n    };\n    modules[moduleId].call(module.exports, module, module.exports, __webpack_require__);\n    module.l = true;\n    return module.exports;\n  }\n  return __webpack_require__(__webpack_require__.s = 'entry:/p/a.js');\n})({/* entry:/p/a.js */\n'entry:/p/a.js': function(module, exports, __webpack_require__) {\nrun();\n}});";
    assert_eq!(text, expected);
}

#[test]
fn bundle_keys_each_module_by_its_id_and_skips_unknown_ids() {
    let c = compiler();
    let mut chunk = Chunk::new("main".to_string(), ChunkType::Entry);
    chunk.add_module("ghost".to_string());
    chunk.add_module("a".to_string());
    chunk.add_module("phantom".to_string());
    chunk.add_module("b".to_string());
    let modules = vec![module("b", "B"), module("a", "A"), module("a", "second")];
    let text = c.generate_chunk_content(&chunk, &modules).unwrap();
    let table = "/* a */\n'a': function(module, exports, __webpack_require__) {\nA\n},\n/* b */\n'b': function(module, exports, __webpack_require__) {\nB\n}";
    assert_eq!(text, format!("{}0);\n}})({{{}}});", RUNTIME_PRELUDE, table));
}

#[test]
fn bundle_without_entry_point_boots_with_zero() {
    let c = compiler();
    let chunk = Chunk::new("main".to_string(), ChunkType::Entry);
    let text = c.generate_chunk_content(&chunk, &[]).unwrap();
    assert!(text.ends_with("return __webpack_require__(__webpack_require__.s = 0);\n})({});"));
    assert!(text.starts_with("(function(modules) {\n  var installedModules = {};\n"));
}

#[test]
fn assets_are_named_after_chunks_or_by_the_fallback() {
    let c = Compiler::new(Config::default());
    let mut named = Chunk::new("x".to_string(), ChunkType::Entry);
    named.name = Some("app".to_string());
    let unnamed = Chunk::new("y".to_string(), ChunkType::Normal);
    let mut again = Chunk::new("z".to_string(), ChunkType::Normal);
    again.name = Some("app".to_string());
    again.add_module("m".to_string());
    let modules = vec![module("m", "M")];
    let assets = c.generate_assets(&[named, unnamed, again], &modules).unwrap();
    assert_eq!(assets.len(), 2);
    assert_eq!(assets.key_at(0), "app.js");
    assert_eq!(assets.key_at(1), "bundle.js");
    assert!(assets.get("app.js").unwrap().contains("/* m */"));
    assert!(!assets.get("bundle.js").unwrap().contains("/* m */"));
    assert!(assets.get("main.js").is_none());
}

#[test]
fn dependencies_are_imports_first_then_requires() {
    let text = "const z = require('./z');\nimport a from './a';\nimport { b } from \"./b\";\nrequire(\"y\")\n";
    let deps = Compiler::parse_dependencies(text, "/p/x.js").unwrap();
    let seen: Vec<(String, DependencyType)> = deps.iter().map(|d| (d.request.clone(), d.dependency_type)).collect();
    assert_eq!(
        seen,
        vec![
            ("./a".to_string(), DependencyType::Import),
            ("./b".to_string(), DependencyType::Import),
            ("./z".to_string(), DependencyType::Require),
            ("y".to_string(), DependencyType::Require),
        ]
    );
    assert!(deps.iter().all(|d| d.range.is_none()));
}

#[test]
fn extraction_misses_dynamic_imports_and_misfires_in_comments() {
    let deps = Compiler::parse_dependencies("import('./lazy');\n// require('./commented')\n", "/p/x.js").unwrap();
    assert_eq!(deps.len(), 1);
    assert_eq!(deps[0].request, "./commented");
}

#[test]
fn matches_without_a_first_group_give_no_dependency() {
    let captures = vec![
        vec![Some("require('a')".to_string()), Some("a".to_string())],
        vec![Some("whole".to_string())],
        vec![Some("whole".to_string()), None],
        vec![Some("require('b')".to_string()), Some("b".to_string()), Some("extra".to_string())],
    ];
    let mut out = Vec::new();
    collect_requests(&mut out, &captures, DependencyType::Require);
    let requests: Vec<&str> = out.iter().map(|d| d.request.as_str()).collect();
    assert_eq!(requests, vec!["a", "b"]);
}
