use bundler_core::bundler::{Bundler, OutputFile};
use bundler_core::compiler::{CompilationResult, Compiler};
use bundler_core::config::Config;
use bundler_core::dependency::DependencyType;
use bundler_core::error::BundlerError;
use bundler_core::fs::{FsAnswer, FsQuery};
use bundler_core::module::{ModuleGraph, ModuleType};
use bundler_core::traversal::{Traversal, TraversalStep};

/// A file system in memory: files with their text, under absolute paths.
struct MemoryFs {
    files: Vec<(String, String)>,
}

impl MemoryFs {
    fn new(files: &[(&str, &str)]) -> MemoryFs {
        MemoryFs { files: files.iter().map(|(p, t)| (p.to_string(), t.to_string())).collect() }
    }

    fn canonical(&self, path: &str) -> String {
        let mut parts: Vec<&str> = Vec::new();
        for part in path.split('/') {
            match part {
                "" | "." => {}
                ".." => {
                    parts.pop();
                }
                other => parts.push(other),
            }
        }
        format!("/{}", parts.join("/"))
    }

    fn text(&self, path: &str) -> Option<String> {
        let wanted = self.canonical(path);
        self.files.iter().find(|(p, _)| *p == wanted).map(|(_, t)| t.clone())
    }

    fn is_dir(&self, path: &str) -> bool {
        let prefix = format!("{}/", self.canonical(path).trim_end_matches('/'));
        self.files.iter().any(|(p, _)| p.starts_with(&prefix))
    }

    fn answer(&self, query: &FsQuery) -> FsAnswer {
        match query {
            FsQuery::IsFile(p) => FsAnswer::Flag(self.text(p).is_some()),
            FsQuery::Exists(p) => FsAnswer::Flag(self.text(p).is_some() || self.is_dir(p)),
            FsQuery::IsDir(p) => FsAnswer::Flag(self.is_dir(p)),
            FsQuery::Canonicalize(p) => {
                if self.text(p).is_some() || self.is_dir(p) {
                    FsAnswer::Path(self.canonical(p))
                } else {
                    FsAnswer::Failed(format!("no such file: {}", p))
                }
            }
            FsQuery::ReadToString(p) => match self.text(p) {
                Some(t) => FsAnswer::Text(t),
                None => FsAnswer::Failed(format!("cannot read: {}", p)),
            },
        }
    }
}

fn traverse(fs: &MemoryFs, mut traversal: Traversal) -> Result<ModuleGraph, BundlerError> {
    loop {
        let query = traversal.query();
        match traversal.advance(fs.answer(&query)) {
            TraversalStep::Ask(next) => traversal = next,
            TraversalStep::Done(result) => return result,
        }
    }
}

fn compile(fs: &MemoryFs, entry: &str) -> Result<CompilationResult, BundlerError> {
    let mut compiler = Compiler::new(Config::default().with_entry(entry).with_output_path("/proj/dist"));
    let graph = traverse(fs, compiler.build_module_graph())?;
    compiler.compile(graph)
}

/// Runs the bundler as a caller with a file system does: answers the
/// questions of its traversal, and takes the files that it hands back.
fn run(fs: &MemoryFs, bundler: &mut Bundler) -> Result<Vec<OutputFile>, BundlerError> {
    let graph = traverse(fs, bundler.compiler().build_module_graph())?;
    bundler.run(graph)
}

#[test]
fn test_basic_bundling() {
    let fs = MemoryFs::new(&[
        (
            "/tmp/project/index.js",
            "\n            import { helper } from './helper.js';\n            console.log('Hello from bundler!');\n            helper();\n        ",
        ),
        (
            "/tmp/project/helper.js",
            "\n            export function helper() {\n                console.log('Helper function called');\n            }\n        ",
        ),
    ]);

    let config = Config::default().with_entry("/tmp/project/index.js").with_output_path("/tmp/project/dist");

    let mut bundler = Bundler::new(config).unwrap();
    let result = run(&fs, &mut bundler);

    assert!(result.is_ok());
}

#[test]
fn bundler_hands_back_the_bundle_as_a_file_in_the_output_directory() {
    let fs = MemoryFs::new(&[
        ("/proj/index.js", "import { helper } from './helper.js';\nhelper();\n"),
        ("/proj/helper.js", "export function helper() {}\n"),
    ]);
    let mut bundler = Bundler::new(Config::default().with_entry("/proj/index.js").with_output_path("/out")).unwrap();
    let files = run(&fs, &mut bundler).unwrap();
    assert_eq!(files.len(), 1);
    assert_eq!(files[0].path, "/out/main.js");
    assert!(files[0].content.contains("exports.helper = helper;\nfunction helper() {}"));
}

#[test]
fn entry_with_one_import_gives_two_modules_one_chunk_one_asset() {
    let fs = MemoryFs::new(&[
        ("/proj/index.js", "import { helper } from './helper.js';\nhelper();\n"),
        ("/proj/helper.js", "export function helper() {\n  return 1;\n}\n"),
    ]);
    let result = compile(&fs, "/proj/index.js").unwrap();

    assert_eq!(result.modules.len(), 2);
    assert_eq!(result.modules[0].id, "/proj/helper.js");
    assert_eq!(result.modules[0].module_type, ModuleType::JavaScript);
    assert_eq!(result.modules[1].id, "entry:/proj/index.js");
    assert_eq!(result.modules[1].path, "/proj/index.js");
    assert_eq!(result.modules[1].dependencies.len(), 1);
    assert_eq!(result.modules[1].dependencies[0].request, "./helper.js");
    assert_eq!(result.modules[1].dependencies[0].dependency_type, DependencyType::Import);

    assert_eq!(result.chunks.len(), 1);
    assert_eq!(result.chunks[0].id, "main");
    assert_eq!(result.chunks[0].name, Some("main".to_string()));
    assert_eq!(result.chunks[0].modules, vec!["/proj/helper.js".to_string(), "entry:/proj/index.js".to_string()]);
    assert_eq!(result.chunks[0].entry_points, vec!["entry:/proj/index.js".to_string()]);

    assert_eq!(result.assets.len(), 1);
    let bundle = result.assets.get("main.js").unwrap();
    assert!(bundle.contains(
        "/* /proj/helper.js */\n'/proj/helper.js': function(module, exports, __webpack_require__) {\n"
    ));
    assert!(bundle.contains(
        "/* entry:/proj/index.js */\n'entry:/proj/index.js': function(module, exports, __webpack_require__) {\n"
    ));
    assert!(bundle.contains("})({/* /proj/helper.js */"));
    assert!(bundle.ends_with("\n}});"));
    assert!(bundle.contains("const {  helper  } = __webpack_require__('./helper.js');;\nhelper();"));
    assert!(bundle.contains("exports.helper = helper;\nfunction helper() {\n  return 1;\n}"));
    assert!(bundle.contains("return __webpack_require__(__webpack_require__.s = 'entry:/proj/index.js');"));
    assert!(!bundle.contains("import {"));
}

#[test]
fn two_files_that_require_each_other_fail_with_a_cycle() {
    let fs = MemoryFs::new(&[
        ("/proj/a.js", "const b = require('./b.js');\n"),
        ("/proj/b.js", "const a = require('./a.js');\n"),
    ]);
    match compile(&fs, "/proj/a.js") {
        Err(BundlerError::CircularDependency { modules }) => {
            assert_eq!(modules, vec!["/proj/b.js".to_string(), "entry:/proj/a.js".to_string()]);
        }
        Err(other) => panic!("expected a cycle, got {:?}", other),
        Ok(_) => panic!("expected a cycle, got a bundle"),
    }
}

#[test]
fn cycle_behind_the_entry_fails_too() {
    let fs = MemoryFs::new(&[
        ("/proj/main.js", "require('./a.js');\n"),
        ("/proj/a.js", "require('./b.js');\n"),
        ("/proj/b.js", "require('./a.js');\n"),
    ]);
    match compile(&fs, "/proj/main.js") {
        Err(BundlerError::CircularDependency { modules }) => {
            assert_eq!(modules, vec!["/proj/b.js".to_string(), "/proj/a.js".to_string()]);
        }
        Err(other) => panic!("expected a cycle, got {:?}", other),
        Ok(_) => panic!("expected a cycle, got a bundle"),
    }
}

#[test]
fn two_specifiers_for_one_file_give_one_module() {
    let fs = MemoryFs::new(&[
        ("/proj/index.js", "require('./lib/util.js');\nrequire('./lib/../lib/util');\nrequire('./other.js');\n"),
        ("/proj/other.js", "require('./lib/util.js');\n"),
        ("/proj/lib/util.js", "module.exports = 1;\n"),
    ]);
    let compiler = Compiler::new(Config::default().with_entry("/proj/index.js"));
    let graph = traverse(&fs, compiler.build_module_graph()).unwrap();
    let paths: Vec<&str> = graph.get_modules().iter().map(|m| m.path.as_str()).collect();
    assert_eq!(paths, vec!["/proj/lib/util.js", "/proj/other.js", "/proj/index.js"]);
    assert!(graph.detect_circular_dependencies().is_ok());
}

#[test]
fn dependency_that_does_not_resolve_is_skipped() {
    let fs = MemoryFs::new(&[("/proj/index.js", "require('./missing');\nrequire('./there');\n"), ("/proj/there.js", "")]);
    let result = compile(&fs, "/proj/index.js").unwrap();
    assert_eq!(result.modules.len(), 2);
    assert_eq!(result.modules[1].dependencies.len(), 2);
    assert_eq!(result.modules[1].dependencies[0].request, "./missing");
    assert_eq!(result.modules[1].dependencies[0].dependency_type, DependencyType::Require);
    assert_eq!(result.modules[0].path, "/proj/there.js");
}

#[test]
fn missing_entry_is_an_io_failure() {
    let fs = MemoryFs::new(&[]);
    match compile(&fs, "/proj/index.js") {
        Err(BundlerError::Io(message)) => assert_eq!(message, "no such file: /proj/index.js"),
        Err(other) => panic!("expected an io failure, got {:?}", other),
        Ok(_) => panic!("expected an io failure, got a bundle"),
    }
}

#[test]
fn dependency_on_a_directory_leads_to_its_index_file() {
    let fs = MemoryFs::new(&[
        ("/proj/index.js", "require('./lib');\nrequire('./empty');\n"),
        ("/proj/lib/index.ts", "export function lib() {}\n"),
        ("/proj/empty/readme.md", ""),
    ]);
    let result = compile(&fs, "/proj/index.js").unwrap();
    assert_eq!(result.modules.len(), 2);
    assert_eq!(result.modules[0].path, "/proj/lib/index.ts");
    assert_eq!(result.modules[0].module_type, ModuleType::TypeScript);
    assert_eq!(result.modules[1].dependencies.len(), 2);
}

#[test]
fn file_that_cannot_be_read_is_an_io_failure() {
    let compiler = Compiler::new(Config::default().with_entry("/proj/index.js"));
    let mut traversal = compiler.build_module_graph();
    let result = loop {
        let reply = match traversal.query() {
            FsQuery::Canonicalize(p) => FsAnswer::Path(p),
            FsQuery::ReadToString(_) => FsAnswer::Failed("permission denied".to_string()),
            _ => FsAnswer::Flag(false),
        };
        match traversal.advance(reply) {
            TraversalStep::Ask(next) => traversal = next,
            TraversalStep::Done(result) => break result,
        }
    };
    match result {
        Err(BundlerError::Io(message)) => assert_eq!(message, "permission denied"),
        Err(other) => panic!("expected an io failure, got {:?}", other),
        Ok(_) => panic!("expected an io failure, got a graph"),
    }
}

#[test]
fn typescript_entry_resolves_extensionless_imports_in_order() {
    let fs = MemoryFs::new(&[
        ("/proj/main.ts", "import x from './x';\n"),
        ("/proj/x.ts", "export function x() {}\n"),
        ("/proj/x.json", "{}"),
    ]);
    let result = compile(&fs, "/proj/main.ts").unwrap();
    assert_eq!(result.modules.len(), 2);
    assert_eq!(result.modules[0].path, "/proj/x.ts");
    assert_eq!(result.modules[0].module_type, ModuleType::TypeScript);
    assert_eq!(result.modules[1].module_type, ModuleType::TypeScript);
}
