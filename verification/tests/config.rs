use bundler_core::bundler::Bundler;
use bundler_core::config::{define_config, Config, ConfigFormat, Mode};
use bundler_core::error::BundlerError;
use bundler_core::module::{Module, ModuleGraph};
use bundler_core::text_map::TextMap;
use bundler_core::types::{generate_types, EXAMPLE_TYPES_PATH, PACKAGE_TYPES_PATH};

#[test]
fn default_configuration() {
    let c = Config::default();
    assert_eq!(c.entry, "./src/index.js");
    assert_eq!(c.output.path, "./dist");
    assert_eq!(c.output.filename, "bundle.js");
    assert_eq!(c.output.chunk_filename, "[name].chunk.js");
    assert_eq!(c.module.rules.len(), 2);
    assert_eq!(c.module.rules[0].test, "\\.js$");
    assert_eq!(c.module.rules[0].use_loader, "javascript");
    assert_eq!(c.module.rules[0].exclude, Some("node_modules".to_string()));
    assert_eq!(c.module.rules[1].test, "\\.ts$");
    assert_eq!(c.module.rules[1].use_loader, "typescript");
    assert_eq!(c.module.rules[1].exclude, Some("node_modules".to_string()));
    assert_eq!(c.resolve.extensions, vec![".js".to_string(), ".ts".to_string(), ".json".to_string()]);
    assert!(c.resolve.alias.is_empty());
    assert!(c.plugins.is_empty());
    assert_eq!(c.mode, Mode::Development);
}

#[test]
fn entry_and_output_path_can_be_set() {
    let c = define_config(Config::default().with_entry("/p/main.ts").with_output_path("/p/out"));
    assert_eq!(c.entry, "/p/main.ts");
    assert_eq!(c.output.path, "/p/out");
    assert_eq!(c.output.filename, "bundle.js");
}

#[test]
fn format_follows_the_file_name() {
    assert_eq!(Config::format_for("bundler.config.ts"), ConfigFormat::TypeScript);
    assert_eq!(Config::format_for("bundler.config.mts"), ConfigFormat::TypeScript);
    assert_eq!(Config::format_for("bundler.config.json"), ConfigFormat::Json);
    assert_eq!(Config::format_for("bundler.config.js"), ConfigFormat::Json);
    assert_eq!(Config::format_for("ts"), ConfigFormat::Json);
}

#[test]
fn object_text_becomes_json() {
    let out = Config::js_object_to_json("{ entry: 'a.js', /* which\nmode */ mode: 'x' } // done").unwrap();
    assert_eq!(out, "{ \"entry\": \"a.js\",  \"mode\": \"x\" } ");
}

#[test]
fn typescript_module_becomes_json() {
    let source = "import { defineConfig } from 'bundler_core';\nexport default defineConfig({\n  entry: './src/main.js',\n  plugins: [],\n});\n";
    let out = Config::typescript_config_to_json(source).unwrap();
    assert_eq!(out, "\n{\n  \"entry\": \"./src/main.js\",\n  \"plugins\": [],\n}");
}

#[test]
fn typescript_module_without_the_call_keeps_its_parentheses() {
    let out = Config::typescript_config_to_json("export default { entry: 'a', note: '(b)' }").unwrap();
    assert_eq!(out, "{ \"entry\": \"a\", \"note\": \"(b)\" }");
}

#[test]
fn file_text_becomes_json_by_its_format() {
    assert_eq!(Config::from_file("bundler.config.json", "{ 'a': 1 }").unwrap(), "{ 'a': 1 }");
    assert_eq!(Config::from_file("bundler.config.ts", "export default { a: 'b' }").unwrap(), "{ \"a\": \"b\" }");
}

#[test]
fn parse_failures_are_configuration_errors() {
    match Config::parse_failure(ConfigFormat::TypeScript, "expected value at line 1") {
        BundlerError::ConfigError(m) => assert_eq!(m, "Failed to parse TS config: expected value at line 1"),
        other => panic!("expected a configuration error, got {:?}", other),
    }
    match Config::parse_failure(ConfigFormat::Json, "EOF while parsing") {
        BundlerError::ConfigError(m) => assert_eq!(m, "EOF while parsing"),
        other => panic!("expected a configuration error, got {:?}", other),
    }
}

#[test]
fn assets_go_into_the_output_directory() {
    let bundler = Bundler::new(Config::default().with_output_path("/site/dist")).ok().unwrap();
    assert_eq!(bundler.output_directory(), "/site/dist");
    let mut assets: TextMap<String> = TextMap::new();
    assets.insert("main.js".to_string(), "1".to_string());
    assets.insert("vendor.js".to_string(), "2".to_string());
    let files = bundler.asset_files(&assets);
    assert_eq!(files.len(), 2);
    assert_eq!(files[0].path, "/site/dist/main.js");
    assert_eq!(files[0].content, "1");
    assert_eq!(files[1].path, "/site/dist/vendor.js");
    assert_eq!(files[1].content, "2");
}

#[test]
fn run_says_which_files_to_write() {
    let mut bundler = Bundler::new(Config::default().with_output_path("/site/dist")).ok().unwrap();
    let mut graph = ModuleGraph::new();
    graph.add_module(Module::new("entry:/a.js".to_string(), "/a.js".to_string(), "go();".to_string()));
    let files = bundler.run(graph).unwrap();
    assert_eq!(files.len(), 1);
    assert_eq!(files[0].path, "/site/dist/main.js");
    assert!(files[0]
        .content
        .contains("/* entry:/a.js */\n'entry:/a.js': function(module, exports, __webpack_require__) {\ngo();\n}"));

    let mut cyclic = ModuleGraph::new();
    cyclic.add_module(Module::new("/a.js".to_string(), "/a.js".to_string(), String::new()));
    cyclic.add_dependency("/a.js".to_string(), "/a.js".to_string());
    assert!(matches!(bundler.run(cyclic), Err(BundlerError::CircularDependency { .. })));
}

#[test]
fn type_definitions_go_to_two_places() {
    let files = generate_types();
    assert_eq!(files.len(), 2);
    assert_eq!(files[0].path, PACKAGE_TYPES_PATH);
    assert_eq!(files[1].path, EXAMPLE_TYPES_PATH);
    assert_eq!(files[0].content, files[1].content);
    assert!(files[0].content.starts_with("// Type definitions for rust-bundler\n"));
    assert!(files[0].content.contains("  export function defineConfig(config: Config): Config;\n}\n"));
    assert_eq!(bundler_core::generate_typescript_definitions().len(), 2);
}
