use bundler_core::error::BundlerError;
use bundler_core::loader::{JavaScriptLoader, JsonLoader, Loader, LoaderRegistry, TypeScriptLoader};

struct Shout;

impl Loader for Shout {
    fn load(&self, content: &str, _path: &str) -> Result<String, BundlerError> {
        Ok(content.to_uppercase())
    }

    fn name(&self) -> &str {
        "shout"
    }
}

struct Broken;

impl Loader for Broken {
    fn load(&self, _content: &str, path: &str) -> Result<String, BundlerError> {
        Err(BundlerError::LoaderError(format!("cannot load {}", path)))
    }

    fn name(&self) -> &str {
        "broken"
    }
}

#[test]
fn javascript_loader_is_the_identity() {
    assert_eq!(JavaScriptLoader.load("let a = 1;", "/a.js").unwrap(), "let a = 1;");
    assert_eq!(JavaScriptLoader.name(), "javascript");
}

#[test]
fn json_loader_wraps_a_default_export() {
    assert_eq!(JsonLoader.load("{\"a\": 1}", "/a.json").unwrap(), "export default {\"a\": 1};");
    assert_eq!(JsonLoader.name(), "json");
}

#[test]
fn typescript_loader_strips_annotations_line_by_line() {
    let source = "function add(a: number, b: number): number {\n  const s: string = 'x';\r\n  return a + b;\n}\n";
    let out = TypeScriptLoader.load(source, "/a.ts").unwrap();
    assert_eq!(out, "function add(a, b) {\n  const s = 'x';\n  return a + b;\n}");
    assert_eq!(TypeScriptLoader.name(), "typescript");
}

#[test]
fn typescript_loader_is_not_scope_aware() {
    let out = TypeScriptLoader.load("const o = { key: value };", "/a.ts").unwrap();
    assert_eq!(out, "const o = { key };");
    assert_eq!(TypeScriptLoader.load("", "/a.ts").unwrap(), "");
}

#[test]
fn new_registry_knows_the_three_default_loaders() {
    let registry = LoaderRegistry::new();
    assert_eq!(registry.load("javascript", "a: b", "/x").unwrap(), "a: b");
    assert_eq!(registry.load("typescript", "let a: b", "/x").unwrap(), "let a");
    assert_eq!(registry.load("json", "1", "/x").unwrap(), "export default 1;");
}

#[test]
fn unregistered_loader_is_a_loader_error() {
    let registry = LoaderRegistry::new();
    match registry.load("css", "a {}", "/a.css") {
        Err(BundlerError::LoaderError(message)) => assert_eq!(message, "Loader 'css' not found"),
        other => panic!("expected a loader error, got {:?}", other),
    }
}

#[test]
fn registered_loader_runs_and_a_second_one_takes_its_place() {
    let mut registry = LoaderRegistry::new();
    registry.register("shout".to_string(), Box::new(Shout));
    assert_eq!(registry.load("shout", "abc", "/x").unwrap(), "ABC");
    registry.register("shout".to_string(), Box::new(Broken));
    match registry.load("shout", "abc", "/x.txt") {
        Err(BundlerError::LoaderError(message)) => assert_eq!(message, "cannot load /x.txt"),
        other => panic!("expected a loader error, got {:?}", other),
    }
    registry.register("javascript".to_string(), Box::new(Shout));
    assert_eq!(registry.load("javascript", "abc", "/x").unwrap(), "ABC");
    assert_eq!(registry.load("json", "abc", "/x").unwrap(), "export default abc;");
}
