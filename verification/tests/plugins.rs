use bundler_core::compiler::Compiler;
use bundler_core::config::Config;
use bundler_core::error::BundlerError;
use bundler_core::module::{Module, ModuleGraph};
use bundler_core::plugin::{HookStep, HtmlPlugin, Plugin, PluginContext, PluginManager};

/// Writes its name and its turn into the context.
struct Mark(&'static str);

impl Plugin for Mark {
    fn apply(&self, context: &mut PluginContext) -> Result<(), BundlerError> {
        let turn = context.data.len() as u64;
        context.data.insert(self.0.to_string(), serde_json::Value::from(turn));
        Ok(())
    }

    fn name(&self) -> &str {
        self.0
    }
}

struct Fail;

impl Plugin for Fail {
    fn apply(&self, context: &mut PluginContext) -> Result<(), BundlerError> {
        Err(BundlerError::PluginError(format!("failed for {}", context.output_path)))
    }

    fn name(&self) -> &str {
        "fail"
    }
}

#[test]
fn new_context_is_empty() {
    let context = PluginContext::new("/out".to_string());
    assert_eq!(context.output_path, "/out");
    assert!(context.modules.is_empty());
    assert!(context.data.is_empty());
}

#[test]
fn hooks_run_in_the_order_of_registration() {
    let mut manager = PluginManager::new();
    manager.add_plugin(Box::new(Mark("first")));
    manager.add_plugin(Box::new(Mark("second")));
    manager.add_plugin(Box::new(Mark("third")));
    assert_eq!(manager.len(), 3);
    let mut context = PluginContext::new("/out".to_string());
    assert!(manager.apply_all(&mut context).is_ok());
    assert_eq!(context.data["first"], serde_json::Value::from(0u64));
    assert_eq!(context.data["second"], serde_json::Value::from(1u64));
    assert_eq!(context.data["third"], serde_json::Value::from(2u64));
}

#[test]
fn failing_hook_stops_the_run() {
    let mut manager = PluginManager::new();
    manager.add_plugin(Box::new(Mark("first")));
    manager.add_plugin(Box::new(Fail));
    manager.add_plugin(Box::new(Mark("never")));
    let mut context = PluginContext::new("/out".to_string());
    match manager.apply_all(&mut context) {
        Err(BundlerError::PluginError(message)) => assert_eq!(message, "failed for /out"),
        other => panic!("expected a plugin error, got {:?}", other),
    }
    assert!(context.data.contains_key("first"));
    assert!(!context.data.contains_key("never"));
}

#[test]
fn manager_without_plugins_succeeds_and_changes_nothing() {
    let manager = PluginManager::new();
    let mut context = PluginContext::new("/out".to_string());
    assert!(manager.apply_all(&mut context).is_ok());
    assert!(context.data.is_empty());
}

#[test]
fn what_follows_a_hook() {
    assert!(matches!(PluginManager::after_hook(0, 2, Ok(())), HookStep::Next(1)));
    assert!(matches!(PluginManager::after_hook(1, 2, Ok(())), HookStep::Stop(Ok(()))));
    assert!(matches!(
        PluginManager::after_hook(0, 2, Err(BundlerError::PluginError("x".to_string()))),
        HookStep::Stop(Err(BundlerError::PluginError(_)))
    ));
}

#[test]
fn plugin_failure_fails_the_compilation() {
    let mut compiler = Compiler::new(Config::default().with_output_path("/site"));
    compiler.add_plugin(Box::new(Mark("ok")));
    compiler.add_plugin(Box::new(Fail));
    let mut graph = ModuleGraph::new();
    graph.add_module(Module::new("entry:/a.js".to_string(), "/a.js".to_string(), "1;".to_string()));
    match compiler.compile(graph) {
        Err(BundlerError::PluginError(message)) => assert_eq!(message, "failed for /site"),
        Err(other) => panic!("expected a plugin error, got {:?}", other),
        Ok(_) => panic!("expected a plugin error, got a result"),
    }
}

#[test]
fn html_plugin_says_what_to_write_where() {
    let plugin = HtmlPlugin::new("<html></html>".to_string());
    assert_eq!(plugin.template(), "<html></html>");
    let context = PluginContext::new("./dist".to_string());
    assert_eq!(plugin.page_path(&context), "./dist/index.html");
    let page = plugin.page();
    assert!(page.starts_with("<!DOCTYPE html>\n<html>\n<head>\n    <title>Bundled App</title>"));
    assert!(page.contains("<script src=\"bundle.js\"></script>"));
    assert!(page.ends_with("</body>\n</html>"));
}
