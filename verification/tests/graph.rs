use bundler_core::dependency::{Dependency, DependencyType, Range};
use bundler_core::error::BundlerError;
use bundler_core::module::{Module, ModuleGraph, ModuleType};

fn module(id: &str) -> Module {
    Module::new(id.to_string(), id.to_string(), String::new())
}

#[test]
fn acyclic_graph_passes_detection() {
    let mut g = ModuleGraph::new();
    g.add_module(module("/b.js"));
    g.add_module(module("/a.js"));
    g.add_dependency("/a.js".to_string(), "/b.js".to_string());
    assert!(g.detect_circular_dependencies().is_ok());
}

#[test]
fn two_cycle_is_reported_with_its_chain() {
    let mut g = ModuleGraph::new();
    g.add_module(module("/a.js"));
    g.add_module(module("/b.js"));
    g.add_dependency("/a.js".to_string(), "/b.js".to_string());
    g.add_dependency("/b.js".to_string(), "/a.js".to_string());
    match g.detect_circular_dependencies() {
        Err(BundlerError::CircularDependency { modules }) => {
            assert_eq!(modules, vec!["/a.js".to_string(), "/b.js".to_string()]);
        }
        other => panic!("expected a cycle, got {:?}", other),
    }
}

#[test]
fn module_type_follows_extension() {
    assert_eq!(Module::determine_type("/x/y.js"), ModuleType::JavaScript);
    assert_eq!(Module::determine_type("/x/y.ts"), ModuleType::TypeScript);
    assert_eq!(Module::determine_type("/x/y.json"), ModuleType::Json);
    assert_eq!(Module::determine_type("/x/y.css"), ModuleType::Css);
    assert_eq!(Module::determine_type("/x/y.png"), ModuleType::Asset);
    assert_eq!(Module::determine_type("/x/.js"), ModuleType::Asset);
    assert_eq!(Module::determine_type("/x.js/y"), ModuleType::Asset);
}

#[test]
fn self_loop_is_a_cycle() {
    let mut g = ModuleGraph::new();
    g.add_module(module("/a.js"));
    g.add_dependency("/a.js".to_string(), "/a.js".to_string());
    match g.detect_circular_dependencies() {
        Err(BundlerError::CircularDependency { modules }) => assert_eq!(modules, vec!["/a.js".to_string()]),
        other => panic!("expected a cycle, got {:?}", other),
    }
}

#[test]
fn diamond_with_repeated_edges_is_no_cycle() {
    let mut g = ModuleGraph::new();
    for id in ["/d.js", "/b.js", "/c.js", "/a.js"] {
        g.add_module(module(id));
    }
    for (from, to) in [("/a.js", "/b.js"), ("/a.js", "/c.js"), ("/b.js", "/d.js"), ("/c.js", "/d.js"), ("/a.js", "/b.js")] {
        g.add_dependency(from.to_string(), to.to_string());
    }
    assert!(g.detect_circular_dependencies().is_ok());
}

#[test]
fn cycle_that_no_module_reaches_is_not_reported() {
    let mut g = ModuleGraph::new();
    g.add_module(module("/a.js"));
    g.add_dependency("/x.js".to_string(), "/y.js".to_string());
    g.add_dependency("/y.js".to_string(), "/x.js".to_string());
    assert!(g.detect_circular_dependencies().is_ok());
}

#[test]
fn cycle_through_ids_without_a_module_is_reported() {
    let mut g = ModuleGraph::new();
    g.add_module(module("/a.js"));
    g.add_dependency("/a.js".to_string(), "/x.js".to_string());
    g.add_dependency("/x.js".to_string(), "/y.js".to_string());
    g.add_dependency("/y.js".to_string(), "/x.js".to_string());
    match g.detect_circular_dependencies() {
        Err(BundlerError::CircularDependency { modules }) => {
            assert_eq!(modules, vec!["/a.js".to_string(), "/x.js".to_string(), "/y.js".to_string()]);
        }
        other => panic!("expected a cycle, got {:?}", other),
    }
}

#[test]
fn entry_modules_are_those_with_the_marker() {
    let mut g = ModuleGraph::new();
    g.add_module(module("/a.js"));
    g.add_module(module("entry:/b.js"));
    g.add_module(module("entry"));
    let entries = g.get_entry_modules();
    assert_eq!(entries.len(), 1);
    assert_eq!(entries[0].id, "entry:/b.js");
    assert!(entries[0].is_entry());
    assert!(!g.get_modules()[0].is_entry());
    assert_eq!(g.get_modules().len(), 3);
}

#[test]
fn module_collects_its_dependencies() {
    let mut m = module("/a.js");
    assert!(m.dependencies.is_empty());
    assert!(m.source_map.is_none());
    m.add_dependency(Dependency::new("./b".to_string(), DependencyType::Import));
    m.add_dependency(Dependency::new("c".to_string(), DependencyType::Require).with_range(3, 9));
    assert_eq!(m.get_dependency_paths(), vec!["./b".to_string(), "c".to_string()]);
    assert_eq!(m.dependencies[0].range, None);
    assert_eq!(m.dependencies[1].range, Some(Range { start: 3, end: 9 }));
    let copy = m.clone();
    assert_eq!(copy.id, m.id);
    assert_eq!(copy.dependencies.len(), 2);
}

#[test]
fn graph_keeps_a_module_that_is_added_twice() {
    let mut g = ModuleGraph::new();
    assert!(g.get_modules().is_empty());
    g.add_module(module("/a.js"));
    g.add_module(module("/a.js"));
    assert_eq!(g.get_modules().len(), 2);
    assert!(g.detect_circular_dependencies().is_ok());
}
