use bundler_core::chunk::{Chunk, ChunkGenerator, ChunkType};
use bundler_core::module::Module;

fn module(id: &str) -> Module {
    Module::new(id.to_string(), id.trim_start_matches("entry:").to_string(), String::new())
}

#[test]
fn new_chunk_is_empty_and_unnamed() {
    let chunk = Chunk::new("c1".to_string(), ChunkType::Async);
    assert_eq!(chunk.id, "c1");
    assert_eq!(chunk.name, None);
    assert!(chunk.modules.is_empty());
    assert!(chunk.entry_points.is_empty());
    assert_eq!(chunk.chunk_type, ChunkType::Async);
}

#[test]
fn chunk_keeps_each_id_once_in_order() {
    let mut chunk = Chunk::new("c".to_string(), ChunkType::Normal);
    chunk.add_module("a".to_string());
    chunk.add_module("b".to_string());
    chunk.add_module("a".to_string());
    chunk.add_entry_point("b".to_string());
    chunk.add_entry_point("b".to_string());
    assert_eq!(chunk.modules, vec!["a".to_string(), "b".to_string()]);
    assert_eq!(chunk.entry_points, vec!["b".to_string()]);
}

#[test]
fn one_entry_among_n_modules_gives_one_entry_chunk_with_all_ids() {
    let modules = vec![module("/p/c.js"), module("/p/b.js"), module("entry:/p/a.js"), module("/p/d.js")];
    let mut generator = ChunkGenerator::new();
    let chunks = generator.generate_chunks(&modules).unwrap();
    assert_eq!(chunks.len(), 1);
    assert_eq!(chunks[0].id, "main");
    assert_eq!(chunks[0].name, Some("main".to_string()));
    assert_eq!(chunks[0].chunk_type, ChunkType::Entry);
    assert_eq!(
        chunks[0].modules,
        vec!["/p/c.js".to_string(), "/p/b.js".to_string(), "entry:/p/a.js".to_string(), "/p/d.js".to_string()]
    );
    assert_eq!(chunks[0].entry_points, vec!["entry:/p/a.js".to_string()]);
}

#[test]
fn repeated_ids_enter_the_chunk_once() {
    let modules = vec![module("x"), module("entry:y"), module("x"), module("entry:y")];
    let chunks = ChunkGenerator::new().generate_chunks(&modules).unwrap();
    assert_eq!(chunks[0].modules, vec!["x".to_string(), "entry:y".to_string()]);
    assert_eq!(chunks[0].entry_points, vec!["entry:y".to_string()]);
}

#[test]
fn no_modules_give_an_empty_main_chunk() {
    let chunks = ChunkGenerator::new().generate_chunks(&[]).unwrap();
    assert_eq!(chunks.len(), 1);
    assert!(chunks[0].modules.is_empty());
    assert!(chunks[0].entry_points.is_empty());
}

#[test]
fn generator_remembers_every_chunk_it_made() {
    let mut generator = ChunkGenerator::new();
    assert!(generator.get_chunks().is_empty());
    generator.generate_chunks(&[module("a")]).unwrap();
    generator.generate_chunks(&[module("b"), module("c")]).unwrap();
    let made = generator.get_chunks();
    assert_eq!(made.len(), 2);
    assert_eq!(made[0].modules, vec!["a".to_string()]);
    assert_eq!(made[1].modules, vec!["b".to_string(), "c".to_string()]);
}
