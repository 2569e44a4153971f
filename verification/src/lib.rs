//! A bundler for JavaScript and TypeScript applications: from an entry file
//! it discovers the modules that the application is made of, groups them
//! into chunks, and emits each chunk as one self-executing bundle.
//!
//! The library never touches the file system. Where it needs to know
//! something about a file, it hands its caller a question ([`fs::FsQuery`])
//! and takes the answer ([`fs::FsAnswer`]); where it has something to write,
//! it hands its caller the files. A run goes like this:
//!
//! 1. [`compiler::Compiler::build_module_graph`] starts a
//!    [`traversal::Traversal`]; the caller answers its questions until it
//!    ends with a [`module::ModuleGraph`].
//! 2. [`compiler::Compiler::compile`] looks for cycles, puts the modules
//!    into chunks, emits the bundles and runs the plugins.
//! 3. [`bundler::Bundler::run`] does the same and says which files the
//!    assets become.
//!
//! Dependencies are found and module text is rewritten by pattern, with the
//! `regex` crate; see [`pattern`] for what is taken on trust there.

pub mod bundler;
pub mod chunk;
pub mod compiler;
pub mod config;
pub mod dependency;
pub mod emit;
pub mod error;
pub mod extract;
pub mod fs;
pub mod graph;
pub mod loader;
pub mod module;
pub mod path;
pub mod pattern;
pub mod plugin;
pub mod resolver;
pub mod text;
pub mod text_map;
pub mod traversal;
pub mod types;

pub use bundler::Bundler;
pub use config::{define_config, Config};
pub use error::BundlerError;
pub use module::Module;
pub use types::generate_typescript_definitions;
