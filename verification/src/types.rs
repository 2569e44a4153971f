//! The TypeScript declarations of the configuration, for projects that
//! write their configuration in TypeScript.

use vstd::prelude::*;
use vstd::string::*;
use crate::bundler::OutputFile;

verus! {

/// The text of the declaration file.
pub const TYPE_DEFINITIONS: &'static str =
    "// Type definitions for rust-bundler\n// Project: https://github.com/your-username/rust-bundler\n\ndeclare module 'bundler_core' {\n  export interface Config {\n    entry: string;\n    output: OutputConfig;\n    module: ModuleConfig;\n    resolve: ResolveConfig;\n    plugins: string[];\n    mode: Mode;\n  }\n\n  export interface OutputConfig {\n    path: string;\n    filename: string;\n    chunkFilename: string;\n  }\n\n  export interface ModuleConfig {\n    rules: Rule[];\n  }\n\n  export interface Rule {\n    test: string;\n    useLoader: string;\n    exclude?: string;\n  }\n\n  export interface ResolveConfig {\n    extensions: string[];\n    alias: Record<string, string>;\n  }\n\n  export type Mode = 'Development' | 'Production';\n\n  export function defineConfig(config: Config): Config;\n}\n";

/// Where the declaration file goes for installed packages.
pub const PACKAGE_TYPES_PATH: &'static str = "node_modules/@types/bundler_core/index.d.ts";

/// Where the declaration file goes for the examples.
pub const EXAMPLE_TYPES_PATH: &'static str = "examples/@types/bundler_core/index.d.ts";

/// The declaration files: the same text in two places, the one for
/// installed packages first.
pub fn generate_types() -> (files: Vec<OutputFile>)
    ensures
        files@.len() == 2,
        files@[0].path@ == PACKAGE_TYPES_PATH@,
        files@[0].content@ == TYPE_DEFINITIONS@,
        files@[1].path@ == EXAMPLE_TYPES_PATH@,
        files@[1].content@ == TYPE_DEFINITIONS@,
{
    vec![
        OutputFile { path: String::from_str(PACKAGE_TYPES_PATH), content: String::from_str(TYPE_DEFINITIONS) },
        OutputFile { path: String::from_str(EXAMPLE_TYPES_PATH), content: String::from_str(TYPE_DEFINITIONS) },
    ]
}

/// The declaration files that a project needs to write its configuration
/// in TypeScript; see [`generate_types`].
pub fn generate_typescript_definitions() -> (files: Vec<OutputFile>)
    ensures
        files@.len() == 2,
        files@[0].path@ == PACKAGE_TYPES_PATH@,
        files@[0].content@ == TYPE_DEFINITIONS@,
        files@[1].path@ == EXAMPLE_TYPES_PATH@,
        files@[1].content@ == TYPE_DEFINITIONS@,
{
    generate_types()
}

} // verus!
