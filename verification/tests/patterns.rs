use bundler_core::compiler::Compiler;
use bundler_core::config::{
    Config, ANNOTATION_PATTERN, BLOCK_COMMENT_PATTERN, DEFINE_CONFIG_PATTERN, EXPORT_WORD_PATTERN,
    IMPORT_STATEMENT_PATTERN, KEY_PATTERN, LINE_COMMENT_PATTERN,
};
use bundler_core::dependency::DependencyType;
use bundler_core::emit::{DEFAULT_IMPORT_PATTERN, EXPORT_FUNCTION_PATTERN, NAMED_IMPORT_PATTERN};
use bundler_core::extract::{IMPORT_PATTERN, REQUIRE_PATTERN};
use bundler_core::loader::{Loader, TypeScriptLoader, TYPE_ANNOTATION_PATTERN};
use bundler_core::module::Module;
use regex::Regex;

const SAMPLES: [&str; 10] = [
    "",
    "plain text without any pattern",
    "import { a } from './a';\nimport b from \"./b\";\nexport function run() { a(); b(); }\n",
    "import {a,b} from 'x'; import {c} from 'y'",
    "import * as all from './all';\nconst z = require('./z');\nrequire(\"w\")",
    "export   function   spaced(x: number): string { return 'export function inner'; }",
    "// import { hidden } from './comment'\n/* require('./block') */",
    "import d\u{e9}j\u{e0} from './vu';\nexport function caf\u{e9}() {}\n",
    "import a from './a'\nimport b from './b'\nimport { c: number } from './c'",
    "let x: number = 1;\r\nlet y : string;\nfunction f(a: A, b: B[]): C {}\n",
];

fn module() -> Module {
    Module::new("/m.js".to_string(), "/m.js".to_string(), String::new())
}

#[test]
fn rewrite_agrees_with_the_regex_crate_on_samples() {
    let named = Regex::new(r#"import\s+\{([^}]+)\}\s+from\s+['"]([^'"]+)['"]"#).unwrap();
    let default = Regex::new(r#"import\s+(\w+)\s+from\s+['"]([^'"]+)['"]"#).unwrap();
    let export = Regex::new(r"export\s+function\s+(\w+)").unwrap();
    let compiler = Compiler::new(Config::default());
    let m = module();
    for sample in SAMPLES {
        let step = named
            .replace_all(sample, |caps: &regex::Captures| {
                format!("const {{ {} }} = __webpack_require__('{}');", &caps[1], &caps[2])
            })
            .to_string();
        let step = default
            .replace_all(&step, |caps: &regex::Captures| {
                format!("const {} = __webpack_require__('{}');", &caps[1], &caps[2])
            })
            .to_string();
        let expected = export
            .replace_all(&step, |caps: &regex::Captures| {
                format!("exports.{} = {};\nfunction {}", &caps[1], &caps[1], &caps[1])
            })
            .to_string();
        assert_eq!(compiler.transform_module_content(sample, &m).unwrap(), expected, "for {:?}", sample);
    }
}

#[test]
fn extraction_agrees_with_the_regex_crate_on_samples() {
    let import = Regex::new(r#"import\s+.*?\s+from\s+['"]([^'"]+)['"]"#).unwrap();
    let require = Regex::new(r#"require\(['"]([^'"]+)['"]\)"#).unwrap();
    for sample in SAMPLES {
        let mut expected = Vec::new();
        for cap in import.captures_iter(sample) {
            if let Some(path) = cap.get(1) {
                expected.push((path.as_str().to_string(), DependencyType::Import));
            }
        }
        for cap in require.captures_iter(sample) {
            if let Some(path) = cap.get(1) {
                expected.push((path.as_str().to_string(), DependencyType::Require));
            }
        }
        let found: Vec<(String, DependencyType)> = Compiler::parse_dependencies(sample, "/m.js")
            .unwrap()
            .into_iter()
            .map(|d| (d.request, d.dependency_type))
            .collect();
        assert_eq!(found, expected, "for {:?}", sample);
    }
}

#[test]
fn annotation_stripping_agrees_with_the_regex_crate_on_samples() {
    let annotation = Regex::new(r": \w+").unwrap();
    for sample in SAMPLES {
        let expected =
            sample.lines().map(|line| annotation.replace_all(line, "").to_string()).collect::<Vec<_>>().join("\n");
        assert_eq!(TypeScriptLoader.load(sample, "/m.ts").unwrap(), expected, "for {:?}", sample);
    }
}

#[test]
fn configuration_conversion_agrees_with_the_regex_crate_on_samples() {
    let samples = [
        "import { defineConfig } from 'bundler_core';\n\nexport default defineConfig({\n  entry: './src/index.ts', // the entry\n  output: { path: './dist', filename: 'bundle.js', chunk_filename: '[name].js' },\n  /* rules\n     follow */\n  plugins: [],\n  mode: 'Development',\n});\n",
        "export const config: Config = { a: 1, b: ['x', 'y'], c: (1) }",
        "defineConfig( { nested: defineConfig({}) } ) // (tail)",
        "no config here",
        "",
    ];
    for sample in samples {
        let mut js = sample.to_string();
        js = Regex::new(r"import.*?;").unwrap().replace_all(&js, "").to_string();
        js = Regex::new(r"export\s+(default\s+)?").unwrap().replace_all(&js, "").to_string();
        js = Regex::new(r":\s*\w+(\[\])?").unwrap().replace_all(&js, "").to_string();
        if js.contains("defineConfig") {
            js = Regex::new(r"defineConfig\s*\(\s*").unwrap().replace(&js, "").to_string();
            if let Some(last_paren) = js.rfind(')') {
                js = js[..last_paren].to_string();
            }
        }
        let mut json = Regex::new(r"(\w+):").unwrap().replace_all(&js, r#""$1":"#).to_string();
        json = json.replace("'", "\"");
        json = Regex::new(r"//.*").unwrap().replace_all(&json, "").to_string();
        json = Regex::new(r"/\*[\s\S]*?\*/").unwrap().replace_all(&json, "").to_string();
        assert_eq!(Config::typescript_config_to_json(sample).unwrap(), json, "for {:?}", sample);
    }
}

#[test]
fn every_pattern_of_the_library_is_accepted() {
    let patterns = [
        IMPORT_PATTERN,
        REQUIRE_PATTERN,
        NAMED_IMPORT_PATTERN,
        DEFAULT_IMPORT_PATTERN,
        EXPORT_FUNCTION_PATTERN,
        TYPE_ANNOTATION_PATTERN,
        IMPORT_STATEMENT_PATTERN,
        EXPORT_WORD_PATTERN,
        ANNOTATION_PATTERN,
        DEFINE_CONFIG_PATTERN,
        KEY_PATTERN,
        LINE_COMMENT_PATTERN,
        BLOCK_COMMENT_PATTERN,
    ];
    for pattern in patterns {
        assert!(Regex::new(pattern).is_ok(), "rejected: {}", pattern);
    }
    assert_eq!(IMPORT_PATTERN, r#"import\s+.*?\s+from\s+['"]([^'"]+)['"]"#);
    assert_eq!(REQUIRE_PATTERN, r#"require\(['"]([^'"]+)['"]\)"#);
    assert_eq!(BLOCK_COMMENT_PATTERN, r"/\*[\s\S]*?\*/");
}
