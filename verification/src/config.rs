//! What a caller configures: the entry file, where the output goes, module
//! rules, resolution settings, plugin names and the build mode.

use std::collections::HashMap;
use vstd::prelude::*;
use vstd::string::*;
use crate::error::{text_result, BundlerError, BundlerErrorView};
use crate::pattern::{
    pattern_compiles, rejected_message, rejection, replace_first_match, replace_matches, rewritten,
    rewritten_once, Rewrite,
};
use crate::text::{
    before_last, contains_subtext, cut_at_last, ends_with, occurs_in, option_view, replace_each, views,
    with_replaced,
};

verus! {

/// Whether the bundle is built for development or for production.
#[derive(Debug, Clone, Copy, PartialEq, Eq, Structural)]
pub enum Mode {
    Development,
    Production,
}

/// Where the output goes and how its files are named.
#[derive(Debug, Clone)]
pub struct OutputConfig {
    pub path: String,
    pub filename: String,
    pub chunk_filename: String,
}

/// One module rule: files whose path matches `test` are meant for the loader
/// `use_loader`, unless the path matches `exclude`.
#[derive(Debug, Clone)]
pub struct Rule {
    pub test: String,
    pub use_loader: String,
    pub exclude: Option<String>,
}

/// The module rules, in order.
#[derive(Debug, Clone)]
pub struct ModuleConfig {
    pub rules: Vec<Rule>,
}

/// The extensions that resolution tries, in order, and the alias table.
#[derive(Debug, Clone)]
pub struct ResolveConfig {
    pub extensions: Vec<String>,
    pub alias: HashMap<String, String>,
}

/// The whole configuration of a run.
#[derive(Debug, Clone)]
pub struct Config {
    pub entry: String,
    pub output: OutputConfig,
    pub module: ModuleConfig,
    pub resolve: ResolveConfig,
    pub plugins: Vec<String>,
    pub mode: Mode,
}

/// The mathematical content of a [`Rule`].
pub struct RuleView {
    pub test: Seq<char>,
    pub use_loader: Seq<char>,
    pub exclude: Option<Seq<char>>,
}

impl View for Rule {
    type V = RuleView;

    open spec fn view(&self) -> RuleView {
        RuleView { test: self.test@, use_loader: self.use_loader@, exclude: option_view(self.exclude) }
    }
}

/// The views of a list of rules, in order.
pub open spec fn rule_views(v: Seq<Rule>) -> Seq<RuleView> {
    Seq::new(v.len(), |i: int| v[i]@)
}

/// The rules of the default configuration: JavaScript and TypeScript files
/// outside `node_modules` go to the loader of their language.
pub open spec fn default_rules() -> Seq<RuleView> {
    seq![
        RuleView { test: "\\.js$"@, use_loader: "javascript"@, exclude: Some("node_modules"@) },
        RuleView { test: "\\.ts$"@, use_loader: "typescript"@, exclude: Some("node_modules"@) },
    ]
}

/// The extensions that resolution tries by default, in order.
pub open spec fn default_extensions() -> Seq<Seq<char>> {
    seq![".js"@, ".ts"@, ".json"@]
}

/// The extensions that resolution tries by default, in order.
pub fn default_extension_list() -> (v: Vec<String>)
    ensures
        views(v@) == default_extensions(),
{
    let v = vec![String::from_str(".js"), String::from_str(".ts"), String::from_str(".json")];
    assert(views(v@) =~= default_extensions());
    v
}

impl Default for Config {
    fn default() -> (c: Config)
        ensures
            c.entry@ == "./src/index.js"@,
            c.output.path@ == "./dist"@,
            c.output.filename@ == "bundle.js"@,
            c.output.chunk_filename@ == "[name].chunk.js"@,
            rule_views(c.module.rules@) == default_rules(),
            views(c.resolve.extensions@) == default_extensions(),
            c.resolve.alias@.len() == 0,
            c.plugins@.len() == 0,
            c.mode == Mode::Development,
    {
        let rules = vec![
            Rule {
                test: String::from_str("\\.js$"),
                use_loader: String::from_str("javascript"),
                exclude: Some(String::from_str("node_modules")),
            },
            Rule {
                test: String::from_str("\\.ts$"),
                use_loader: String::from_str("typescript"),
                exclude: Some(String::from_str("node_modules")),
            },
        ];
        assert(rule_views(rules@) =~= default_rules());
        Config {
            entry: String::from_str("./src/index.js"),
            output: OutputConfig {
                path: String::from_str("./dist"),
                filename: String::from_str("bundle.js"),
                chunk_filename: String::from_str("[name].chunk.js"),
            },
            module: ModuleConfig { rules },
            resolve: ResolveConfig { extensions: default_extension_list(), alias: HashMap::new() },
            plugins: Vec::new(),
            mode: Mode::Development,
        }
    }
}

impl Config {
    /// The same configuration with `entry` as its entry file.
    pub fn with_entry(self, entry: &str) -> (c: Config)
        ensures
            c.entry@ == entry@,
            c.output == self.output,
            c.module == self.module,
            c.resolve == self.resolve,
            c.plugins == self.plugins,
            c.mode == self.mode,
    {
        let mut c = self;
        c.entry = String::from_str(entry);
        c
    }

    /// The same configuration with `path` as its output directory.
    pub fn with_output_path(self, path: &str) -> (c: Config)
        ensures
            c.output.path@ == path@,
            c.output.filename == self.output.filename,
            c.output.chunk_filename == self.output.chunk_filename,
            c.entry == self.entry,
            c.module == self.module,
            c.resolve == self.resolve,
            c.plugins == self.plugins,
            c.mode == self.mode,
    {
        let mut c = self;
        c.output.path = String::from_str(path);
        c
    }
}

/// Hands a configuration back as it is; it marks a value as a configuration
/// where one is written down.
pub fn define_config(config: Config) -> (c: Config)
    ensures
        c == config,
{
    config
}

/// An import statement: from `import` to the next semicolon.
pub const IMPORT_STATEMENT_PATTERN: &'static str = "import.*?;";

/// The word `export`, with `default` behind it where it stands there.
pub const EXPORT_WORD_PATTERN: &'static str = "export\\s+(default\\s+)?";

/// A type annotation: a colon and a word, with `[]` behind it where it
/// stands there.
pub const ANNOTATION_PATTERN: &'static str = ":\\s*\\w+(\\[\\])?";

/// The opening of a `defineConfig(` call.
pub const DEFINE_CONFIG_PATTERN: &'static str = "defineConfig\\s*\\(\\s*";

/// A key of an object: a word before a colon.
pub const KEY_PATTERN: &'static str = "(\\w+):";

/// A comment that runs to the end of its line.
pub const LINE_COMMENT_PATTERN: &'static str = "//.*";

/// A comment between `/*` and `*/`.
pub const BLOCK_COMMENT_PATTERN: &'static str = "/\\*[\\s\\S]*?\\*/";

/// How a configuration file is written.
#[derive(Debug, Clone, Copy, PartialEq, Eq, Structural)]
pub enum ConfigFormat {
    /// JSON.
    Json,
    /// A TypeScript module that exports the configuration.
    TypeScript,
}

/// The format of the configuration file at `path`: TypeScript for `.ts` and
/// `.mts`, JSON for everything else.
pub open spec fn format_of(path: Seq<char>) -> ConfigFormat {
    if ".ts"@.is_suffix_of(path) || ".mts"@.is_suffix_of(path) {
        ConfigFormat::TypeScript
    } else {
        ConfigFormat::Json
    }
}

/// What a rewrite over patterns gives: the text, or the first pattern that
/// `Regex::new` rejects.
pub enum Rewritten {
    Text(Seq<char>),
    Rejected(Seq<char>),
}

impl Rewritten {
    /// The outcome of a rewrite with `pattern`, on the text that came so far.
    pub open spec fn then_all(self, pattern: Seq<char>, rewrite: Rewrite) -> Rewritten {
        match self {
            Rewritten::Rejected(p) => Rewritten::Rejected(p),
            Rewritten::Text(t) => if pattern_compiles(pattern) {
                Rewritten::Text(rewritten(pattern, t, rewrite))
            } else {
                Rewritten::Rejected(pattern)
            },
        }
    }

    /// The outcome of a rewrite of the first match of `pattern`, on the text
    /// that came so far.
    pub open spec fn then_first(self, pattern: Seq<char>, rewrite: Rewrite) -> Rewritten {
        match self {
            Rewritten::Rejected(p) => Rewritten::Rejected(p),
            Rewritten::Text(t) => if pattern_compiles(pattern) {
                Rewritten::Text(rewritten_once(pattern, t, rewrite))
            } else {
                Rewritten::Rejected(pattern)
            },
        }
    }

    /// The outcome as a result: a configuration error names the rejected
    /// pattern.
    pub open spec fn as_result(self) -> Result<Seq<char>, BundlerErrorView> {
        match self {
            Rewritten::Text(t) => Ok(t),
            Rewritten::Rejected(p) => Err(BundlerErrorView::ConfigError(rejected_message(p))),
        }
    }
}

/// The text of a JavaScript object as JSON, as far as patterns can tell:
/// keys are quoted, single quotes become double quotes, comments go.
pub open spec fn object_as_json(js: Seq<char>) -> Rewritten {
    match Rewritten::Text(js).then_all(KEY_PATTERN@, Rewrite::QuoteKey) {
        Rewritten::Rejected(p) => Rewritten::Rejected(p),
        Rewritten::Text(keyed) => Rewritten::Text(with_replaced(keyed, '\'', "\""@)).then_all(
            LINE_COMMENT_PATTERN@,
            Rewrite::Remove,
        ).then_all(BLOCK_COMMENT_PATTERN@, Rewrite::Remove),
    }
}

/// The text of a TypeScript configuration module with its imports, its
/// `export` words and its type annotations removed.
pub open spec fn without_module_syntax(content: Seq<char>) -> Rewritten {
    Rewritten::Text(content).then_all(IMPORT_STATEMENT_PATTERN@, Rewrite::Remove).then_all(
        EXPORT_WORD_PATTERN@,
        Rewrite::Remove,
    ).then_all(ANNOTATION_PATTERN@, Rewrite::Remove)
}

/// `text` without the `defineConfig(` call around the object, where it has
/// one: without the opening of the call, and cut before the last `)`.
pub open spec fn unwrapped(text: Seq<char>) -> Rewritten {
    if occurs_in(text, "defineConfig"@) {
        match Rewritten::Text(text).then_first(DEFINE_CONFIG_PATTERN@, Rewrite::Remove) {
            Rewritten::Rejected(p) => Rewritten::Rejected(p),
            Rewritten::Text(opened) => Rewritten::Text(before_last(opened, ')')),
        }
    } else {
        Rewritten::Text(text)
    }
}

/// The JSON text that a TypeScript configuration module stands for, as far
/// as patterns can tell.
pub open spec fn typescript_as_json(content: Seq<char>) -> Rewritten {
    match without_module_syntax(content) {
        Rewritten::Rejected(p) => Rewritten::Rejected(p),
        Rewritten::Text(plain) => match unwrapped(plain) {
            Rewritten::Rejected(p) => Rewritten::Rejected(p),
            Rewritten::Text(object) => object_as_json(object),
        },
    }
}

/// Replaces every match of `pattern` in `text`, or names the pattern in a
/// configuration error where `Regex::new` rejects it.
fn rewrite_all(pattern: &str, text: &str, rewrite: Rewrite) -> (r: Result<String, BundlerError>)
    ensures
        text_result(r) == Rewritten::Text(text@).then_all(pattern@, rewrite).as_result(),
{
    match replace_matches(pattern, text, rewrite) {
        Some(t) => Ok(t),
        None => Err(BundlerError::ConfigError(rejection(pattern))),
    }
}

impl Config {
    /// The format of the configuration file at `path`.
    pub fn format_for(path: &str) -> (f: ConfigFormat)
        ensures
            f == format_of(path@),
    {
        if ends_with(path, ".ts") || ends_with(path, ".mts") {
            ConfigFormat::TypeScript
        } else {
            ConfigFormat::Json
        }
    }

    /// The text of a JavaScript object as JSON, as far as patterns can tell.
    pub fn js_object_to_json(js_content: &str) -> (r: Result<String, BundlerError>)
        ensures
            text_result(r) == object_as_json(js_content@).as_result(),
    {
        let keyed = match rewrite_all(KEY_PATTERN, js_content, Rewrite::QuoteKey) {
            Ok(t) => t,
            Err(e) => {
                return Err(e);
            },
        };
        let quoted = replace_each(keyed.as_str(), '\'', "\"");
        let uncommented = match rewrite_all(LINE_COMMENT_PATTERN, quoted.as_str(), Rewrite::Remove) {
            Ok(t) => t,
            Err(e) => {
                return Err(e);
            },
        };
        rewrite_all(BLOCK_COMMENT_PATTERN, uncommented.as_str(), Rewrite::Remove)
    }

    /// The JSON text that the TypeScript configuration module `content`
    /// stands for, as far as patterns can tell: imports, `export` words and
    /// type annotations go, a `defineConfig(` call around the object goes,
    /// and the object is turned into JSON.
    pub fn typescript_config_to_json(content: &str) -> (r: Result<String, BundlerError>)
        ensures
            text_result(r) == typescript_as_json(content@).as_result(),
    {
        let no_imports = match rewrite_all(IMPORT_STATEMENT_PATTERN, content, Rewrite::Remove) {
            Ok(t) => t,
            Err(e) => {
                return Err(e);
            },
        };
        let no_exports = match rewrite_all(EXPORT_WORD_PATTERN, no_imports.as_str(), Rewrite::Remove) {
            Ok(t) => t,
            Err(e) => {
                return Err(e);
            },
        };
        let plain = match rewrite_all(ANNOTATION_PATTERN, no_exports.as_str(), Rewrite::Remove) {
            Ok(t) => t,
            Err(e) => {
                return Err(e);
            },
        };
        let object = if contains_subtext(plain.as_str(), "defineConfig") {
            match replace_first_match(DEFINE_CONFIG_PATTERN, plain.as_str(), Rewrite::Remove) {
                Some(opened) => cut_at_last(opened.as_str(), ')'),
                None => {
                    return Err(BundlerError::ConfigError(rejection(DEFINE_CONFIG_PATTERN)));
                },
            }
        } else {
            plain
        };
        Self::js_object_to_json(object.as_str())
    }

    /// The JSON text of the configuration that the file at `path` holds,
    /// given its text `content`: the text itself for a JSON file, and what
    /// [`Config::typescript_config_to_json`] makes of it for a TypeScript
    /// module. Reading the file and parsing the JSON are the caller's part.
    pub fn from_file(path: &str, content: &str) -> (r: Result<String, BundlerError>)
        ensures
            text_result(r) == match format_of(path@) {
                ConfigFormat::TypeScript => typescript_as_json(content@).as_result(),
                ConfigFormat::Json => Ok(content@),
            },
    {
        match Self::format_for(path) {
            ConfigFormat::TypeScript => Self::typescript_config_to_json(content),
            ConfigFormat::Json => Ok(String::from_str(content)),
        }
    }

    /// The configuration error for a file that could not be parsed: for a
    /// TypeScript module, `detail` behind a note that says so; for JSON,
    /// `detail` itself.
    pub fn parse_failure(format: ConfigFormat, detail: &str) -> (e: BundlerError)
        ensures
            e@ == BundlerErrorView::ConfigError(
                match format {
                    ConfigFormat::TypeScript => "Failed to parse TS config: "@ + detail@,
                    ConfigFormat::Json => detail@,
                },
            ),
    {
        match format {
            ConfigFormat::TypeScript => {
                let mut m = String::from_str("Failed to parse TS config: ");
                m.append(detail);
                BundlerError::ConfigError(m)
            },
            ConfigFormat::Json => BundlerError::ConfigError(String::from_str(detail)),
        }
    }
}

} // verus!
