//! Loaders turn the raw text of a module into text that the runtime can
//! load. A registry keeps them by name.

use vstd::prelude::*;
use vstd::string::*;
use crate::error::{text_result, BundlerError, BundlerErrorView};
use crate::pattern::{pattern_compiles, rejected_message, rejection, replace_matches, rewritten, Rewrite};
use crate::text::{join_texts, joined, lines_of, split_lines, views};
use crate::text_map::TextMap;

verus! {

/// The pattern of a type annotation: a colon, a blank and a word.
pub const TYPE_ANNOTATION_PATTERN: &'static str = ": \\w+";

/// A text transform with a name. Implementations decide what `load`
/// returns. A loader may say what it gives, as a relation between the text,
/// the path and the result; one that says nothing allows everything, and
/// nothing is promised in its name.
pub trait Loader {
    /// Whether the loader may give `result` for the text `content` of the
    /// file at `path`. Everything is allowed unless the loader says
    /// otherwise.
    open spec fn gives(&self, content: Seq<char>, path: Seq<char>, result: Result<String, BundlerError>) -> bool {
        true
    }

    /// Transforms the text `content` of the file at `path`.
    fn load(&self, content: &str, path: &str) -> (result: Result<String, BundlerError>)
        ensures
            self.gives(content@, path@, result),
    ;

    /// The name that the loader goes by.
    fn name(&self) -> &str;
}

/// Passes JavaScript through unchanged.
pub struct JavaScriptLoader;

/// Removes type annotations from TypeScript, line by line.
pub struct TypeScriptLoader;

/// Wraps JSON as the default export of a module.
pub struct JsonLoader;

/// `content` with each type annotation removed from each of its lines, the
/// lines joined by line feeds.
pub open spec fn annotations_stripped(content: Seq<char>) -> Seq<char> {
    joined(
        Seq::new(
            lines_of(content).len(),
            |i: int| rewritten(TYPE_ANNOTATION_PATTERN@, lines_of(content)[i], Rewrite::Remove),
        ),
        "\n"@,
    )
}

/// What the TypeScript loader gives for `content`: the stripped text, or a
/// loader error where there is a line to strip and `Regex::new` rejects the
/// annotation pattern.
pub open spec fn typescript_loaded(content: Seq<char>) -> Result<Seq<char>, BundlerErrorView> {
    if lines_of(content).len() == 0 || pattern_compiles(TYPE_ANNOTATION_PATTERN@) {
        Ok(annotations_stripped(content))
    } else {
        Err(BundlerErrorView::LoaderError(rejected_message(TYPE_ANNOTATION_PATTERN@)))
    }
}

/// `content` as the default export of a module.
pub open spec fn json_wrapped(content: Seq<char>) -> Seq<char> {
    "export default "@ + content + ";"@
}

impl Loader for JavaScriptLoader {
    open spec fn gives(&self, content: Seq<char>, path: Seq<char>, result: Result<String, BundlerError>) -> bool {
        text_result(result) == Ok::<Seq<char>, BundlerErrorView>(content)
    }

    fn load(&self, content: &str, path: &str) -> (r: Result<String, BundlerError>)
        ensures
            text_result(r) == Ok::<Seq<char>, BundlerErrorView>(content@),
    {
        Ok(String::from_str(content))
    }

    fn name(&self) -> (n: &str)
        ensures
            n@ == "javascript"@,
    {
        "javascript"
    }
}

impl Loader for TypeScriptLoader {
    open spec fn gives(&self, content: Seq<char>, path: Seq<char>, result: Result<String, BundlerError>) -> bool {
        text_result(result) == typescript_loaded(content)
    }

    fn load(&self, content: &str, path: &str) -> (r: Result<String, BundlerError>)
        ensures
            text_result(r) == typescript_loaded(content@),
    {
        let lines = split_lines(content);
        let mut stripped: Vec<String> = Vec::new();
        let ghost target = Seq::new(
            lines_of(content@).len(),
            |i: int| rewritten(TYPE_ANNOTATION_PATTERN@, lines_of(content@)[i], Rewrite::Remove),
        );
        let mut i: usize = 0;
        while i < lines.len()
            invariant
                i <= lines.len(),
                views(lines@) == lines_of(content@),
                target == Seq::new(
                    lines_of(content@).len(),
                    |i: int| rewritten(TYPE_ANNOTATION_PATTERN@, lines_of(content@)[i], Rewrite::Remove),
                ),
                views(stripped@) == target.take(i as int),
                i > 0 ==> pattern_compiles(TYPE_ANNOTATION_PATTERN@),
            decreases lines.len() - i,
        {
            assert(views(lines@)[i as int] == lines@[i as int]@);
            match replace_matches(TYPE_ANNOTATION_PATTERN, lines[i].as_str(), Rewrite::Remove) {
                Some(line) => {
                    proof {
                        let before = views(stripped@);
                        assert(line@ == target[i as int]);
                        assert(views(stripped@.push(line)) =~= before.push(line@));
                        assert(target.take(i + 1) =~= target.take(i as int).push(target[i as int]));
                    }
                    stripped.push(line);
                },
                None => {
                    return Err(BundlerError::LoaderError(rejection(TYPE_ANNOTATION_PATTERN)));
                },
            }
            i += 1;
        }
        assert(target.take(i as int) =~= target);
        Ok(join_texts(&stripped, "\n"))
    }

    fn name(&self) -> (n: &str)
        ensures
            n@ == "typescript"@,
    {
        "typescript"
    }
}

impl Loader for JsonLoader {
    open spec fn gives(&self, content: Seq<char>, path: Seq<char>, result: Result<String, BundlerError>) -> bool {
        text_result(result) == Ok::<Seq<char>, BundlerErrorView>(json_wrapped(content))
    }

    fn load(&self, content: &str, path: &str) -> (r: Result<String, BundlerError>)
        ensures
            text_result(r) == Ok::<Seq<char>, BundlerErrorView>(json_wrapped(content@)),
    {
        let mut out = String::from_str("export default ");
        out.append(content);
        out.append(";");
        Ok(out)
    }

    fn name(&self) -> (n: &str)
        ensures
            n@ == "json"@,
    {
        "json"
    }
}

/// A loader as the registry keeps it: one of the three that every registry
/// starts with, or one that a caller brought.
pub enum RegisteredLoader {
    JavaScript,
    TypeScript,
    Json,
    Custom(Box<dyn Loader>),
}

/// What a registered loader is bound to give for `content`, where the
/// registry can tell: everything for the three it starts with, nothing for a
/// loader that a caller brought.
pub open spec fn promised(loader: RegisteredLoader, content: Seq<char>) -> Option<
    Result<Seq<char>, BundlerErrorView>,
> {
    match loader {
        RegisteredLoader::JavaScript => Some(Ok(content)),
        RegisteredLoader::TypeScript => Some(typescript_loaded(content)),
        RegisteredLoader::Json => Some(Ok(json_wrapped(content))),
        RegisteredLoader::Custom(_) => None,
    }
}

/// Whether a registered loader may give `result` for the text `content` of
/// the file at `path`: what it is bound to give, for the three that every
/// registry starts with; what it allows itself, for a loader that a caller
/// brought.
pub open spec fn may_give(
    loader: RegisteredLoader,
    content: Seq<char>,
    path: Seq<char>,
    result: Result<String, BundlerError>,
) -> bool {
    match loader {
        RegisteredLoader::Custom(custom) => custom.gives(content, path, result),
        _ => Some(text_result(result)) == promised(loader, content),
    }
}

/// The message of the error for a loader name that is not registered.
pub open spec fn not_found_message(name: Seq<char>) -> Seq<char> {
    "Loader '"@ + name + "' not found"@
}

/// The loaders of a run, by name. A new registry knows `javascript`,
/// `typescript` and `json`; registering a name again replaces its loader.
pub struct LoaderRegistry {
    loaders: TextMap<RegisteredLoader>,
}

impl View for LoaderRegistry {
    type V = Map<Seq<char>, RegisteredLoader>;

    closed spec fn view(&self) -> Map<Seq<char>, RegisteredLoader> {
        self.loaders@
    }
}

impl LoaderRegistry {
    /// A registry with the three default loaders.
    pub fn new() -> (registry: Self)
        ensures
            registry@ == Map::<Seq<char>, RegisteredLoader>::empty().insert(
                "javascript"@,
                RegisteredLoader::JavaScript,
            ).insert("typescript"@, RegisteredLoader::TypeScript).insert("json"@, RegisteredLoader::Json),
            registry@.dom() == set!["javascript"@, "typescript"@, "json"@],
            registry@["javascript"@] == RegisteredLoader::JavaScript,
            registry@["typescript"@] == RegisteredLoader::TypeScript,
            registry@["json"@] == RegisteredLoader::Json,
    {
        proof {
            reveal_strlit("javascript");
            reveal_strlit("typescript");
            reveal_strlit("json");
            assert("javascript"@.len() != "typescript"@.len() || "javascript"@[0] != "typescript"@[0]);
            assert("javascript"@.len() != "json"@.len());
            assert("typescript"@.len() != "json"@.len());
        }
        let mut loaders: TextMap<RegisteredLoader> = TextMap::new();
        loaders.insert(String::from_str("javascript"), RegisteredLoader::JavaScript);
        loaders.insert(String::from_str("typescript"), RegisteredLoader::TypeScript);
        loaders.insert(String::from_str("json"), RegisteredLoader::Json);
        assert(loaders@.dom() =~= set!["javascript"@, "typescript"@, "json"@]);
        LoaderRegistry { loaders }
    }

    /// Binds `name` to `loader`, in place of what it was bound to before.
    /// The names are the old ones and `name`; every other name keeps its
    /// loader.
    pub fn register(&mut self, name: String, loader: Box<dyn Loader>)
        ensures
            final(self)@ == old(self)@.insert(name@, RegisteredLoader::Custom(loader)),
            final(self)@.dom() == old(self)@.dom().insert(name@),
            final(self)@.dom().contains(name@),
            final(self)@[name@] is Custom,
            final(self)@[name@] == RegisteredLoader::Custom(loader),
            forall|other: Seq<char>|
                other != name@ && old(self)@.dom().contains(other) ==> #[trigger] final(self)@[other] == old(
                    self,
                )@[other],
    {
        self.loaders.insert(name, RegisteredLoader::Custom(loader));
    }

    /// Runs the loader registered as `loader_name` on `content`.
    ///
    /// Fails with a loader error that names `loader_name` where no loader is
    /// registered under it. For one of the three default loaders the result
    /// is what that loader is bound to give; for any other loader it is what
    /// the loader returned, which is what the loader allows itself to give.
    pub fn load(&self, loader_name: &str, content: &str, path: &str) -> (r: Result<String, BundlerError>)
        ensures
            !self@.dom().contains(loader_name@) ==> text_result(r) == Err::<Seq<char>, BundlerErrorView>(
                BundlerErrorView::LoaderError(not_found_message(loader_name@)),
            ),
            self@.dom().contains(loader_name@) ==> (promised(self@[loader_name@], content@) matches Some(p)
                ==> text_result(r) == p),
            self@.dom().contains(loader_name@) ==> may_give(self@[loader_name@], content@, path@, r),
    {
        match self.loaders.get(loader_name) {
            Some(loader) => match loader {
                RegisteredLoader::JavaScript => JavaScriptLoader.load(content, path),
                RegisteredLoader::TypeScript => TypeScriptLoader.load(content, path),
                RegisteredLoader::Json => JsonLoader.load(content, path),
                RegisteredLoader::Custom(l) => l.load(content, path),
            },
            None => {
                let mut m = String::from_str("Loader '");
                m.append(loader_name);
                m.append("' not found");
                Err(BundlerError::LoaderError(m))
            },
        }
    }
}

} // verus!
