//! Plugins: hooks that run, in the order of their registration, after the
//! bundle was emitted.

use std::collections::HashMap;
use vstd::prelude::*;
use vstd::string::*;
use crate::error::BundlerError;
use crate::module::Module;

verus! {

/// A JSON value, as `serde_json` holds it. Plugins store such values in the
/// context; the library only carries them.
#[verifier::external_type_specification]
#[verifier::external_body]
pub struct ExJsonValue(serde_json::Value);

/// What every hook of a run sees and may change.
pub struct PluginContext {
    pub modules: Vec<Module>,
    pub output_path: String,
    pub data: HashMap<String, serde_json::Value>,
}

impl PluginContext {
    /// A context for the output directory `output_path`, with no modules and
    /// no data yet.
    pub fn new(output_path: String) -> (c: PluginContext)
        ensures
            c.modules@.len() == 0,
            c.output_path == output_path,
            c.data@.len() == 0,
    {
        PluginContext { modules: Vec::new(), output_path, data: HashMap::new() }
    }
}

/// A hook with a name. Implementations decide what `apply` does and
/// returns. A plugin may say what it does, as a relation between the context
/// before, the context after and what it returns; one that says nothing
/// allows everything, and nothing is promised in its name.
pub trait Plugin {
    /// Whether the hook may turn the context `before` into `after` and
    /// return `outcome`. Everything is allowed unless the plugin says
    /// otherwise.
    open spec fn allows(&self, before: PluginContext, after: PluginContext, outcome: Result<(), BundlerError>) -> bool {
        true
    }

    /// Runs the hook on the shared context.
    fn apply(&self, context: &mut PluginContext) -> (outcome: Result<(), BundlerError>)
        ensures
            self.allows(*old(context), *final(context), outcome),
    ;

    /// The name that the plugin goes by.
    fn name(&self) -> &str;
}

/// What a run of hooks does after one hook has returned.
#[derive(Debug)]
pub enum HookStep {
    /// Run the hook at this position next.
    Next(usize),
    /// Stop, with this result for the whole run.
    Stop(Result<(), BundlerError>),
}

/// Whether hook `k` of `plugins` may turn the context `before` into `after`
/// and return `outcome`, which is good.
pub open spec fn hook_went_well(
    plugins: Seq<Box<dyn Plugin>>,
    k: int,
    before: PluginContext,
    after: PluginContext,
    outcome: Result<(), BundlerError>,
) -> bool {
    outcome is Ok && plugins[k].allows(before, after, outcome)
}

/// Whether the first `n` hooks of `plugins`, each allowed to do what it did
/// and each returning well, turn the context `before` into `after`, one
/// after the other in the order of the list: each hook starts from the
/// context that the hook before it left.
pub open spec fn hooks_ran(plugins: Seq<Box<dyn Plugin>>, n: int, before: PluginContext, after: PluginContext) -> bool
    decreases n,
{
    if n <= 0 {
        after == before
    } else {
        exists|mid: PluginContext, outcome: Result<(), BundlerError>| #[trigger]
            hook_went_well(plugins, n - 1, mid, after, outcome) && hooks_ran(plugins, n - 1, before, mid)
    }
}

/// One more hook that went well extends a run of hooks that went well.
pub proof fn lemma_hook_ran(
    plugins: Seq<Box<dyn Plugin>>,
    n: int,
    before: PluginContext,
    mid: PluginContext,
    after: PluginContext,
    outcome: Result<(), BundlerError>,
)
    requires
        n > 0,
        hooks_ran(plugins, n - 1, before, mid),
        hook_went_well(plugins, n - 1, mid, after, outcome),
    ensures
        hooks_ran(plugins, n, before, after),
{
}

/// Whether the first `k` hooks of `plugins` turn `before` into `mid`, and
/// hook `k` then turns `mid` into `after` and fails with `e`.
pub open spec fn hook_failed_from(
    plugins: Seq<Box<dyn Plugin>>,
    k: int,
    before: PluginContext,
    mid: PluginContext,
    after: PluginContext,
    e: BundlerError,
) -> bool {
    &&& 0 <= k < plugins.len()
    &&& hooks_ran(plugins, k, before, mid)
    &&& plugins[k].allows(mid, after, Err(e))
}

/// Whether some hook of `plugins` fails with `e` and leaves the context
/// `after`, when all hooks before it have run well from `before`.
pub open spec fn hook_failed(plugins: Seq<Box<dyn Plugin>>, before: PluginContext, after: PluginContext, e: BundlerError) -> bool {
    exists|k: int, mid: PluginContext| hook_failed_from(plugins, k, before, mid, after, e)
}

/// What a run of all hooks of `plugins` may do to the context and return:
/// either every hook ran well, in order, and the run succeeds; or the hooks
/// ran well up to one that failed, no hook ran behind it, and its error is
/// the result.
pub open spec fn hooks_applied(
    plugins: Seq<Box<dyn Plugin>>,
    before: PluginContext,
    after: PluginContext,
    result: Result<(), BundlerError>,
) -> bool {
    match result {
        Ok(()) => hooks_ran(plugins, plugins.len() as int, before, after),
        Err(e) => hook_failed(plugins, before, after, e),
    }
}

/// Appends `item` to `list`.
pub(crate) fn append_item<T>(list: &mut Vec<T>, item: T)
    ensures
        final(list)@ == old(list)@.push(item),
        final(list)@.len() == old(list)@.len() + 1,
        final(list)@[old(list)@.len() as int] == item,
        forall|i: int| 0 <= i < old(list)@.len() ==> #[trigger] final(list)@[i] == old(list)@[i],
{
    list.push(item);
}

/// The plugins of a run, in the order of their registration.
pub struct PluginManager {
    plugins: Vec<Box<dyn Plugin>>,
}

impl PluginManager {
    /// The registered plugins, oldest first.
    pub closed spec fn registered(&self) -> Seq<Box<dyn Plugin>> {
        self.plugins@
    }

    /// A manager without plugins.
    pub fn new() -> (m: Self)
        ensures
            m.registered().len() == 0,
    {
        PluginManager { plugins: Vec::new() }
    }

    /// Registers `plugin` behind those that are registered already, which
    /// stay as they are.
    pub fn add_plugin(&mut self, plugin: Box<dyn Plugin>)
        ensures
            final(self).registered() == old(self).registered().push(plugin),
            final(self).registered().len() == old(self).registered().len() + 1,
            forall|i: int|
                0 <= i < old(self).registered().len() ==> #[trigger] final(self).registered()[i] == old(
                    self,
                ).registered()[i],
    {
        append_item(&mut self.plugins, plugin);
    }

    /// The list of the registered plugins, for the compiler to add to.
    pub(crate) fn list(&mut self) -> (list: &mut Vec<Box<dyn Plugin>>)
        ensures
            list@ == old(self).registered(),
            final(self).registered() == final(list)@,
    {
        &mut self.plugins
    }

    /// The number of registered plugins.
    pub fn len(&self) -> (n: usize)
        ensures
            n == self.registered().len(),
    {
        self.plugins.len()
    }

    /// What follows when the hook at `position`, of `count` hooks, has
    /// returned `outcome`: a failure stops the run and is its result; after a
    /// success the next hook runs, or the run ends well behind the last one.
    pub fn after_hook(position: usize, count: usize, outcome: Result<(), BundlerError>) -> (step: HookStep)
        ensures
            match outcome {
                Err(e) => step == HookStep::Stop(Err(e)),
                Ok(()) => if position + 1 < count {
                    step == HookStep::Next((position + 1) as usize)
                } else {
                    step == HookStep::Stop(Ok(()))
                },
            },
    {
        match outcome {
            Err(e) => HookStep::Stop(Err(e)),
            Ok(()) => if count > 0 && position < count - 1 {
                HookStep::Next(position + 1)
            } else {
                HookStep::Stop(Ok(()))
            },
        }
    }

    /// Runs every hook on `context`, in the order of registration, until one
    /// fails; its error is then the result, and the hooks behind it do not
    /// run. Each hook starts from the context that the hook before it left.
    /// Without plugins nothing happens and the run succeeds.
    pub fn apply_all(&self, context: &mut PluginContext) -> (r: Result<(), BundlerError>)
        ensures
            hooks_applied(self.registered(), *old(context), *final(context), r),
            self.registered().len() == 0 ==> r is Ok && *final(context) == *old(context),
    {
        let ghost start = *context;
        let count = self.plugins.len();
        if count == 0 {
            return Ok(());
        }
        let mut position: usize = 0;
        loop
            invariant
                position < count,
                count == self.plugins@.len(),
                start == *old(context),
                hooks_ran(self.plugins@, position as int, start, *context),
            decreases count - position,
        {
            let ghost mid = *context;
            let outcome = self.plugins[position].apply(context);
            proof {
                assert(self.plugins@[position as int].allows(mid, *context, outcome));
                if outcome is Ok {
                    lemma_hook_ran(self.plugins@, position + 1, start, mid, *context, outcome);
                } else {
                    assert(hook_failed_from(
                        self.plugins@,
                        position as int,
                        start,
                        mid,
                        *context,
                        outcome->Err_0,
                    ));
                    assert(hook_failed(self.plugins@, start, *context, outcome->Err_0));
                    assert(hooks_applied(self.plugins@, start, *context, outcome));
                }
            }
            match Self::after_hook(position, count, outcome) {
                HookStep::Next(next) => {
                    position = next;
                },
                HookStep::Stop(result) => {
                    return result;
                },
            }
        }
    }
}

/// Writes a page that loads the bundle. The library computes where the page
/// goes and what it holds; writing it is the caller's part.
pub struct HtmlPlugin {
    template: String,
}

/// The page that loads the bundle.
pub open spec fn html_page() -> Seq<char> {
    "<!DOCTYPE html>\n<html>\n<head>\n    <title>Bundled App</title>\n</head>\n<body>\n    <div id=\"root\"></div>\n    <script src=\"bundle.js\"></script>\n</body>\n</html>"@
}

impl HtmlPlugin {
    /// The template that the plugin was made with.
    pub closed spec fn template_text(&self) -> Seq<char> {
        self.template@
    }

    /// A plugin for the given template.
    pub fn new(template: String) -> (p: HtmlPlugin)
        ensures
            p.template_text() == template@,
    {
        HtmlPlugin { template }
    }

    /// The template that the plugin was made with.
    pub fn template(&self) -> (t: &str)
        ensures
            t@ == self.template_text(),
    {
        self.template.as_str()
    }

    /// The text of the page.
    pub fn page(&self) -> (text: String)
        ensures
            text@ == html_page(),
    {
        String::from_str(
            "<!DOCTYPE html>\n<html>\n<head>\n    <title>Bundled App</title>\n</head>\n<body>\n    <div id=\"root\"></div>\n    <script src=\"bundle.js\"></script>\n</body>\n</html>",
        )
    }

    /// Where the page goes: `index.html` in the output directory.
    pub fn page_path(&self, context: &PluginContext) -> (path: String)
        ensures
            path@ == context.output_path@ + "/index.html"@,
    {
        let mut path = context.output_path.clone();
        path.append("/index.html");
        path
    }
}

} // verus!
