//! Finding the dependencies of a module in its text, by pattern.

use vstd::prelude::*;
use crate::dependency::{dependency_views, Dependency, DependencyType, DependencyView};
use crate::error::{BundlerError, BundlerErrorView};
use crate::pattern::{
    capture_views, group_views, match_groups, pattern_compiles, pattern_matches, rejected_message,
};

verus! {

/// An import with a source: `import ... from 'x'`.
pub const IMPORT_PATTERN: &'static str = "import\\s+.*?\\s+from\\s+['\"]([^'\"]+)['\"]";

/// A call of `require` on a literal: `require('x')`.
pub const REQUIRE_PATTERN: &'static str = "require\\(['\"]([^'\"]+)['\"]\\)";

/// The dependencies that a list of matches stands for: one for each match
/// whose group 1 took part, with the text of that group as its request.
pub open spec fn requests_in(groups: Seq<Seq<Option<Seq<char>>>>, kind: DependencyType) -> Seq<DependencyView>
    decreases groups.len(),
{
    if groups.len() == 0 {
        Seq::empty()
    } else {
        let rest = requests_in(groups.drop_last(), kind);
        let last = groups.last();
        if last.len() > 1 && last[1] is Some {
            rest.push(DependencyView { request: last[1]->Some_0, dependency_type: kind, range: None })
        } else {
            rest
        }
    }
}

/// The dependencies of a module with the text `content`: its imports in the
/// order of the text, then its requires in the order of the text.
pub open spec fn dependencies_in(content: Seq<char>) -> Seq<DependencyView> {
    requests_in(match_groups(pattern_matches(IMPORT_PATTERN@, content)), DependencyType::Import) + requests_in(
        match_groups(pattern_matches(REQUIRE_PATTERN@, content)),
        DependencyType::Require,
    )
}

/// What the extraction gives for the text `content` of the file `file`: the
/// dependencies, or a parse error that names the pattern that `Regex::new`
/// rejects.
pub open spec fn extraction(content: Seq<char>, file: Seq<char>) -> Result<Seq<DependencyView>, BundlerErrorView> {
    if !pattern_compiles(IMPORT_PATTERN@) {
        Err(BundlerErrorView::ParseError { file, message: rejected_message(IMPORT_PATTERN@) })
    } else if !pattern_compiles(REQUIRE_PATTERN@) {
        Err(BundlerErrorView::ParseError { file, message: rejected_message(REQUIRE_PATTERN@) })
    } else {
        Ok(dependencies_in(content))
    }
}

/// What an extraction gave, as mathematics.
pub open spec fn extraction_view(r: Result<Vec<Dependency>, BundlerError>) -> Result<
    Seq<DependencyView>,
    BundlerErrorView,
> {
    match r {
        Ok(deps) => Ok(dependency_views(deps@)),
        Err(e) => Err(e@),
    }
}

/// Appends to `out` the dependencies of kind `kind` that `captures` stands
/// for: one for each match whose group 1 took part.
pub fn collect_requests(out: &mut Vec<Dependency>, captures: &Vec<Vec<Option<String>>>, kind: DependencyType)
    ensures
        dependency_views(final(out)@) == dependency_views(old(out)@) + requests_in(capture_views(captures@), kind),
{
    let ghost start = dependency_views(out@);
    let ghost all = capture_views(captures@);
    let mut i: usize = 0;
    assert(all.take(0) =~= Seq::<Seq<Option<Seq<char>>>>::empty());
    assert(start + requests_in(all.take(0), kind) =~= start);
    while i < captures.len()
        invariant
            i <= captures.len(),
            all == capture_views(captures@),
            dependency_views(out@) == start + requests_in(all.take(i as int), kind),
        decreases captures.len() - i,
    {
        let groups = &captures[i];
        proof {
            assert(all.take(i + 1).drop_last() =~= all.take(i as int));
            assert(all.take(i + 1).last() == group_views(groups@));
        }
        if groups.len() > 1 {
            match &groups[1] {
                Some(request) => {
                    let ghost before = dependency_views(out@);
                    let dep = Dependency::new(request.clone(), kind);
                    out.push(dep);
                    proof {
                        assert(dependency_views(out@) =~= before.push(dep@));
                        assert(start + requests_in(all.take(i as int), kind).push(dep@) =~= (start + requests_in(
                            all.take(i as int),
                            kind,
                        )).push(dep@));
                    }
                },
                None => {},
            }
        }
        i += 1;
    }
    assert(all.take(i as int) =~= all);
}

} // verus!
