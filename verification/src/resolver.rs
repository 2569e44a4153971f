//! Turning a dependency request into the canonical path of a file.
//!
//! A request is resolved against the directory that holds the file it was
//! written in. The candidates are tried in a fixed order: the joined path
//! itself, where it exists and is no directory; the joined path with each
//! configured extension appended; and, where the joined path is a
//! directory, its `index` file with each extension. The first candidate
//! that exists wins and is canonicalized, so what comes back is the path of
//! a file, never that of a directory that was asked for.
//!
//! The resolver never touches the file system. A [`Resolution`] says which
//! question comes next and, handed the answer, either asks the next one or
//! ends with the result.

use vstd::prelude::*;
use vstd::string::*;
use crate::config::{default_extension_list, default_extensions};
use crate::fs::{FileSystem, FsAnswer, FsAnswerView, FsQuery, FsQueryView};
use crate::path::{directory_of, join_path, parent_directory, path_join};
use crate::text::{clone_texts, views};

verus! {

/// Why a request could not be resolved.
#[derive(Debug)]
pub enum ResolverError {
    /// No candidate path for the request exists.
    ModuleNotFound { request: String, context: String },
    /// The file system refused a lookup; the text is its message.
    Io(String),
}

/// The mathematical content of a [`ResolverError`].
pub enum ResolverErrorView {
    ModuleNotFound { request: Seq<char>, context: Seq<char> },
    Io(Seq<char>),
}

impl View for ResolverError {
    type V = ResolverErrorView;

    open spec fn view(&self) -> ResolverErrorView {
        match *self {
            ResolverError::ModuleNotFound { request, context } => ResolverErrorView::ModuleNotFound {
                request: request@,
                context: context@,
            },
            ResolverError::Io(m) => ResolverErrorView::Io(m@),
        }
    }
}

/// What a resolution ended with, as mathematics.
pub open spec fn resolved_view(r: Result<String, ResolverError>) -> Result<Seq<char>, ResolverErrorView> {
    match r {
        Ok(p) => Ok(p@),
        Err(e) => Err(e@),
    }
}

/// Extension `i` of `extensions`, or the empty text where there is none.
pub open spec fn extension_at(extensions: Seq<Seq<char>>, i: int) -> Seq<char> {
    if 0 <= i < extensions.len() {
        extensions[i]
    } else {
        Seq::empty()
    }
}

/// The candidate that appends extension `i` to `base`.
pub open spec fn extension_candidate(base: Seq<char>, extensions: Seq<Seq<char>>, i: int) -> Seq<char> {
    base + extension_at(extensions, i)
}

/// The candidate for the `index` file with extension `i` in directory `base`.
pub open spec fn index_candidate(base: Seq<char>, extensions: Seq<Seq<char>>, i: int) -> Seq<char> {
    path_join(base, "index"@ + extension_at(extensions, i))
}

/// `base` with each extension appended, in order.
pub open spec fn extension_candidates(base: Seq<char>, extensions: Seq<Seq<char>>) -> Seq<Seq<char>> {
    Seq::new(extensions.len(), |i: int| extension_candidate(base, extensions, i))
}

/// The `index` file of directory `base` with each extension, in order.
pub open spec fn index_candidates(base: Seq<char>, extensions: Seq<Seq<char>>) -> Seq<Seq<char>> {
    Seq::new(extensions.len(), |i: int| index_candidate(base, extensions, i))
}

/// The position of the first candidate at or behind `k` that exists.
pub open spec fn first_present(fs: FileSystem, candidates: Seq<Seq<char>>, k: int) -> Option<int>
    decreases candidates.len() - k,
{
    if k < 0 || k >= candidates.len() {
        None
    } else if fs.has_path(candidates[k]) {
        Some(k)
    } else {
        first_present(fs, candidates, k + 1)
    }
}

/// The canonical form of the winning candidate `path`, or the failure of
/// the file system to give it.
pub open spec fn settled(fs: FileSystem, path: Seq<char>) -> Result<Seq<char>, ResolverErrorView> {
    match fs.canonical(path) {
        Ok(c) => Ok(c),
        Err(m) => Err(ResolverErrorView::Io(m)),
    }
}

/// The path that `request`, written in the file or directory `context`,
/// resolves to under `extensions` in the file system `fs`: the joined path
/// where it exists and is no directory; else the first extension candidate
/// that exists; else, where the joined path is a directory, the first of
/// its index files that exists.
pub open spec fn resolved(
    extensions: Seq<Seq<char>>,
    request: Seq<char>,
    context: Seq<char>,
    fs: FileSystem,
) -> Result<Seq<char>, ResolverErrorView> {
    let dir = if fs.is_file(context) {
        directory_of(context)
    } else {
        context
    };
    let base = path_join(dir, request);
    let not_found = Err(ResolverErrorView::ModuleNotFound { request, context });
    if fs.has_path(base) && !fs.is_dir(base) {
        settled(fs, base)
    } else {
        match first_present(fs, extension_candidates(base, extensions), 0) {
            Some(k) => settled(fs, extension_candidate(base, extensions, k)),
            None => if fs.is_dir(base) {
                match first_present(fs, index_candidates(base, extensions), 0) {
                    Some(k) => settled(fs, index_candidate(base, extensions, k)),
                    None => not_found,
                }
            } else {
                not_found
            },
        }
    }
}

/// What `first_present` finds is the first candidate that exists: it
/// exists, and none between `k` and it does; where it finds none, none exists.
pub proof fn lemma_first_present(fs: FileSystem, candidates: Seq<Seq<char>>, k: int)
    requires
        0 <= k,
    ensures
        match first_present(fs, candidates, k) {
            Some(p) => k <= p < candidates.len() && fs.has_path(candidates[p]) && forall|j: int|
                k <= j < p ==> !fs.has_path(candidates[j]),
            None => forall|j: int| k <= j < candidates.len() ==> !fs.has_path(candidates[j]),
        },
    decreases candidates.len() - k,
{
    if k < candidates.len() && !fs.has_path(candidates[k]) {
        lemma_first_present(fs, candidates, k + 1);
    }
}

/// Where in its run a resolution stands: what its pending question is about.
#[derive(Debug)]
pub enum Stage {
    /// Is the context a file?
    Context,
    /// Does the joined path exist?
    Exact,
    /// Is the joined path, which exists, a directory?
    Kind,
    /// Does the joined path with extension `i` exist?
    Extension(usize),
    /// Is the joined path a directory?
    Directory,
    /// Does the index file with extension `i` exist?
    Index(usize),
    /// What is the canonical form of the winner?
    Canonical(String),
}

/// The mathematical content of a [`Stage`].
pub enum StageView {
    Context,
    Exact,
    Kind,
    Extension(int),
    Directory,
    Index(int),
    Canonical(Seq<char>),
}

impl View for Stage {
    type V = StageView;

    open spec fn view(&self) -> StageView {
        match *self {
            Stage::Context => StageView::Context,
            Stage::Exact => StageView::Exact,
            Stage::Kind => StageView::Kind,
            Stage::Extension(i) => StageView::Extension(i as int),
            Stage::Directory => StageView::Directory,
            Stage::Index(i) => StageView::Index(i as int),
            Stage::Canonical(p) => StageView::Canonical(p@),
        }
    }
}

/// A resolution under way.
#[derive(Debug)]
pub struct Resolution {
    request: String,
    context: String,
    extensions: Vec<String>,
    base: String,
    stage: Stage,
}

/// The mathematical content of a [`Resolution`].
pub struct ResolutionView {
    pub request: Seq<char>,
    pub context: Seq<char>,
    pub extensions: Seq<Seq<char>>,
    pub base: Seq<char>,
    pub stage: StageView,
}

/// What a resolution does next, as mathematics.
pub enum ResolveStepView {
    Ask(ResolutionView),
    Done(Result<Seq<char>, ResolverErrorView>),
}

/// What a resolution does next.
#[derive(Debug)]
pub enum ResolveStep {
    /// It has another question.
    Ask(Resolution),
    /// It has ended, with this result.
    Done(Result<String, ResolverError>),
}

impl View for ResolveStep {
    type V = ResolveStepView;

    open spec fn view(&self) -> ResolveStepView {
        match *self {
            ResolveStep::Ask(r) => ResolveStepView::Ask(r@),
            ResolveStep::Done(r) => ResolveStepView::Done(resolved_view(r)),
        }
    }
}

impl ResolutionView {
    /// The resolution of `request` from `context` before its first question.
    pub open spec fn start(extensions: Seq<Seq<char>>, request: Seq<char>, context: Seq<char>) -> ResolutionView {
        ResolutionView { request, context, extensions, base: Seq::empty(), stage: StageView::Context }
    }

    /// A stage that tries extension `i` names one of the extensions.
    pub open spec fn well_formed(self) -> bool {
        match self.stage {
            StageView::Extension(i) => 0 <= i < self.extensions.len(),
            StageView::Index(i) => 0 <= i < self.extensions.len(),
            _ => true,
        }
    }

    /// The pending question.
    pub open spec fn query(self) -> FsQueryView {
        match self.stage {
            StageView::Context => FsQueryView::IsFile(self.context),
            StageView::Exact => FsQueryView::Exists(self.base),
            StageView::Kind => FsQueryView::IsDir(self.base),
            StageView::Extension(i) => FsQueryView::Exists(extension_candidate(self.base, self.extensions, i)),
            StageView::Directory => FsQueryView::IsDir(self.base),
            StageView::Index(i) => FsQueryView::Exists(index_candidate(self.base, self.extensions, i)),
            StageView::Canonical(p) => FsQueryView::Canonicalize(p),
        }
    }

    /// The same resolution at another stage.
    pub open spec fn at(self, stage: StageView) -> ResolutionView {
        ResolutionView { stage, ..self }
    }

    /// The failure that says that no candidate exists.
    pub open spec fn not_found(self) -> Result<Seq<char>, ResolverErrorView> {
        Err(ResolverErrorView::ModuleNotFound { request: self.request, context: self.context })
    }

    /// What the resolution does when its pending question is answered.
    pub open spec fn advance(self, answer: FsAnswerView) -> ResolveStepView {
        let n = self.extensions.len();
        match self.stage {
            StageView::Context => {
                let dir = if answer.is_yes() {
                    directory_of(self.context)
                } else {
                    self.context
                };
                ResolveStepView::Ask(
                    ResolutionView { base: path_join(dir, self.request), stage: StageView::Exact, ..self },
                )
            },
            StageView::Exact => if answer.is_yes() {
                ResolveStepView::Ask(self.at(StageView::Kind))
            } else if n > 0 {
                ResolveStepView::Ask(self.at(StageView::Extension(0)))
            } else {
                ResolveStepView::Ask(self.at(StageView::Directory))
            },
            StageView::Kind => if !answer.is_yes() {
                ResolveStepView::Ask(self.at(StageView::Canonical(self.base)))
            } else if n > 0 {
                ResolveStepView::Ask(self.at(StageView::Extension(0)))
            } else {
                ResolveStepView::Ask(self.at(StageView::Directory))
            },
            StageView::Extension(i) => if answer.is_yes() {
                ResolveStepView::Ask(
                    self.at(StageView::Canonical(extension_candidate(self.base, self.extensions, i))),
                )
            } else if i + 1 < n {
                ResolveStepView::Ask(self.at(StageView::Extension(i + 1)))
            } else {
                ResolveStepView::Ask(self.at(StageView::Directory))
            },
            StageView::Directory => if answer.is_yes() && n > 0 {
                ResolveStepView::Ask(self.at(StageView::Index(0)))
            } else {
                ResolveStepView::Done(self.not_found())
            },
            StageView::Index(i) => if answer.is_yes() {
                ResolveStepView::Ask(self.at(StageView::Canonical(index_candidate(self.base, self.extensions, i))))
            } else if i + 1 < n {
                ResolveStepView::Ask(self.at(StageView::Index(i + 1)))
            } else {
                ResolveStepView::Done(self.not_found())
            },
            StageView::Canonical(_) => ResolveStepView::Done(
                match answer.as_path() {
                    Ok(c) => Ok(c),
                    Err(m) => Err(ResolverErrorView::Io(m)),
                },
            ),
        }
    }

    /// An upper bound on the number of questions that are still to come.
    pub open spec fn rank(self) -> nat {
        let n = self.extensions.len() as int;
        match self.stage {
            StageView::Context => (2 * n + 6) as nat,
            StageView::Exact => (2 * n + 5) as nat,
            StageView::Kind => (2 * n + 4) as nat,
            StageView::Extension(i) => if 0 <= i < n {
                (2 * n + 3 - i) as nat
            } else {
                0
            },
            StageView::Directory => (n + 2) as nat,
            StageView::Index(i) => if 0 <= i < n {
                (n + 1 - i) as nat
            } else {
                0
            },
            StageView::Canonical(_) => 0,
        }
    }

    /// The result of the resolution when each of its questions, from the
    /// pending one on, is answered by `fs`.
    pub open spec fn run(self, fs: FileSystem) -> Result<Seq<char>, ResolverErrorView>
        decreases self.rank(),
    {
        if !self.well_formed() {
            self.not_found()
        } else {
            match self.advance(fs.answer(self.query())) {
                ResolveStepView::Ask(next) => next.run(fs),
                ResolveStepView::Done(r) => r,
            }
        }
    }

    /// From a canonicalizing stage the run ends with the canonical form of
    /// the winner.
    pub proof fn lemma_run_canonical(self, fs: FileSystem, path: Seq<char>)
        requires
            self.stage == StageView::Canonical(path),
        ensures
            self.run(fs) == settled(fs, path),
    {
    }

    /// From the stage that tries index file `i` the run ends with the first
    /// index candidate at or behind `i` that exists, or finds nothing.
    pub proof fn lemma_run_index(self, fs: FileSystem, i: int)
        requires
            self.stage == StageView::Index(i),
            0 <= i < self.extensions.len(),
        ensures
            self.run(fs) == match first_present(fs, index_candidates(self.base, self.extensions), i) {
                Some(k) => settled(fs, index_candidate(self.base, self.extensions, k)),
                None => self.not_found(),
            },
        decreases self.extensions.len() - i,
    {
        let cands = index_candidates(self.base, self.extensions);
        assert(cands[i] == index_candidate(self.base, self.extensions, i));
        if fs.has_path(cands[i]) {
            self.at(StageView::Canonical(cands[i])).lemma_run_canonical(fs, cands[i]);
        } else if i + 1 < self.extensions.len() {
            self.at(StageView::Index(i + 1)).lemma_run_index(fs, i + 1);
        } else {
            assert(first_present(fs, cands, i + 1) is None);
        }
    }

    /// From the stage that asks whether the joined path is a directory the
    /// run ends with the first index candidate that exists, if the path is a
    /// directory, and finds nothing otherwise.
    pub proof fn lemma_run_directory(self, fs: FileSystem)
        requires
            self.stage == StageView::Directory,
        ensures
            self.run(fs) == if fs.is_dir(self.base) {
                match first_present(fs, index_candidates(self.base, self.extensions), 0) {
                    Some(k) => settled(fs, index_candidate(self.base, self.extensions, k)),
                    None => self.not_found(),
                }
            } else {
                self.not_found()
            },
    {
        if fs.is_dir(self.base) {
            if self.extensions.len() > 0 {
                self.at(StageView::Index(0)).lemma_run_index(fs, 0);
            } else {
                assert(first_present(fs, index_candidates(self.base, self.extensions), 0) is None);
            }
        }
    }

    /// From the stage that tries extension `i` the run ends with the first
    /// extension candidate at or behind `i` that exists, and goes on to the
    /// directory rule where there is none.
    pub proof fn lemma_run_extension(self, fs: FileSystem, i: int)
        requires
            self.stage == StageView::Extension(i),
            0 <= i < self.extensions.len(),
        ensures
            self.run(fs) == match first_present(fs, extension_candidates(self.base, self.extensions), i) {
                Some(k) => settled(fs, extension_candidate(self.base, self.extensions, k)),
                None => self.at(StageView::Directory).run(fs),
            },
        decreases self.extensions.len() - i,
    {
        let cands = extension_candidates(self.base, self.extensions);
        assert(cands[i] == extension_candidate(self.base, self.extensions, i));
        if fs.has_path(cands[i]) {
            self.at(StageView::Canonical(cands[i])).lemma_run_canonical(fs, cands[i]);
        } else if i + 1 < self.extensions.len() {
            self.at(StageView::Extension(i + 1)).lemma_run_extension(fs, i + 1);
            assert(self.at(StageView::Extension(i + 1)).at(StageView::Directory) == self.at(StageView::Directory));
        } else {
            assert(first_present(fs, cands, i + 1) is None);
        }
    }
}

/// Answered by a file system, the questions of a resolution lead to the
/// path that the request resolves to in that file system.
pub proof fn lemma_resolution_runs(
    extensions: Seq<Seq<char>>,
    request: Seq<char>,
    context: Seq<char>,
    fs: FileSystem,
)
    ensures
        ResolutionView::start(extensions, request, context).run(fs) == resolved(extensions, request, context, fs),
{
    let s0 = ResolutionView::start(extensions, request, context);
    let dir = if fs.is_file(context) {
        directory_of(context)
    } else {
        context
    };
    let base = path_join(dir, request);
    let s1 = ResolutionView { base, stage: StageView::Exact, ..s0 };
    assert(s0.advance(fs.answer(s0.query())) == ResolveStepView::Ask(s1));
    assert(s0.run(fs) == s1.run(fs));
    let s_dir = s1.at(StageView::Directory);
    s_dir.lemma_run_directory(fs);
    let s_kind = s1.at(StageView::Kind);
    if fs.has_path(base) {
        assert(s1.advance(fs.answer(s1.query())) == ResolveStepView::Ask(s_kind));
        assert(s1.run(fs) == s_kind.run(fs));
    }
    if fs.has_path(base) && !fs.is_dir(base) {
        s1.at(StageView::Canonical(base)).lemma_run_canonical(fs, base);
        assert(s_kind.at(StageView::Canonical(base)) == s1.at(StageView::Canonical(base)));
    } else if extensions.len() > 0 {
        assert(s_kind.at(StageView::Extension(0)) == s1.at(StageView::Extension(0)));
        s1.at(StageView::Extension(0)).lemma_run_extension(fs, 0);
        assert(s1.at(StageView::Extension(0)).at(StageView::Directory) == s_dir);
    } else {
        assert(s_kind.at(StageView::Directory) == s_dir);
        assert(first_present(fs, extension_candidates(base, extensions), 0) is None);
    }
}

/// Whether the joined path of a resolution names a file as it is: it
/// exists and is no directory.
pub open spec fn names_file(request: Seq<char>, context: Seq<char>, fs: FileSystem) -> bool {
    fs.has_path(resolution_base(request, context, fs)) && !fs.is_dir(resolution_base(request, context, fs))
}

/// A joined path that exists and is no directory wins over every other
/// candidate.
pub proof fn lemma_exact_file_wins(
    extensions: Seq<Seq<char>>,
    request: Seq<char>,
    context: Seq<char>,
    fs: FileSystem,
)
    requires
        names_file(request, context, fs),
    ensures
        resolved(extensions, request, context, fs) == settled(fs, resolution_base(request, context, fs)),
{
}

/// A request that names a directory resolves to an index file of the
/// directory: where no extension candidate exists and extension `k` is the
/// first whose index file exists, to the canonical form of that index file.
pub proof fn lemma_directory_index(
    extensions: Seq<Seq<char>>,
    request: Seq<char>,
    context: Seq<char>,
    fs: FileSystem,
    k: int,
)
    requires
        0 <= k < extensions.len(),
        fs.is_dir(resolution_base(request, context, fs)),
        forall|j: int| 0 <= j < extensions.len() ==> !fs.has_path(
            #[trigger] extension_candidate(resolution_base(request, context, fs), extensions, j),
        ),
        fs.has_path(index_candidate(resolution_base(request, context, fs), extensions, k)),
        forall|j: int| 0 <= j < k ==> !fs.has_path(
            #[trigger] index_candidate(resolution_base(request, context, fs), extensions, j),
        ),
    ensures
        resolved(extensions, request, context, fs) == settled(
            fs,
            index_candidate(resolution_base(request, context, fs), extensions, k),
        ),
{
    let base = resolution_base(request, context, fs);
    let plain = extension_candidates(base, extensions);
    let index = index_candidates(base, extensions);
    lemma_first_present(fs, plain, 0);
    lemma_first_present(fs, index, 0);
    match first_present(fs, plain, 0) {
        Some(p) => {
            assert(plain[p] == extension_candidate(base, extensions, p));
        },
        None => {},
    }
    assert(index[k] == index_candidate(base, extensions, k));
    match first_present(fs, index, 0) {
        Some(p) => {
            assert(index[p] == index_candidate(base, extensions, p));
            if k < p {
                assert(fs.has_path(index[k]));
            }
        },
        None => {},
    }
}

/// Extension order decides: where the joined path names no file as it is
/// and extension `k` is the first whose candidate exists, the request
/// resolves to the canonical form of that candidate.
pub proof fn lemma_extension_priority(
    extensions: Seq<Seq<char>>,
    request: Seq<char>,
    context: Seq<char>,
    fs: FileSystem,
    k: int,
)
    requires
        0 <= k < extensions.len(),
        !names_file(request, context, fs),
        fs.has_path(resolution_base(request, context, fs) + extensions[k]),
        forall|j: int| 0 <= j < k ==> !fs.has_path(resolution_base(request, context, fs) + #[trigger] extensions[j]),
    ensures
        resolved(extensions, request, context, fs) == settled(
            fs,
            resolution_base(request, context, fs) + extensions[k],
        ),
{
    let base = resolution_base(request, context, fs);
    let cands = extension_candidates(base, extensions);
    lemma_first_present(fs, cands, 0);
    assert(cands[k] == base + extensions[k]);
    match first_present(fs, cands, 0) {
        Some(p) => {
            if p < k {
                assert(cands[p] == base + extensions[p]);
            }
        },
        None => {},
    }
}

/// A request that names no file as it is and none of whose other candidates
/// exists is not found.
pub proof fn lemma_nothing_matches(
    extensions: Seq<Seq<char>>,
    request: Seq<char>,
    context: Seq<char>,
    fs: FileSystem,
)
    requires
        !names_file(request, context, fs),
        forall|j: int| 0 <= j < extensions.len() ==> !fs.has_path(
            #[trigger] extension_candidate(resolution_base(request, context, fs), extensions, j),
        ),
        fs.is_dir(resolution_base(request, context, fs)) ==> forall|j: int| 0 <= j < extensions.len() ==> !fs.has_path(
            #[trigger] index_candidate(resolution_base(request, context, fs), extensions, j),
        ),
    ensures
        resolved(extensions, request, context, fs) == Err::<Seq<char>, ResolverErrorView>(
            ResolverErrorView::ModuleNotFound { request, context },
        ),
{
    let base = resolution_base(request, context, fs);
    lemma_first_present(fs, extension_candidates(base, extensions), 0);
    lemma_first_present(fs, index_candidates(base, extensions), 0);
    match first_present(fs, extension_candidates(base, extensions), 0) {
        Some(p) => {
            assert(extension_candidates(base, extensions)[p] == extension_candidate(base, extensions, p));
        },
        None => {},
    }
    if fs.is_dir(base) {
        match first_present(fs, index_candidates(base, extensions), 0) {
            Some(p) => {
                assert(index_candidates(base, extensions)[p] == index_candidate(base, extensions, p));
            },
            None => {},
        }
    }
}

/// The joined path of a resolution: `request` as seen from the directory
/// that holds `context`, or from `context` itself where it is no file.
pub open spec fn resolution_base(request: Seq<char>, context: Seq<char>, fs: FileSystem) -> Seq<char> {
    path_join(
        if fs.is_file(context) {
            directory_of(context)
        } else {
            context
        },
        request,
    )
}

impl View for Resolution {
    type V = ResolutionView;

    closed spec fn view(&self) -> ResolutionView {
        ResolutionView {
            request: self.request@,
            context: self.context@,
            extensions: views(self.extensions@),
            base: self.base@,
            stage: self.stage@,
        }
    }
}

impl Resolution {
    /// The pending question.
    pub fn query(&self) -> (q: FsQuery)
        ensures
            q@ == self@.query(),
    {
        match &self.stage {
            Stage::Context => FsQuery::IsFile(self.context.clone()),
            Stage::Exact => FsQuery::Exists(self.base.clone()),
            Stage::Kind => FsQuery::IsDir(self.base.clone()),
            Stage::Extension(i) => FsQuery::Exists(self.with_extension(*i)),
            Stage::Directory => FsQuery::IsDir(self.base.clone()),
            Stage::Index(i) => FsQuery::Exists(self.index_file(*i)),
            Stage::Canonical(p) => FsQuery::Canonicalize(p.clone()),
        }
    }

    /// The joined path with extension `i` appended.
    fn with_extension(&self, i: usize) -> (p: String)
        ensures
            p@ == extension_candidate(self@.base, self@.extensions, i as int),
    {
        let mut p = self.base.clone();
        if i < self.extensions.len() {
            p.append(self.extensions[i].as_str());
        }
        assert(p@ =~= extension_candidate(self@.base, self@.extensions, i as int));
        p
    }

    /// The index file with extension `i` in the joined path.
    fn index_file(&self, i: usize) -> (p: String)
        ensures
            p@ == index_candidate(self@.base, self@.extensions, i as int),
    {
        let mut name = String::from_str("index");
        if i < self.extensions.len() {
            name.append(self.extensions[i].as_str());
        }
        assert(name@ =~= "index"@ + extension_at(self@.extensions, i as int));
        join_path(self.base.as_str(), name.as_str())
    }

    /// The failure that says that no candidate exists.
    fn not_found(self) -> (r: Result<String, ResolverError>)
        ensures
            resolved_view(r) == self@.not_found(),
    {
        Err(ResolverError::ModuleNotFound { request: self.request, context: self.context })
    }

    /// Takes the answer to the pending question and says what comes next:
    /// another question, or the result.
    pub fn advance(self, answer: FsAnswer) -> (step: ResolveStep)
        ensures
            step@ == self@.advance(answer@),
            self@.well_formed() ==> (step matches ResolveStep::Ask(next) ==> next@.well_formed() && next@.rank()
                < self@.rank()),
    {
        let n = self.extensions.len();
        let mut this = self;
        match this.stage {
            Stage::Context => {
                let dir = if answer.is_yes() {
                    parent_directory(this.context.as_str())
                } else {
                    this.context.clone()
                };
                this.base = join_path(dir.as_str(), this.request.as_str());
                this.stage = Stage::Exact;
                ResolveStep::Ask(this)
            },
            Stage::Exact => {
                if answer.is_yes() {
                    this.stage = Stage::Kind;
                } else if n > 0 {
                    this.stage = Stage::Extension(0);
                } else {
                    this.stage = Stage::Directory;
                }
                ResolveStep::Ask(this)
            },
            Stage::Kind => {
                if !answer.is_yes() {
                    this.stage = Stage::Canonical(this.base.clone());
                } else if n > 0 {
                    this.stage = Stage::Extension(0);
                } else {
                    this.stage = Stage::Directory;
                }
                ResolveStep::Ask(this)
            },
            Stage::Extension(i) => {
                if answer.is_yes() {
                    let winner = this.with_extension(i);
                    this.stage = Stage::Canonical(winner);
                } else if n > 0 && i < n - 1 {
                    this.stage = Stage::Extension(i + 1);
                } else {
                    this.stage = Stage::Directory;
                }
                ResolveStep::Ask(this)
            },
            Stage::Directory => {
                if answer.is_yes() && n > 0 {
                    this.stage = Stage::Index(0);
                    ResolveStep::Ask(this)
                } else {
                    ResolveStep::Done(this.not_found())
                }
            },
            Stage::Index(i) => {
                if answer.is_yes() {
                    let winner = this.index_file(i);
                    this.stage = Stage::Canonical(winner);
                    ResolveStep::Ask(this)
                } else if n > 0 && i < n - 1 {
                    this.stage = Stage::Index(i + 1);
                    ResolveStep::Ask(this)
                } else {
                    ResolveStep::Done(this.not_found())
                }
            },
            Stage::Canonical(_) => {
                match answer.into_path() {
                    Ok(c) => ResolveStep::Done(Ok(c)),
                    Err(m) => ResolveStep::Done(Err(ResolverError::Io(m))),
                }
            },
        }
    }
}

/// Resolves requests under an ordered list of extensions.
pub struct Resolver {
    extensions: Vec<String>,
}

impl Resolver {
    /// The extensions that are tried, in order.
    pub closed spec fn extension_seq(&self) -> Seq<Seq<char>> {
        views(self.extensions@)
    }

    /// A resolver with the default extensions.
    pub fn new() -> (r: Resolver)
        ensures
            r.extension_seq() == default_extensions(),
    {
        Resolver { extensions: default_extension_list() }
    }

    /// The same resolver with `extensions` in place of its own.
    pub fn with_extensions(self, extensions: Vec<String>) -> (r: Resolver)
        ensures
            r.extension_seq() == views(extensions@),
    {
        let mut r = self;
        r.extensions = extensions;
        r
    }

    /// A copy of the resolver.
    pub fn duplicate(&self) -> (r: Resolver)
        ensures
            r.extension_seq() == self.extension_seq(),
    {
        Resolver { extensions: clone_texts(&self.extensions) }
    }

    /// Starts to resolve `request` as written in the file or directory
    /// `context`. The resolution that comes back asks its questions one by
    /// one; answered by a file system they lead to what [`resolved`] says.
    pub fn resolve(&self, request: &str, context: &str) -> (r: Resolution)
        ensures
            r@ == ResolutionView::start(self.extension_seq(), request@, context@),
            r@.well_formed(),
    {
        Resolution {
            request: String::from_str(request),
            context: String::from_str(context),
            extensions: clone_texts(&self.extensions),
            base: String::new(),
            stage: Stage::Context,
        }
    }
}

} // verus!
