//! Chunks: named groups of modules that are emitted as one asset each.

use vstd::prelude::*;
use vstd::string::*;
use crate::error::BundlerError;
use crate::module::{is_entry_id, module_ids, Module};
use crate::text::{clone_texts, contains_text, option_view, views};

verus! {

/// What role a chunk plays in the output.
#[derive(Debug, Clone, Copy, PartialEq, Eq, Structural)]
pub enum ChunkType {
    Entry,
    Normal,
    Async,
}

/// A group of modules. `modules` and `entry_points` hold module ids, each at
/// most once, in the order in which they were added.
#[derive(Debug)]
pub struct Chunk {
    pub id: String,
    pub name: Option<String>,
    pub modules: Vec<String>,
    pub entry_points: Vec<String>,
    pub chunk_type: ChunkType,
}

/// The mathematical content of a [`Chunk`].
pub struct ChunkView {
    pub id: Seq<char>,
    pub name: Option<Seq<char>>,
    pub modules: Seq<Seq<char>>,
    pub entry_points: Seq<Seq<char>>,
    pub chunk_type: ChunkType,
}

impl View for Chunk {
    type V = ChunkView;

    open spec fn view(&self) -> ChunkView {
        ChunkView {
            id: self.id@,
            name: option_view(self.name),
            modules: views(self.modules@),
            entry_points: views(self.entry_points@),
            chunk_type: self.chunk_type,
        }
    }
}

/// The views of a list of chunks, in order.
pub open spec fn chunk_views(v: Seq<Chunk>) -> Seq<ChunkView> {
    Seq::new(v.len(), |i: int| v[i]@)
}

/// `list` with `id` appended unless it is there already.
pub open spec fn with_id(list: Seq<Seq<char>>, id: Seq<char>) -> Seq<Seq<char>> {
    if list.contains(id) {
        list
    } else {
        list.push(id)
    }
}

/// The ids of `ids` in order, each kept at its first occurrence only.
pub open spec fn distinct_ids(ids: Seq<Seq<char>>) -> Seq<Seq<char>>
    decreases ids.len(),
{
    if ids.len() == 0 {
        Seq::empty()
    } else {
        with_id(distinct_ids(ids.drop_last()), ids.last())
    }
}

/// The ids of `ids` that carry the entry marker, in order.
pub open spec fn entry_ids(ids: Seq<Seq<char>>) -> Seq<Seq<char>> {
    ids.filter(|id: Seq<char>| is_entry_id(id))
}

/// The one chunk that holds every module of a run: id and name `main`, kind
/// entry, every id once in traversal order, and the entry ids as entry points.
pub open spec fn main_chunk(ids: Seq<Seq<char>>) -> ChunkView {
    ChunkView {
        id: "main"@,
        name: Some("main"@),
        modules: distinct_ids(ids),
        entry_points: distinct_ids(entry_ids(ids)),
        chunk_type: ChunkType::Entry,
    }
}

/// `distinct_ids` keeps exactly the ids of its argument, each once.
pub proof fn lemma_distinct_ids(ids: Seq<Seq<char>>)
    ensures
        distinct_ids(ids).no_duplicates(),
        forall|x: Seq<char>| distinct_ids(ids).contains(x) <==> ids.contains(x),
        ids.no_duplicates() ==> distinct_ids(ids) == ids,
    decreases ids.len(),
{
    if ids.len() > 0 {
        let front = ids.drop_last();
        let last = ids.last();
        lemma_distinct_ids(front);
        let d = distinct_ids(front);
        assert forall|x: Seq<char>| distinct_ids(ids).contains(x) <==> ids.contains(x) by {
            if ids.contains(x) {
                let k = choose|k: int| 0 <= k < ids.len() && ids[k] == x;
                if k < front.len() {
                    assert(front[k] == x);
                    assert(front.contains(x));
                    assert(d.contains(x));
                    let j = choose|j: int| 0 <= j < d.len() && d[j] == x;
                    assert(distinct_ids(ids)[j] == x);
                } else {
                    if !d.contains(last) {
                        assert(d.push(last)[d.len() as int] == x);
                    }
                }
            }
            if distinct_ids(ids).contains(x) {
                let j = choose|j: int| 0 <= j < distinct_ids(ids).len() && distinct_ids(ids)[j] == x;
                if j < d.len() {
                    assert(d[j] == x);
                    assert(d.contains(x));
                    assert(front.contains(x));
                    let k = choose|k: int| 0 <= k < front.len() && front[k] == x;
                    assert(ids[k] == x);
                } else {
                    assert(ids[ids.len() - 1] == x);
                }
            }
        }
        if ids.no_duplicates() {
            assert(front.no_duplicates());
            if front.contains(last) {
                let k = choose|k: int| 0 <= k < front.len() && front[k] == last;
                assert(ids[k] == ids[ids.len() - 1]);
            }
            assert(distinct_ids(ids) =~= ids);
        }
    }
}

/// The main chunk names no module that is not among `ids`: each of its
/// modules is one of `ids`, and each of its entry points is one of its
/// modules and carries the entry marker.
pub proof fn lemma_chunk_names_modules(ids: Seq<Seq<char>>)
    ensures
        forall|x: Seq<char>| #[trigger] main_chunk(ids).modules.contains(x) ==> ids.contains(x),
        forall|x: Seq<char>| #[trigger]
            main_chunk(ids).entry_points.contains(x) ==> main_chunk(ids).modules.contains(x) && is_entry_id(x),
{
    lemma_distinct_ids(ids);
    lemma_distinct_ids(entry_ids(ids));
    let pred = |id: Seq<char>| is_entry_id(id);
    assert forall|x: Seq<char>| #[trigger]
        main_chunk(ids).entry_points.contains(x) implies main_chunk(ids).modules.contains(x) && is_entry_id(
        x,
    ) by {
        assert(entry_ids(ids).contains(x));
        ids.lemma_filter_contains_rev(pred, x);
        let k = choose|k: int| 0 <= k < entry_ids(ids).len() && entry_ids(ids)[k] == x;
        ids.lemma_filter_pred(pred, k);
        assert(ids.contains(x));
        assert(distinct_ids(ids).contains(x));
    }
}

/// With exactly one entry-marked module among `ids`, at position `e`, the
/// main chunk holds every id of `ids`, each exactly once, and exactly one
/// entry point: the id of that module. Where no id repeats, the chunk's
/// modules are `ids` themselves.
pub proof fn lemma_single_entry_chunk(ids: Seq<Seq<char>>, e: int)
    requires
        0 <= e < ids.len(),
        forall|i: int| 0 <= i < ids.len() ==> (is_entry_id(#[trigger] ids[i]) <==> i == e),
    ensures
        main_chunk(ids).chunk_type == ChunkType::Entry,
        main_chunk(ids).modules.no_duplicates(),
        forall|i: int| 0 <= i < ids.len() ==> main_chunk(ids).modules.contains(#[trigger] ids[i]),
        forall|x: Seq<char>| main_chunk(ids).modules.contains(x) ==> ids.contains(x),
        ids.no_duplicates() ==> main_chunk(ids).modules == ids,
        main_chunk(ids).entry_points == seq![ids[e]],
{
    lemma_distinct_ids(ids);
    assert forall|i: int| 0 <= i < ids.len() implies main_chunk(ids).modules.contains(#[trigger] ids[i]) by {
        assert(ids.contains(ids[i]));
    }
    lemma_only_entry(ids, e, ids.len() as int);
    assert(ids.take(ids.len() as int) =~= ids);
    let one = seq![ids[e]];
    assert(one.drop_last() =~= Seq::<Seq<char>>::empty());
    assert(distinct_ids(one.drop_last()) =~= Seq::<Seq<char>>::empty());
    assert(distinct_ids(one) =~= one);
}

/// Among the first `n` ids, the entry ids are the one at `e`, if `e < n`.
proof fn lemma_only_entry(ids: Seq<Seq<char>>, e: int, n: int)
    requires
        0 <= e < ids.len(),
        0 <= n <= ids.len(),
        forall|i: int| 0 <= i < ids.len() ==> (is_entry_id(#[trigger] ids[i]) <==> i == e),
    ensures
        entry_ids(ids.take(n)) == if e < n { seq![ids[e]] } else { Seq::<Seq<char>>::empty() },
    decreases n,
{
    reveal(Seq::filter);
    if n > 0 {
        lemma_only_entry(ids, e, n - 1);
        assert(ids.take(n).drop_last() =~= ids.take(n - 1));
        assert(ids.take(n).last() == ids[n - 1]);
        if n - 1 == e {
            assert(Seq::<Seq<char>>::empty().push(ids[e]) =~= seq![ids[e]]);
        }
    } else {
        assert(ids.take(0) =~= Seq::<Seq<char>>::empty());
    }
}

impl Chunk {
    /// Neither list of ids holds an id twice.
    pub open spec fn well_formed(&self) -> bool {
        &&& views(self.modules@).no_duplicates()
        &&& views(self.entry_points@).no_duplicates()
    }

    /// An empty, unnamed chunk.
    pub fn new(id: String, chunk_type: ChunkType) -> (c: Chunk)
        ensures
            c.id == id,
            c.name is None,
            c.modules@.len() == 0,
            c.entry_points@.len() == 0,
            c.chunk_type == chunk_type,
            c.well_formed(),
    {
        Chunk { id, name: None, modules: Vec::new(), entry_points: Vec::new(), chunk_type }
    }

    /// Adds a module id unless the chunk holds it already.
    pub fn add_module(&mut self, module_id: String)
        ensures
            views(final(self).modules@) == with_id(views(old(self).modules@), module_id@),
            final(self).id == old(self).id,
            final(self).name == old(self).name,
            final(self).entry_points == old(self).entry_points,
            final(self).chunk_type == old(self).chunk_type,
            old(self).well_formed() ==> final(self).well_formed(),
    {
        if !contains_text(&self.modules, &module_id) {
            self.modules.push(module_id);
            assert(views(self.modules@) =~= views(old(self).modules@).push(module_id@));
        }
    }

    /// Adds an entry point unless the chunk holds it already.
    pub fn add_entry_point(&mut self, entry_id: String)
        ensures
            views(final(self).entry_points@) == with_id(views(old(self).entry_points@), entry_id@),
            final(self).id == old(self).id,
            final(self).name == old(self).name,
            final(self).modules == old(self).modules,
            final(self).chunk_type == old(self).chunk_type,
            old(self).well_formed() ==> final(self).well_formed(),
    {
        if !contains_text(&self.entry_points, &entry_id) {
            self.entry_points.push(entry_id);
            assert(views(self.entry_points@) =~= views(old(self).entry_points@).push(entry_id@));
        }
    }
}

impl Clone for Chunk {
    fn clone(&self) -> (c: Chunk)
        ensures
            c@ == self@,
    {
        let name = match &self.name {
            Some(n) => Some(n.clone()),
            None => None,
        };
        Chunk {
            id: self.id.clone(),
            name,
            modules: clone_texts(&self.modules),
            entry_points: clone_texts(&self.entry_points),
            chunk_type: self.chunk_type,
        }
    }
}

/// Groups modules into chunks, and remembers every chunk it made.
pub struct ChunkGenerator {
    chunks: Vec<Chunk>,
}

impl ChunkGenerator {
    /// The chunks made so far, oldest first.
    pub closed spec fn made(&self) -> Seq<ChunkView> {
        chunk_views(self.chunks@)
    }

    /// A generator that has made no chunk yet.
    pub fn new() -> (g: ChunkGenerator)
        ensures
            g.made().len() == 0,
    {
        ChunkGenerator { chunks: Vec::new() }
    }

    /// Puts all `modules` into one chunk, the main chunk of their ids, and
    /// remembers it. Never fails.
    pub fn generate_chunks(&mut self, modules: &[Module]) -> (r: Result<Vec<Chunk>, BundlerError>)
        ensures
            r matches Ok(chunks) && chunk_views(chunks@) == seq![main_chunk(module_ids(modules@))]
                && chunks@[0].well_formed(),
            final(self).made() == old(self).made().push(main_chunk(module_ids(modules@))),
    {
        let ghost ids = module_ids(modules@);
        let mut main_chunk = Chunk::new(String::from_str("main"), ChunkType::Entry);
        let mut i: usize = 0;
        assert(ids.take(0) =~= Seq::<Seq<char>>::empty());
        assert(entry_ids(Seq::<Seq<char>>::empty()) =~= Seq::<Seq<char>>::empty()) by {
            reveal(Seq::filter);
        }
        assert(views(main_chunk.modules@) =~= distinct_ids(ids.take(0)));
        assert(views(main_chunk.entry_points@) =~= distinct_ids(entry_ids(ids.take(0))));
        while i < modules.len()
            invariant
                i <= modules.len(),
                ids == module_ids(modules@),
                main_chunk.id@ == "main"@,
                main_chunk.name is None,
                main_chunk.chunk_type == ChunkType::Entry,
                main_chunk.well_formed(),
                views(main_chunk.modules@) == distinct_ids(ids.take(i as int)),
                views(main_chunk.entry_points@) == distinct_ids(entry_ids(ids.take(i as int))),
            decreases modules.len() - i,
        {
            let module = &modules[i];
            proof {
                assert(ids.take(i + 1).drop_last() =~= ids.take(i as int));
                assert(ids.take(i + 1).last() == module.id@);
                reveal(Seq::filter);
                if is_entry_id(module.id@) {
                    let es = entry_ids(ids.take(i + 1));
                    assert(es == entry_ids(ids.take(i as int)).push(module.id@));
                    assert(es.drop_last() =~= entry_ids(ids.take(i as int)));
                }
            }
            main_chunk.add_module(module.id.clone());
            if module.is_entry() {
                main_chunk.add_entry_point(module.id.clone());
            }
            i += 1;
        }
        assert(ids.take(i as int) =~= ids);
        main_chunk.name = Some(String::from_str("main"));
        let copy = main_chunk.clone();
        self.chunks.push(copy);
        assert(self.made() =~= old(self).made().push(main_chunk@));
        let chunks = vec![main_chunk];
        assert(chunk_views(chunks@) =~= seq![main_chunk@]);
        Ok(chunks)
    }

    /// The chunks made so far, oldest first.
    pub fn get_chunks(&self) -> (cs: &[Chunk])
        ensures
            chunk_views(cs@) == self.made(),
    {
        self.chunks.as_slice()
    }
}

} // verus!
