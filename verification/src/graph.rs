//! Directed graphs over module ids, as mathematics: walks, reachability,
//! cycles, and the facts about them that cycle detection rests on.

use vstd::prelude::*;

verus! {

/// A directed graph whose nodes are module ids. `roots` are the ids of the
/// registered modules; `edges` may repeat and may name ids that are no root.
pub struct Digraph {
    pub roots: Seq<Seq<char>>,
    pub edges: Seq<(Seq<char>, Seq<char>)>,
}

impl Digraph {
    /// There is an edge from `a` to `b`.
    pub open spec fn edge(self, a: Seq<char>, b: Seq<char>) -> bool {
        exists|i: int| 0 <= i < self.edges.len() && #[trigger] self.edges[i] == (a, b)
    }

    /// Each node of `p` but the last has an edge to the next one.
    pub open spec fn is_walk(self, p: Seq<Seq<char>>) -> bool {
        forall|k: int| 0 <= k < p.len() - 1 ==> self.edge(#[trigger] p[k], p[k + 1])
    }

    /// `b` can be reached from `a` along edges (in zero or more steps).
    pub open spec fn reaches(self, a: Seq<char>, b: Seq<char>) -> bool {
        exists|p: Seq<Seq<char>>| #[trigger]
            self.is_walk(p) && p.len() >= 1 && p[0] == a && p.last() == b
    }

    /// `v` lies on a cycle: a walk of at least one edge leads from `v` back to `v`.
    pub open spec fn on_cycle(self, v: Seq<char>) -> bool {
        exists|p: Seq<Seq<char>>| #[trigger]
            self.is_walk(p) && p.len() >= 2 && p[0] == v && p.last() == v
    }

    /// Some cycle can be reached from a root.
    pub open spec fn has_reachable_cycle(self) -> bool {
        exists|r: Seq<char>, v: Seq<char>|
            self.roots.contains(r) && #[trigger] self.reaches(r, v) && self.on_cycle(v)
    }

    /// `chain` is a walk that starts at a root and whose last node has an edge
    /// back to a node of the chain: the exploration path at the moment a cycle
    /// closes.
    pub open spec fn is_cycle_chain(self, chain: Seq<Seq<char>>) -> bool {
        &&& chain.len() > 0
        &&& self.roots.contains(chain[0])
        &&& self.is_walk(chain)
        &&& chain.no_duplicates()
        &&& exists|j: int| 0 <= j < chain.len() && self.edge(chain.last(), #[trigger] chain[j])
    }

    /// Every edge that leaves `s` ends in `s`.
    pub open spec fn closed(self, s: Set<Seq<char>>) -> bool {
        forall|a: Seq<char>, b: Seq<char>| s.contains(a) && #[trigger] self.edge(a, b) ==> s.contains(b)
    }

    /// No node of `s` lies on a cycle.
    pub open spec fn acyclic(self, s: Set<Seq<char>>) -> bool {
        forall|v: Seq<char>| s.contains(v) ==> !self.on_cycle(v)
    }

    /// All ids that a traversal can ever reach: the roots and the edge targets.
    pub open spec fn node_list(self) -> Seq<Seq<char>> {
        self.roots + Seq::new(self.edges.len(), |i: int| self.edges[i].1)
    }

    /// A walk that starts inside a closed set stays inside it.
    pub proof fn lemma_closed_walk(self, s: Set<Seq<char>>, p: Seq<Seq<char>>, k: int)
        requires
            self.closed(s),
            self.is_walk(p),
            0 <= k < p.len(),
            s.contains(p[0]),
        ensures
            s.contains(p[k]),
        decreases k,
    {
        if k > 0 {
            self.lemma_closed_walk(s, p, k - 1);
            assert(self.edge(p[k - 1], p[k - 1 + 1]));
        }
    }

    /// A cycle chain shows a cycle that can be reached from a root.
    pub proof fn lemma_chain_shows_cycle(self, chain: Seq<Seq<char>>)
        requires
            self.is_cycle_chain(chain),
        ensures
            self.has_reachable_cycle(),
    {
        let j = choose|j: int| 0 <= j < chain.len() && self.edge(chain.last(), #[trigger] chain[j]);
        let v = chain[j];
        let to_v = chain.subrange(0, j + 1);
        assert(self.is_walk(to_v)) by {
            assert forall|k: int| 0 <= k < to_v.len() - 1 implies self.edge(#[trigger] to_v[k], to_v[k + 1]) by {
                assert(self.edge(chain[k], chain[k + 1]));
            }
        }
        assert(to_v[0] == chain[0] && to_v.last() == v);
        assert(self.reaches(chain[0], v));
        let round = chain.subrange(j, chain.len() as int).push(v);
        assert(self.is_walk(round)) by {
            assert forall|k: int| 0 <= k < round.len() - 1 implies self.edge(#[trigger] round[k], round[k + 1]) by {
                if k < round.len() - 2 {
                    assert(self.edge(chain[j + k], chain[j + k + 1]));
                } else {
                    assert(round[k] == chain.last());
                    assert(round[k + 1] == v);
                }
            }
        }
        assert(round.len() >= 2 && round[0] == v && round.last() == v);
        assert(self.on_cycle(v));
    }

    /// Where the roots lie in a closed set without cycles, no cycle can be
    /// reached from a root.
    pub proof fn lemma_no_reachable_cycle(self, s: Set<Seq<char>>)
        requires
            self.closed(s),
            self.acyclic(s),
            forall|r: Seq<char>| self.roots.contains(r) ==> s.contains(r),
        ensures
            !self.has_reachable_cycle(),
    {
        assert forall|r: Seq<char>, v: Seq<char>|
            self.roots.contains(r) && #[trigger] self.reaches(r, v) implies !self.on_cycle(v) by {
            let p = choose|p: Seq<Seq<char>>| #[trigger]
                self.is_walk(p) && p.len() >= 1 && p[0] == r && p.last() == v;
            self.lemma_closed_walk(s, p, p.len() - 1);
        }
    }

    /// A node outside a closed, cycle-free set whose every successor lies in
    /// the set can join it: the larger set is closed and cycle-free too.
    pub proof fn lemma_finish_node(self, s: Set<Seq<char>>, u: Seq<char>)
        requires
            self.closed(s),
            self.acyclic(s),
            !s.contains(u),
            forall|c: Seq<char>| #[trigger] self.edge(u, c) ==> s.contains(c),
        ensures
            self.closed(s.insert(u)),
            self.acyclic(s.insert(u)),
    {
        if self.on_cycle(u) {
            let p = choose|p: Seq<Seq<char>>| #[trigger]
                self.is_walk(p) && p.len() >= 2 && p[0] == u && p.last() == u;
            assert(self.edge(p[0int], p[0int + 1]));
            let rest = p.subrange(1, p.len() as int);
            assert(self.is_walk(rest)) by {
                assert forall|k: int| 0 <= k < rest.len() - 1 implies self.edge(#[trigger] rest[k], rest[k + 1]) by {
                    assert(self.edge(p[k + 1], p[k + 1 + 1]));
                }
            }
            self.lemma_closed_walk(s, rest, rest.len() - 1);
            assert(rest.last() == u);
        }
    }
}

/// The nodes that are fully explored: visited and no longer on the stack.
pub open spec fn explored(visited: Seq<Seq<char>>, stack: Seq<Seq<char>>) -> Set<Seq<char>> {
    Set::new(|n: Seq<char>| visited.contains(n) && !stack.contains(n))
}

impl Digraph {
    /// What holds of the visited list and the exploration stack between two
    /// steps of a depth-first walk: the stack is a walk from a root through
    /// visited nodes, and the explored nodes are closed under edges and lie
    /// on no cycle.
    pub open spec fn traversal_state(self, visited: Seq<Seq<char>>, stack: Seq<Seq<char>>) -> bool {
        &&& visited.no_duplicates()
        &&& stack.no_duplicates()
        &&& forall|k: int| 0 <= k < visited.len() ==> self.node_list().contains(#[trigger] visited[k])
        &&& forall|k: int| 0 <= k < stack.len() ==> visited.contains(#[trigger] stack[k])
        &&& self.is_walk(stack)
        &&& (stack.len() > 0 ==> self.roots.contains(stack[0]))
        &&& self.closed(explored(visited, stack))
        &&& self.acyclic(explored(visited, stack))
    }

    /// Entering an unvisited node, a root or the target of an edge from the
    /// top of the stack, keeps the traversal state.
    pub proof fn lemma_enter(self, visited: Seq<Seq<char>>, stack: Seq<Seq<char>>, u: Seq<char>)
        requires
            self.traversal_state(visited, stack),
            !visited.contains(u),
            stack.len() == 0 ==> self.roots.contains(u),
            stack.len() > 0 ==> self.edge(stack.last(), u),
        ensures
            self.traversal_state(visited.push(u), stack.push(u)),
            visited.len() < self.node_list().to_set().len(),
            !stack.contains(u),
    {
        let visited1 = visited.push(u);
        let stack1 = stack.push(u);
        if stack.len() == 0 {
            let k = choose|k: int| 0 <= k < self.roots.len() && self.roots[k] == u;
            assert(self.node_list()[k] == u);
        } else {
            let k = choose|k: int| 0 <= k < self.edges.len() && #[trigger] self.edges[k] == (stack.last(), u);
            assert(self.node_list()[self.roots.len() + k] == u);
        }
        assert(self.node_list().contains(u));
        if stack.contains(u) {
            let k = choose|k: int| 0 <= k < stack.len() && stack[k] == u;
            assert(visited.contains(stack[k]));
        }
        assert(explored(visited1, stack1) =~= explored(visited, stack)) by {
            assert forall|n: Seq<char>| explored(visited, stack).contains(n) implies explored(visited1, stack1).contains(n) by {
                let k = choose|k: int| 0 <= k < visited.len() && visited[k] == n;
                assert(visited1[k] == n);
                if stack1.contains(n) {
                    let j = choose|j: int| 0 <= j < stack1.len() && stack1[j] == n;
                    if j < stack.len() {
                        assert(stack[j] == n);
                    }
                }
            }
            assert forall|n: Seq<char>| explored(visited1, stack1).contains(n) implies explored(visited, stack).contains(n) by {
                let k = choose|k: int| 0 <= k < visited1.len() && visited1[k] == n;
                assert(stack1[stack1.len() - 1] == u);
                assert(n != u);
                assert(visited[k] == n);
                if stack.contains(n) {
                    let j = choose|j: int| 0 <= j < stack.len() && stack[j] == n;
                    assert(stack1[j] == n);
                }
            }
        }
        assert(self.is_walk(stack1)) by {
            assert forall|k: int| 0 <= k < stack1.len() - 1 implies self.edge(#[trigger] stack1[k], stack1[k + 1]) by {
                if k < stack.len() - 1 {
                    assert(self.edge(stack[k], stack[k + 1]));
                }
            }
        }
        assert(stack1[0] == if stack.len() > 0 { stack[0] } else { u });
        assert forall|k: int| 0 <= k < stack1.len() implies visited1.contains(#[trigger] stack1[k]) by {
            if k < stack.len() {
                let j = choose|j: int| 0 <= j < visited.len() && visited[j] == stack[k];
                assert(visited1[j] == stack1[k]);
            } else {
                assert(visited1[visited.len() as int] == u);
            }
        }
        assert forall|k: int| 0 <= k < visited1.len() implies self.node_list().contains(#[trigger] visited1[k]) by {
            if k < visited.len() {
                assert(visited[k] == visited1[k]);
            }
        }
        assert(visited1.no_duplicates());
        assert(stack1.no_duplicates());
        lemma_distinct_bounded(visited1, self.node_list());
    }

    /// Leaving the node on top of the stack, once each of its successors is
    /// explored, keeps the traversal state.
    pub proof fn lemma_leave(self, visited: Seq<Seq<char>>, stack: Seq<Seq<char>>, u: Seq<char>)
        requires
            self.traversal_state(visited, stack.push(u)),
            forall|c: Seq<char>| #[trigger] self.edge(u, c) ==> explored(visited, stack.push(u)).contains(c),
        ensures
            self.traversal_state(visited, stack),
            explored(visited, stack).contains(u),
    {
        let stack1 = stack.push(u);
        let before = explored(visited, stack1);
        assert(stack1[stack.len() as int] == u);
        assert(!before.contains(u));
        self.lemma_finish_node(before, u);
        assert(visited.contains(stack1[stack.len() as int]));
        if stack.contains(u) {
            let j = choose|j: int| 0 <= j < stack.len() && stack[j] == u;
            assert(stack1[j] == u);
        }
        assert(explored(visited, stack) =~= before.insert(u)) by {
            assert forall|n: Seq<char>| explored(visited, stack).contains(n) <==> before.insert(u).contains(n) by {
                if stack1.contains(n) && n != u {
                    let j = choose|j: int| 0 <= j < stack1.len() && stack1[j] == n;
                    assert(stack[j] == n);
                }
                if stack.contains(n) {
                    let j = choose|j: int| 0 <= j < stack.len() && stack[j] == n;
                    assert(stack1[j] == n);
                }
            }
        }
        assert forall|k: int| 0 <= k < stack.len() implies visited.contains(#[trigger] stack[k]) by {
            assert(stack1[k] == stack[k]);
        }
        assert(self.is_walk(stack)) by {
            assert forall|k: int| 0 <= k < stack.len() - 1 implies self.edge(#[trigger] stack[k], stack[k + 1]) by {
                assert(self.edge(stack1[k], stack1[k + 1]));
            }
        }
        assert(stack.no_duplicates()) by {
            assert forall|a: int, b: int| 0 <= a < stack.len() && 0 <= b < stack.len() && a != b implies stack[a] != stack[b] by {
                assert(stack1[a] == stack[a] && stack1[b] == stack[b]);
            }
        }
        if stack.len() > 0 {
            assert(stack1[0] == stack[0]);
        }
    }
}

/// How many more nodes a walk can enter when `entered` have been entered
/// and there are `budget` nodes in all.
pub open spec fn remaining(budget: nat, entered: nat) -> nat {
    if entered < budget {
        (budget - entered) as nat
    } else {
        0
    }
}

impl Digraph {
    /// The number of distinct ids that a traversal can reach.
    pub open spec fn budget(self) -> nat {
        self.node_list().to_set().len()
    }

    /// The depth-first visit of `u` with `visited` nodes behind it and
    /// `stack` as the path to `u`: marks `u`, puts it on the stack and follows
    /// the edges that leave it in their order. Gives the nodes visited
    /// afterwards and, where a cycle closed, the stack at that moment.
    pub open spec fn visit(self, u: Seq<char>, visited: Seq<Seq<char>>, stack: Seq<Seq<char>>) -> (
        Seq<Seq<char>>,
        Option<Seq<Seq<char>>>,
    )
        decreases remaining(self.budget(), visited.len()), 0nat,
    {
        if visited.len() >= self.budget() {
            (visited, None)
        } else {
            self.follow(u, 0, visited.push(u), stack.push(u))
        }
    }

    /// The rest of a visit of `u`, from edge `i` on. An edge from `u` to a
    /// node that was not visited is followed by a visit of that node; an edge
    /// to a node on the stack closes a cycle and ends the search with the
    /// stack as it is; every other edge is passed over.
    pub open spec fn follow(self, u: Seq<char>, i: int, visited: Seq<Seq<char>>, stack: Seq<Seq<char>>) -> (
        Seq<Seq<char>>,
        Option<Seq<Seq<char>>>,
    )
        decreases remaining(self.budget(), visited.len()), (self.edges.len() - i + 1) as nat,
    {
        if i < 0 || i >= self.edges.len() {
            (visited, None)
        } else if self.edges[i].0 == u {
            let to = self.edges[i].1;
            if !visited.contains(to) {
                let (seen, chain) = self.visit(to, visited, stack);
                if chain is Some || seen.len() < visited.len() {
                    (seen, chain)
                } else {
                    self.follow(u, i + 1, seen, stack)
                }
            } else if stack.contains(to) {
                (visited, Some(stack))
            } else {
                self.follow(u, i + 1, visited, stack)
            }
        } else {
            self.follow(u, i + 1, visited, stack)
        }
    }

    /// The search from root `k` on, with `visited` nodes behind it: a visit
    /// of each root that was not visited before, in their order, until a
    /// cycle closes. Gives the stack at that moment, or `None` where no
    /// cycle closes.
    pub open spec fn search(self, k: int, visited: Seq<Seq<char>>) -> Option<Seq<Seq<char>>>
        decreases self.roots.len() - k,
    {
        if k < 0 || k >= self.roots.len() {
            None
        } else if visited.contains(self.roots[k]) {
            self.search(k + 1, visited)
        } else {
            let (seen, chain) = self.visit(self.roots[k], visited, Seq::empty());
            if chain is Some {
                chain
            } else {
                self.search(k + 1, seen)
            }
        }
    }

    /// The chain that cycle detection reports: the exploration path at the
    /// moment the first cycle closes in a depth-first search from the roots.
    pub open spec fn first_cycle_chain(self) -> Option<Seq<Seq<char>>> {
        self.search(0, Seq::empty())
    }
}

/// A list without repeats whose items all lie in `universe` is no longer than
/// `universe` has items.
pub proof fn lemma_distinct_bounded(list: Seq<Seq<char>>, universe: Seq<Seq<char>>)
    requires
        list.no_duplicates(),
        forall|k: int| 0 <= k < list.len() ==> universe.contains(#[trigger] list[k]),
    ensures
        list.len() <= universe.to_set().len(),
{
    vstd::seq_lib::seq_to_set_is_finite(universe);
    vstd::seq_lib::seq_to_set_is_finite(list);
    list.unique_seq_to_set();
    assert(list.to_set().subset_of(universe.to_set())) by {
        assert forall|n: Seq<char>| list.to_set().contains(n) implies universe.to_set().contains(n) by {
            let k = choose|k: int| 0 <= k < list.len() && list[k] == n;
            assert(universe.contains(list[k]));
        }
    }
    vstd::set_lib::lemma_len_subset(list.to_set(), universe.to_set());
}

} // verus!
