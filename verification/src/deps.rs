//! Dependency graph of the packages to install, and their install order.

use vstd::prelude::*;
use vstd::string::StringExecFns;
use crate::api::{catalog_position, find_formula, formula_names, Formula};
use crate::error::WaxError;
use crate::text::{
    clone_names, has_name, lemma_contains_push, lemma_first_named, lemma_no_duplicates_push,
    lemma_views_push, views,
};

verus! {

/// One package of the graph with the names it depends on.
pub struct Node {
    pub name: String,
    pub deps: Vec<String>,
}

/// Packages and their runtime dependencies, by name.
///
/// Each name heads at most one node; adding a node under a name that is
/// already there replaces its dependencies.
pub struct DependencyGraph {
    nodes: Vec<Node>,
}

/// The names that head the nodes, in order.
pub open spec fn heads(nodes: Seq<Node>) -> Seq<Seq<char>> {
    Seq::new(nodes.len(), |i: int| nodes[i].name@)
}

/// The mapping that a list of nodes stands for; later nodes win.
pub open spec fn node_map(nodes: Seq<Node>) -> Map<Seq<char>, Seq<Seq<char>>>
    decreases nodes.len(),
{
    if nodes.len() == 0 {
        Map::empty()
    } else {
        node_map(nodes.drop_last()).insert(nodes.last().name@, views(nodes.last().deps@))
    }
}

/// Dependencies of `n` in `g`; none where `n` heads no node.
pub open spec fn deps_in(g: Map<Seq<char>, Seq<Seq<char>>>, n: Seq<char>) -> Seq<Seq<char>> {
    if g.dom().contains(n) {
        g[n]
    } else {
        Seq::empty()
    }
}

/// `d` is a dependency of `n` in `g`.
pub open spec fn edge(g: Map<Seq<char>, Seq<Seq<char>>>, n: Seq<char>, d: Seq<char>) -> bool {
    deps_in(g, n).contains(d)
}

/// `n` occurs in `g`, as a node or as a dependency of one.
pub open spec fn mentions(g: Map<Seq<char>, Seq<Seq<char>>>, n: Seq<char>) -> bool {
    g.dom().contains(n) || exists|m: Seq<char>| #[trigger] edge(g, m, n)
}

/// `order` lists every name of `g` once, each behind all its dependencies.
pub open spec fn is_topological(g: Map<Seq<char>, Seq<Seq<char>>>, order: Seq<Seq<char>>) -> bool {
    &&& order.no_duplicates()
    &&& forall|n: Seq<char>| #[trigger] order.contains(n) <==> mentions(g, n)
    &&& forall|i: int, j: int|
        0 <= i < order.len() && 0 <= j < order.len() && #[trigger] edge(g, order[i], order[j])
            ==> j < i
}

/// `s` is a knot: it is not empty and each member depends on a member.
/// A graph with a knot has a dependency cycle.
pub open spec fn is_knot(g: Map<Seq<char>, Seq<Seq<char>>>, s: Set<Seq<char>>) -> bool {
    &&& exists|n: Seq<char>| s.contains(n)
    &&& forall|n: Seq<char>| s.contains(n) ==> #[trigger] depends_within(g, s, n)
}

/// `n` depends on a member of `s`.
pub open spec fn depends_within(
    g: Map<Seq<char>, Seq<Seq<char>>>,
    s: Set<Seq<char>>,
    n: Seq<char>,
) -> bool {
    exists|d: Seq<char>| s.contains(d) && #[trigger] edge(g, n, d)
}

/// `g` has a dependency cycle.
pub open spec fn has_cycle(g: Map<Seq<char>, Seq<Seq<char>>>) -> bool {
    exists|s: Set<Seq<char>>| is_knot(g, s)
}

/// Number of entries of `done` that are still false.
pub open spec fn pending_count(done: Seq<bool>) -> nat
    decreases done.len(),
{
    if done.len() == 0 {
        0
    } else {
        pending_count(done.drop_last()) + if done.last() {
            0nat
        } else {
            1nat
        }
    }
}

/// Marking a pending entry as done lowers the count by one.
pub proof fn lemma_pending_count_update(done: Seq<bool>, k: int)
    requires
        0 <= k < done.len(),
        !done[k],
    ensures
        pending_count(done.update(k, true)) + 1 == pending_count(done),
    decreases done.len(),
{
    let next = done.update(k, true);
    if k == done.len() - 1 {
        assert(next.drop_last() =~= done.drop_last());
    } else {
        lemma_pending_count_update(done.drop_last(), k);
        assert(next.drop_last() =~= done.drop_last().update(k, true));
    }
}

/// The node at position `k` is held under its name.
pub proof fn lemma_node_at(nodes: Seq<Node>, k: int)
    requires
        heads(nodes).no_duplicates(),
        0 <= k < nodes.len(),
    ensures
        node_map(nodes).dom().contains(nodes[k].name@),
        node_map(nodes)[nodes[k].name@] == views(nodes[k].deps@),
    decreases nodes.len(),
{
    let last = nodes.len() - 1;
    if k < last {
        let front = nodes.drop_last();
        assert(heads(front) =~= heads(nodes).drop_last());
        assert(heads(nodes)[k] != heads(nodes)[last]);
        lemma_node_at(front, k);
    }
}

/// A name in the domain heads some node.
pub proof fn lemma_node_of(nodes: Seq<Node>, n: Seq<char>) -> (k: int)
    requires
        node_map(nodes).dom().contains(n),
    ensures
        0 <= k < nodes.len(),
        nodes[k].name@ == n,
    decreases nodes.len(),
{
    if nodes.last().name@ == n {
        nodes.len() - 1
    } else {
        lemma_node_of(nodes.drop_last(), n)
    }
}

/// The source of an edge heads a node, and its target is one of that node's dependencies.
pub proof fn lemma_edge_source(nodes: Seq<Node>, n: Seq<char>, d: Seq<char>) -> (k: int)
    requires
        heads(nodes).no_duplicates(),
        edge(node_map(nodes), n, d),
    ensures
        0 <= k < nodes.len(),
        nodes[k].name@ == n,
        views(nodes[k].deps@).contains(d),
        node_map(nodes).dom().contains(n),
{
    let g = node_map(nodes);
    if !g.dom().contains(n) {
        assert(!Seq::<Seq<char>>::empty().contains(d));
    }
    let k = lemma_node_of(nodes, n);
    lemma_node_at(nodes, k);
    k
}

/// A graph with a knot admits no topological order.
pub proof fn lemma_knot_blocks_order(
    g: Map<Seq<char>, Seq<Seq<char>>>,
    s: Set<Seq<char>>,
    order: Seq<Seq<char>>,
)
    requires
        is_knot(g, s),
    ensures
        !is_topological(g, order),
{
    if is_topological(g, order) {
        lemma_no_member_upto(g, s, order, order.len() as int);
        let n = choose|n: Seq<char>| s.contains(n);
        assert(depends_within(g, s, n));
        let d = choose|d: Seq<char>| s.contains(d) && edge(g, n, d);
        assert(g.dom().contains(n)) by {
            if !g.dom().contains(n) {
                assert(!Seq::<Seq<char>>::empty().contains(d));
            }
        }
        assert(mentions(g, n));
        assert(order.contains(n));
        let i = choose|i: int| 0 <= i < order.len() && order[i] == n;
        assert(!s.contains(order[i]));
    }
}

/// In a topological order of a graph with knot `s`, no member of `s` stands
/// among the first `k` names.
proof fn lemma_no_member_upto(
    g: Map<Seq<char>, Seq<Seq<char>>>,
    s: Set<Seq<char>>,
    order: Seq<Seq<char>>,
    k: int,
)
    requires
        is_knot(g, s),
        is_topological(g, order),
        0 <= k <= order.len(),
    ensures
        forall|i: int| 0 <= i < k ==> !s.contains(#[trigger] order[i]),
    decreases k,
{
    if k > 0 {
        lemma_no_member_upto(g, s, order, k - 1);
        let n = order[k - 1];
        if s.contains(n) {
            assert(depends_within(g, s, n));
            let d = choose|d: Seq<char>| s.contains(d) && edge(g, n, d);
            assert(mentions(g, d));
            assert(order.contains(d));
            let j = choose|j: int| 0 <= j < order.len() && order[j] == d;
            assert(edge(g, order[k - 1], order[j]));
            assert(j < k - 1);
            assert(!s.contains(order[j]));
        }
    }
}

/// `x` is a name of `g` that heads no node.
pub open spec fn is_external(g: Map<Seq<char>, Seq<Seq<char>>>, x: Seq<char>) -> bool {
    mentions(g, x) && !g.dom().contains(x)
}

/// Dependency `m` of node `k`.
pub open spec fn dep_at(nodes: Seq<Node>, k: int, m: int) -> Seq<char> {
    nodes[k].deps@[m]@
}

/// `n` has a dependency that is not among `placed`.
pub open spec fn is_blocked(
    g: Map<Seq<char>, Seq<Seq<char>>>,
    n: Seq<char>,
    placed: Seq<Seq<char>>,
) -> bool {
    exists|d: Seq<char>| #[trigger] edge(g, n, d) && !placed.contains(d)
}

/// What holds of the names placed so far: no name twice, each a name of the
/// graph, and each behind all of its dependencies.
pub open spec fn placed_in_order(g: Map<Seq<char>, Seq<Seq<char>>>, placed: Seq<Seq<char>>) -> bool {
    &&& placed.no_duplicates()
    &&& forall|x: Seq<char>| #[trigger] placed.contains(x) ==> mentions(g, x)
    &&& forall|i: int, d: Seq<char>|
        0 <= i < placed.len() && #[trigger] edge(g, placed[i], d) ==> placed.take(i).contains(d)
}

/// A name of the graph whose dependencies are all placed can be placed next.
proof fn lemma_place(g: Map<Seq<char>, Seq<Seq<char>>>, placed: Seq<Seq<char>>, x: Seq<char>)
    requires
        placed_in_order(g, placed),
        mentions(g, x),
        !placed.contains(x),
        forall|d: Seq<char>| #[trigger] edge(g, x, d) ==> placed.contains(d),
    ensures
        placed_in_order(g, placed.push(x)),
{
    let next = placed.push(x);
    lemma_no_duplicates_push(placed, x);
    assert forall|y: Seq<char>| #[trigger] next.contains(y) implies mentions(g, y) by {
        lemma_contains_push(placed, x, y);
    }
    assert forall|i: int, d: Seq<char>|
        0 <= i < next.len() && #[trigger] edge(g, next[i], d) implies next.take(i).contains(d) by {
        if i < placed.len() {
            assert(next[i] == placed[i]);
            assert(next.take(i) =~= placed.take(i));
        } else {
            assert(next.take(i) =~= placed);
        }
    }
}

/// Names placed in order that cover the graph form a topological order.
proof fn lemma_placed_is_topological(g: Map<Seq<char>, Seq<Seq<char>>>, placed: Seq<Seq<char>>)
    requires
        placed_in_order(g, placed),
        forall|x: Seq<char>| mentions(g, x) ==> placed.contains(x),
    ensures
        is_topological(g, placed),
{
    assert forall|i: int, j: int|
        0 <= i < placed.len() && 0 <= j < placed.len() && #[trigger] edge(
            g,
            placed[i],
            placed[j],
        ) implies j < i by {
        let before = placed.take(i);
        let p = choose|p: int| 0 <= p < before.len() && before[p] == placed[j];
        assert(placed[p] == placed[j]);
    }
}

impl View for DependencyGraph {
    type V = Map<Seq<char>, Seq<Seq<char>>>;

    closed spec fn view(&self) -> Map<Seq<char>, Seq<Seq<char>>> {
        node_map(self.nodes@)
    }
}

/// Whether every name of `deps` is among `have`.
fn all_present(deps: &Vec<String>, have: &Vec<String>) -> (r: bool)
    ensures
        r == (forall|d: Seq<char>| views(deps@).contains(d) ==> views(have@).contains(d)),
{
    let mut i: usize = 0;
    while i < deps.len()
        invariant
            i <= deps.len(),
            forall|j: int| 0 <= j < i ==> views(have@).contains(#[trigger] views(deps@)[j]),
        decreases deps.len() - i,
    {
        assert(views(deps@)[i as int] == deps@[i as int]@);
        if !has_name(have, &deps[i]) {
            assert(views(deps@).contains(deps@[i as int]@));
            return false;
        }
        i += 1;
    }
    true
}

/// Position of the node headed by `name`.
fn head_position(nodes: &Vec<Node>, name: &String) -> (r: Option<usize>)
    ensures
        match r {
            Some(k) => k < nodes.len() && nodes@[k as int].name@ == name@,
            None => forall|j: int| 0 <= j < nodes.len() ==> #[trigger] nodes@[j].name@ != name@,
        },
{
    let mut i: usize = 0;
    while i < nodes.len()
        invariant
            i <= nodes.len(),
            forall|j: int| 0 <= j < i ==> #[trigger] nodes@[j].name@ != name@,
        decreases nodes.len() - i,
    {
        if nodes[i].name == *name {
            return Some(i);
        }
        i += 1;
    }
    None
}

/// The names that no node is headed by, each once.
fn externals_of(nodes: &Vec<Node>) -> (out: Vec<String>)
    requires
        heads(nodes@).no_duplicates(),
    ensures
        views(out@).no_duplicates(),
        forall|x: Seq<char>| #[trigger]
            views(out@).contains(x) <==> is_external(node_map(nodes@), x),
{
    let ghost g = node_map(nodes@);
    let mut out: Vec<String> = Vec::new();
    let mut i: usize = 0;
    while i < nodes.len()
        invariant
            i <= nodes.len(),
            heads(nodes@).no_duplicates(),
            g == node_map(nodes@),
            views(out@).no_duplicates(),
            forall|x: Seq<char>| #[trigger] views(out@).contains(x) ==> is_external(g, x),
            forall|k: int, m: int|
                0 <= k < i && 0 <= m < nodes@[k].deps@.len() ==> g.dom().contains(
                    #[trigger] dep_at(nodes@, k, m),
                ) || views(out@).contains(dep_at(nodes@, k, m)),
        decreases nodes.len() - i,
    {
        let node = &nodes[i];
        let mut j: usize = 0;
        while j < node.deps.len()
            invariant
                j <= node.deps.len(),
                i < nodes.len(),
                node == nodes@[i as int],
                heads(nodes@).no_duplicates(),
                g == node_map(nodes@),
                views(out@).no_duplicates(),
                forall|x: Seq<char>| #[trigger] views(out@).contains(x) ==> is_external(g, x),
                forall|k: int, m: int|
                    0 <= k < i && 0 <= m < nodes@[k].deps@.len() ==> g.dom().contains(
                        #[trigger] dep_at(nodes@, k, m),
                    ) || views(out@).contains(dep_at(nodes@, k, m)),
                forall|m: int|
                    0 <= m < j ==> g.dom().contains(#[trigger] dep_at(nodes@, i as int, m))
                        || views(out@).contains(dep_at(nodes@, i as int, m)),
            decreases node.deps.len() - j,
        {
            let dep = &node.deps[j];
            assert(dep@ == dep_at(nodes@, i as int, j as int));
            let ghost before = views(out@);
            match head_position(nodes, dep) {
                Some(k) => {
                    proof {
                        lemma_node_at(nodes@, k as int);
                    }
                },
                None => {
                    if !has_name(&out, dep) {
                        proof {
                            lemma_views_push(out@, *dep);
                            lemma_no_duplicates_push(before, dep@);
                            lemma_node_at(nodes@, i as int);
                            assert(views(node.deps@)[j as int] == dep@);
                            assert(edge(g, node.name@, dep@));
                            if g.dom().contains(dep@) {
                                let k = lemma_node_of(nodes@, dep@);
                            }
                            assert(is_external(g, dep@));
                        }
                        out.push(dep.clone());
                    }
                },
            }
            proof {
                assert forall|x: Seq<char>| #[trigger] views(out@).contains(x) implies is_external(
                    g,
                    x,
                ) by {
                    lemma_contains_push(before, dep@, x);
                }
                assert forall|x: Seq<char>| before.contains(x) implies views(out@).contains(x) by {
                    lemma_contains_push(before, dep@, x);
                }
                lemma_contains_push(before, dep@, dep@);
            }
            j += 1;
        }
        i += 1;
    }
    proof {
        assert forall|x: Seq<char>| is_external(g, x) implies #[trigger] views(out@).contains(
            x,
        ) by {
            let n = choose|n: Seq<char>| edge(g, n, x);
            let k = lemma_edge_source(nodes@, n, x);
            let m = choose|m: int|
                0 <= m < views(nodes@[k].deps@).len() && views(nodes@[k].deps@)[m] == x;
            assert(dep_at(nodes@, k, m) == x);
        }
    }
    out
}

/// What the rounds of the sort maintain: the placed names are in order,
/// hold every external name, and `done` marks the nodes that are placed.
pub open spec fn round_state(nodes: Seq<Node>, placed: Seq<Seq<char>>, done: Seq<bool>) -> bool {
    &&& heads(nodes).no_duplicates()
    &&& done.len() == nodes.len()
    &&& placed_in_order(node_map(nodes), placed)
    &&& forall|x: Seq<char>| #[trigger] is_external(node_map(nodes), x) ==> placed.contains(x)
    &&& forall|k: int|
        0 <= k < nodes.len() ==> (#[trigger] done[k] <==> placed.contains(nodes[k].name@))
}

/// Places node `k`, whose dependencies are all placed.
fn place_node(nodes: &Vec<Node>, k: usize, result: &mut Vec<String>, done: &mut Vec<bool>)
    requires
        round_state(nodes@, views(old(result)@), old(done)@),
        k < nodes.len(),
        !old(done)@[k as int],
        forall|d: Seq<char>|
            views(nodes@[k as int].deps@).contains(d) ==> views(old(result)@).contains(d),
    ensures
        round_state(nodes@, views(final(result)@), final(done)@),
        views(final(result)@) == views(old(result)@).push(nodes@[k as int].name@),
        final(done)@ == old(done)@.update(k as int, true),
        pending_count(final(done)@) + 1 == pending_count(old(done)@),
{
    let ghost g = node_map(nodes@);
    let ghost before = views(result@);
    let ghost name = nodes@[k as int].name@;
    proof {
        lemma_node_at(nodes@, k as int);
        lemma_pending_count_update(done@, k as int);
        lemma_views_push(result@, nodes@[k as int].name);
        assert forall|d: Seq<char>| #[trigger] edge(g, name, d) implies before.contains(d) by {}
        lemma_place(g, before, name);
        let after = before.push(name);
        assert forall|x: Seq<char>| #[trigger] is_external(g, x) implies after.contains(x) by {
            lemma_contains_push(before, name, x);
        }
        assert forall|m: int| 0 <= m < nodes@.len() implies (#[trigger] done@.update(
            k as int,
            true,
        )[m] <==> after.contains(nodes@[m].name@)) by {
            lemma_contains_push(before, name, nodes@[m].name@);
            if m != k {
                assert(heads(nodes@)[m] != heads(nodes@)[k as int]);
            }
        }
    }
    result.push(nodes[k].name.clone());
    done.set(k, true);
}

/// A round in which every pending node is blocked exhibits a knot.
proof fn lemma_blocked_round(
    nodes: Seq<Node>,
    placed: Seq<Seq<char>>,
    done: Seq<bool>,
    witness: int,
)
    requires
        round_state(nodes, placed, done),
        0 <= witness < nodes.len(),
        !done[witness],
        forall|m: int|
            0 <= m < nodes.len() && !done[m] ==> #[trigger] is_blocked(
                node_map(nodes),
                nodes[m].name@,
                placed,
            ),
    ensures
        has_cycle(node_map(nodes)),
{
    let g = node_map(nodes);
    let s = Set::new(|x: Seq<char>| g.dom().contains(x) && !placed.contains(x));
    assert forall|x: Seq<char>| s.contains(x) implies #[trigger] depends_within(g, s, x) by {
        let m = lemma_node_of(nodes, x);
        assert(!done[m]);
        assert(is_blocked(g, nodes[m].name@, placed));
        let d = choose|d: Seq<char>| #[trigger] edge(g, x, d) && !placed.contains(d);
        assert(mentions(g, d));
        if !g.dom().contains(d) {
            assert(is_external(g, d));
        }
        assert(s.contains(d));
    }
    lemma_node_at(nodes, witness);
    assert(s.contains(nodes[witness].name@));
    assert(is_knot(g, s));
}

/// Once every node is placed, the placed names are a topological order.
proof fn lemma_all_done(nodes: Seq<Node>, placed: Seq<Seq<char>>, done: Seq<bool>)
    requires
        round_state(nodes, placed, done),
        forall|m: int| 0 <= m < nodes.len() ==> #[trigger] done[m],
    ensures
        is_topological(node_map(nodes), placed),
{
    let g = node_map(nodes);
    assert forall|x: Seq<char>| mentions(g, x) implies placed.contains(x) by {
        if g.dom().contains(x) {
            let m = lemma_node_of(nodes, x);
            assert(done[m]);
        } else {
            assert(is_external(g, x));
        }
    }
    lemma_placed_is_topological(g, placed);
}

impl DependencyGraph {
    #[verifier::type_invariant]
    spec fn distinct_heads(self) -> bool {
        heads(self.nodes@).no_duplicates()
    }

    /// A graph without nodes.
    pub fn new() -> (g: DependencyGraph)
        ensures
            g@ == Map::<Seq<char>, Seq<Seq<char>>>::empty(),
    {
        let g = DependencyGraph { nodes: Vec::new() };
        assert(heads(g.nodes@) =~= Seq::empty());
        g
    }

    /// Records that `name` depends on `deps`, replacing what was recorded
    /// under that name before.
    pub fn add_node(&mut self, name: String, deps: Vec<String>)
        ensures
            final(self)@ == old(self)@.insert(name@, views(deps@)),
    {
        proof {
            use_type_invariant(&*self);
        }
        let mut taken = DependencyGraph::new();
        core::mem::swap(self, &mut taken);
        let mut nodes = taken.nodes;
        let ghost before = nodes@;
        let at = head_position(&nodes, &name);
        let node = Node { name, deps };
        match at {
            Some(k) => {
                let ghost after = before.update(k as int, node);
                proof {
                    assert(heads(after) =~= heads(before));
                    lemma_node_at(after, k as int);
                    let want = node_map(before).insert(node.name@, views(node.deps@));
                    assert forall|n: Seq<char>| #[trigger]
                        node_map(after).dom().contains(n) implies want.dom().contains(n)
                        && node_map(after)[n] == want[n] by {
                        let i = lemma_node_of(after, n);
                        lemma_node_at(after, i);
                        if i != k {
                            assert(after[i] == before[i]);
                            lemma_node_at(before, i);
                            assert(heads(before)[i] != heads(before)[k as int]);
                        }
                    }
                    assert forall|n: Seq<char>| #[trigger]
                        want.dom().contains(n) implies node_map(after).dom().contains(n) by {
                        if n != node.name@ {
                            let i = lemma_node_of(before, n);
                            assert(after[i] == before[i]);
                            lemma_node_at(after, i);
                        }
                    }
                    assert(node_map(after) =~= want);
                }
                nodes.set(k, node);
            },
            None => {
                proof {
                    let after = before.push(node);
                    assert(after.drop_last() =~= before);
                    assert(heads(after) =~= heads(before).push(node.name@));
                    assert(!heads(before).contains(node.name@));
                    lemma_no_duplicates_push(heads(before), node.name@);
                }
                nodes.push(node);
            },
        }
        *self = DependencyGraph { nodes };
    }

    /// Orders all names of the graph so that each comes behind its
    /// dependencies, or reports a cycle where no such order exists.
    pub fn topological_sort(&self) -> (r: Result<Vec<String>, WaxError>)
        ensures
            match r {
                Ok(order) => is_topological(self@, views(order@)),
                Err(WaxError::DependencyCycle(m)) => has_cycle(self@) && m@
                    == "Circular dependency detected"@,
                Err(_) => false,
            },
    {
        proof {
            use_type_invariant(self);
        }
        let nodes = &self.nodes;
        let ghost g = node_map(nodes@);
        let n = nodes.len();
        // Names that head no node have no dependencies: they come first.
        let mut result = externals_of(nodes);
        let mut done: Vec<bool> = Vec::new();
        let mut c: usize = 0;
        while c < n
            invariant
                c <= n,
                done.len() == c,
                forall|k: int| 0 <= k < c ==> !#[trigger] done@[k],
            decreases n - c,
        {
            done.push(false);
            c += 1;
        }
        proof {
            let placed = views(result@);
            assert forall|i: int, d: Seq<char>|
                0 <= i < placed.len() && #[trigger] edge(g, placed[i], d) implies placed.take(
                    i,
                ).contains(d) by {
                assert(placed.contains(placed[i]));
                assert(is_external(g, placed[i]));
                assert(!Seq::<Seq<char>>::empty().contains(d));
            }
            assert forall|k: int| 0 <= k < nodes@.len() implies (#[trigger] done@[k]
                <==> placed.contains(nodes@[k].name@)) by {
                lemma_node_at(nodes@, k);
                if placed.contains(nodes@[k].name@) {
                    assert(is_external(g, nodes@[k].name@));
                }
            }
        }
        // Then, round by round, every node whose dependencies have all been placed.
        loop
            invariant
                n == nodes.len(),
                nodes == &self.nodes,
                g == node_map(nodes@),
                round_state(nodes@, views(result@), done@),
            decreases pending_count(done@),
        {
            let ghost round_start = views(result@);
            let ghost count_start = pending_count(done@);
            let ghost done_start = done@;
            let mut progressed = false;
            let mut blocked = false;
            let ghost mut witness: int = 0;
            let mut k: usize = 0;
            while k < n
                invariant
                    k <= n,
                    n == nodes.len(),
                    g == node_map(nodes@),
                    round_state(nodes@, views(result@), done@),
                    count_start == pending_count(done_start),
                    progressed ==> pending_count(done@) < count_start,
                    !progressed ==> done@ == done_start && views(result@) == round_start,
                    !progressed ==> forall|m: int|
                        0 <= m < k && !done@[m] ==> #[trigger] is_blocked(
                            g,
                            nodes@[m].name@,
                            round_start,
                        ),
                    !progressed && blocked ==> 0 <= witness < n && !done@[witness],
                    !progressed && !blocked ==> forall|m: int| 0 <= m < k ==> #[trigger] done@[m],
                decreases n - k,
            {
                if !done[k] {
                    let node = &nodes[k];
                    if all_present(&node.deps, &result) {
                        place_node(nodes, k, &mut result, &mut done);
                        progressed = true;
                    } else {
                        blocked = true;
                        proof {
                            witness = k as int;
                            let d = choose|d: Seq<char>|
                                views(node.deps@).contains(d) && !views(result@).contains(d);
                            lemma_node_at(nodes@, k as int);
                            assert(edge(g, nodes@[k as int].name@, d));
                            if !progressed {
                                assert(is_blocked(g, nodes@[k as int].name@, round_start));
                            }
                        }
                    }
                }
                k += 1;
            }
            if !progressed {
                if blocked {
                    proof {
                        lemma_blocked_round(nodes@, views(result@), done@, witness);
                    }
                    return Err(
                        WaxError::DependencyCycle(
                            String::from_str("Circular dependency detected"),
                        ),
                    );
                }
                proof {
                    lemma_all_done(nodes@, views(result@), done@);
                }
                return Ok(result);
            }
        }
    }
}

/// Runtime dependencies that the catalog lists for `name`; `None` where it
/// has no formula of that name.
pub open spec fn catalog_deps(formulae: Seq<Formula>, name: Seq<char>) -> Option<Seq<Seq<char>>> {
    match catalog_position(formulae, name) {
        Some(i) => Some(formulae[i].runtime_deps()),
        None => None,
    }
}

/// The catalog lists `d` as a runtime dependency of `n`.
pub open spec fn requires_dep(formulae: Seq<Formula>, n: Seq<char>, d: Seq<char>) -> bool {
    catalog_deps(formulae, n) matches Some(ds) && ds.contains(d)
}

/// Step `i` of `path` goes from a package to one of its dependencies.
pub open spec fn link(formulae: Seq<Formula>, path: Seq<Seq<char>>, i: int) -> bool {
    requires_dep(formulae, path[i], path[i + 1])
}

/// `path` is a chain of packages that are not installed, each a runtime
/// dependency of the one before.
pub open spec fn chain(formulae: Seq<Formula>, installed: Seq<Seq<char>>, path: Seq<Seq<char>>) -> bool {
    &&& path.len() > 0
    &&& forall|i: int| 0 <= i < path.len() ==> !installed.contains(#[trigger] path[i])
    &&& forall|i: int| 0 <= i < path.len() - 1 ==> #[trigger] link(formulae, path, i)
}

/// `n` has to be installed for `target`: a chain of missing packages leads
/// from `target` to `n`.
pub open spec fn wanted(
    formulae: Seq<Formula>,
    installed: Seq<Seq<char>>,
    target: Seq<char>,
    n: Seq<char>,
) -> bool {
    exists|path: Seq<Seq<char>>| #[trigger]
        chain(formulae, installed, path) && path[0] == target && path.last() == n
}

/// `order` is an install order for `target`: exactly the wanted packages,
/// each once, each known to the catalog and each behind those of its
/// dependencies that are not installed already.
pub open spec fn is_install_order(
    formulae: Seq<Formula>,
    installed: Seq<Seq<char>>,
    target: Seq<char>,
    order: Seq<Seq<char>>,
) -> bool {
    &&& order.no_duplicates()
    &&& forall|n: Seq<char>| #[trigger]
        order.contains(n) <==> wanted(formulae, installed, target, n)
    &&& forall|n: Seq<char>| #[trigger]
        order.contains(n) ==> catalog_deps(formulae, n) is Some
    &&& forall|i: int, d: Seq<char>|
        0 <= i < order.len() && #[trigger] requires_dep(formulae, order[i], d)
            ==> installed.contains(d) || order.take(i).contains(d)
}

/// `s` is a knot among the wanted packages: not empty, and each member
/// depends on a member.
pub open spec fn is_wanted_knot(
    formulae: Seq<Formula>,
    installed: Seq<Seq<char>>,
    target: Seq<char>,
    s: Set<Seq<char>>,
) -> bool {
    &&& exists|n: Seq<char>| s.contains(n)
    &&& forall|n: Seq<char>|
        s.contains(n) ==> #[trigger] wanted_within(formulae, installed, target, s, n)
}

/// `n` is wanted and depends on a member of `s`.
pub open spec fn wanted_within(
    formulae: Seq<Formula>,
    installed: Seq<Seq<char>>,
    target: Seq<char>,
    s: Set<Seq<char>>,
    n: Seq<char>,
) -> bool {
    wanted(formulae, installed, target, n) && exists|d: Seq<char>|
        s.contains(d) && #[trigger] requires_dep(formulae, n, d)
}

/// The wanted packages depend on each other in a cycle.
pub open spec fn wanted_cycle(
    formulae: Seq<Formula>,
    installed: Seq<Seq<char>>,
    target: Seq<char>,
) -> bool {
    exists|s: Set<Seq<char>>| is_wanted_knot(formulae, installed, target, s)
}

/// Some wanted package is missing from the catalog.
pub open spec fn wanted_unknown(
    formulae: Seq<Formula>,
    installed: Seq<Seq<char>>,
    target: Seq<char>,
) -> bool {
    exists|n: Seq<char>| #[trigger]
        wanted(formulae, installed, target, n) && catalog_deps(formulae, n) is None
}

/// The names of `order` that are not installed, in the same order.
pub open spec fn uninstalled_of(order: Seq<Seq<char>>, installed: Seq<Seq<char>>) -> Seq<Seq<char>>
    decreases order.len(),
{
    if order.len() == 0 {
        Seq::empty()
    } else if installed.contains(order.last()) {
        uninstalled_of(order.drop_last(), installed)
    } else {
        uninstalled_of(order.drop_last(), installed).push(order.last())
    }
}

/// A target that is not installed is wanted.
proof fn lemma_wanted_target(formulae: Seq<Formula>, installed: Seq<Seq<char>>, target: Seq<char>)
    requires
        !installed.contains(target),
    ensures
        wanted(formulae, installed, target, target),
{
    let path = seq![target];
    assert(chain(formulae, installed, path));
    assert(path[0] == target && path.last() == target);
}

/// A missing dependency of a wanted package is wanted.
proof fn lemma_wanted_step(
    formulae: Seq<Formula>,
    installed: Seq<Seq<char>>,
    target: Seq<char>,
    n: Seq<char>,
    d: Seq<char>,
)
    requires
        wanted(formulae, installed, target, n),
        requires_dep(formulae, n, d),
        !installed.contains(d),
    ensures
        wanted(formulae, installed, target, d),
{
    let path = choose|path: Seq<Seq<char>>| #[trigger]
        chain(formulae, installed, path) && path[0] == target && path.last() == n;
    let next = path.push(d);
    assert forall|i: int| 0 <= i < next.len() - 1 implies #[trigger] link(formulae, next, i) by {
        if i < path.len() - 1 {
            assert(link(formulae, path, i));
        }
    }
    assert(chain(formulae, installed, next));
    assert(next[0] == target && next.last() == d);
}

/// What the walk from the target maintains.
///
/// `visited` are the packages expanded so far, `queue` the names met, of
/// which the first `head` have been handled; `g` holds the visited packages
/// with their dependencies, and `expanded` marks their formulae.
pub open spec fn walk_state(
    formulae: Seq<Formula>,
    installed: Seq<Seq<char>>,
    target: Seq<char>,
    visited: Seq<Seq<char>>,
    queue: Seq<Seq<char>>,
    head: int,
    g: Map<Seq<char>, Seq<Seq<char>>>,
    expanded: Seq<bool>,
) -> bool {
    &&& 0 <= head <= queue.len()
    &&& queue.len() > 0
    &&& queue[0] == target
    &&& visited.no_duplicates()
    &&& forall|n: Seq<char>| #[trigger]
        visited.contains(n) ==> !installed.contains(n) && wanted(formulae, installed, target, n)
            && catalog_deps(formulae, n) is Some
    &&& forall|k: int|
        0 <= k < queue.len() ==> installed.contains(#[trigger] queue[k]) || wanted(
            formulae,
            installed,
            target,
            queue[k],
        )
    &&& forall|k: int|
        0 <= k < head ==> installed.contains(#[trigger] queue[k]) || visited.contains(queue[k])
    &&& forall|n: Seq<char>, d: Seq<char>|
        visited.contains(n) && #[trigger] requires_dep(formulae, n, d) ==> installed.contains(d)
            || queue.contains(d)
    &&& forall|n: Seq<char>| #[trigger] g.dom().contains(n) <==> visited.contains(n)
    &&& forall|n: Seq<char>| #[trigger]
        visited.contains(n) ==> catalog_deps(formulae, n) == Some(g[n])
    &&& expanded.len() == formulae.len()
    &&& forall|j: int|
        0 <= j < expanded.len() && #[trigger] expanded[j] ==> visited.contains(formulae[j].name@)
}

/// The name at the head of the queue is wanted unless it is installed,
/// and it may be passed over where it is installed or visited.
proof fn lemma_walk_head(
    formulae: Seq<Formula>,
    installed: Seq<Seq<char>>,
    target: Seq<char>,
    visited: Seq<Seq<char>>,
    queue: Seq<Seq<char>>,
    head: int,
    g: Map<Seq<char>, Seq<Seq<char>>>,
    expanded: Seq<bool>,
)
    requires
        walk_state(formulae, installed, target, visited, queue, head, g, expanded),
        head < queue.len(),
    ensures
        0 <= head,
        expanded.len() == formulae.len(),
        installed.contains(queue[head]) || wanted(formulae, installed, target, queue[head]),
        installed.contains(queue[head]) || visited.contains(queue[head]) ==> walk_state(
            formulae,
            installed,
            target,
            visited,
            queue,
            head + 1,
            g,
            expanded,
        ),
{
    reveal(walk_state);
}

/// Expanding the package at the head of the queue keeps the walk's state.
proof fn lemma_walk_step(
    formulae: Seq<Formula>,
    installed: Seq<Seq<char>>,
    target: Seq<char>,
    visited: Seq<Seq<char>>,
    queue: Seq<Seq<char>>,
    longer: Seq<Seq<char>>,
    head: int,
    g: Map<Seq<char>, Seq<Seq<char>>>,
    expanded: Seq<bool>,
    j: int,
)
    requires
        walk_state(formulae, installed, target, visited, queue, head, g, expanded),
        head < queue.len(),
        !visited.contains(queue[head]),
        !installed.contains(queue[head]),
        catalog_position(formulae, queue[head]) == Some(j),
        0 <= j < formulae.len(),
        queue.len() <= longer.len(),
        forall|k: int| 0 <= k < queue.len() ==> longer[k] == queue[k],
        forall|k: int|
            queue.len() <= k < longer.len() ==> !installed.contains(#[trigger] longer[k])
                && formulae[j].runtime_deps().contains(longer[k]),
        forall|d: Seq<char>|
            formulae[j].runtime_deps().contains(d) ==> installed.contains(d) || longer.contains(d),
    ensures
        walk_state(
            formulae,
            installed,
            target,
            visited.push(queue[head]),
            longer,
            head + 1,
            g.insert(queue[head], formulae[j].runtime_deps()),
            expanded.update(j, true),
        ),
        !expanded[j],
{
    reveal(walk_state);
    let name = queue[head];
    let deps = formulae[j].runtime_deps();
    let v2 = visited.push(name);
    let g2 = g.insert(name, deps);
    let e2 = expanded.update(j, true);
    lemma_first_named(formula_names(formulae), name, 0);
    assert(formula_names(formulae)[j] == formulae[j].name@);
    assert(wanted(formulae, installed, target, name));
    lemma_no_duplicates_push(visited, name);
    assert forall|n: Seq<char>| #[trigger] v2.contains(n) implies !installed.contains(n) && wanted(
        formulae,
        installed,
        target,
        n,
    ) && catalog_deps(formulae, n) is Some && catalog_deps(formulae, n) == Some(g2[n])
        && g2.dom().contains(n) by {
        lemma_contains_push(visited, name, n);
    }
    assert forall|n: Seq<char>| #[trigger] g2.dom().contains(n) implies v2.contains(n) by {
        lemma_contains_push(visited, name, n);
    }
    assert forall|k: int| 0 <= k < longer.len() implies installed.contains(#[trigger] longer[k])
        || wanted(formulae, installed, target, longer[k]) by {
        if k < queue.len() {
            assert(longer[k] == queue[k]);
        } else {
            assert(requires_dep(formulae, name, longer[k]));
            lemma_wanted_step(formulae, installed, target, name, longer[k]);
        }
    }
    assert forall|k: int| 0 <= k < head + 1 implies installed.contains(#[trigger] longer[k])
        || v2.contains(longer[k]) by {
        assert(longer[k] == queue[k]);
        lemma_contains_push(visited, name, queue[k]);
    }
    assert forall|n: Seq<char>, d: Seq<char>|
        v2.contains(n) && #[trigger] requires_dep(formulae, n, d) implies installed.contains(d)
        || longer.contains(d) by {
        lemma_contains_push(visited, name, n);
        if visited.contains(n) {
            if !installed.contains(d) {
                let k = choose|k: int| 0 <= k < queue.len() && queue[k] == d;
                assert(longer[k] == d);
            }
        }
    }
    assert forall|m: int| 0 <= m < e2.len() && #[trigger] e2[m] implies v2.contains(
        formulae[m].name@,
    ) by {
        lemma_contains_push(visited, name, formulae[m].name@);
    }
    if expanded[j] {
        assert(visited.contains(formulae[j].name@));
    }
    assert(longer[0] == queue[0]);
}

/// Once the queue is used up, the end of every chain from the target has been visited.
proof fn lemma_chain_visited(
    formulae: Seq<Formula>,
    installed: Seq<Seq<char>>,
    target: Seq<char>,
    visited: Seq<Seq<char>>,
    queue: Seq<Seq<char>>,
    g: Map<Seq<char>, Seq<Seq<char>>>,
    expanded: Seq<bool>,
    path: Seq<Seq<char>>,
)
    requires
        walk_state(formulae, installed, target, visited, queue, queue.len() as int, g, expanded),
        chain(formulae, installed, path),
        path[0] == target,
    ensures
        visited.contains(path.last()),
    decreases path.len(),
{
    reveal(walk_state);
    if path.len() == 1 {
        assert(!installed.contains(path[0]));
        assert(visited.contains(queue[0]));
    } else {
        let front = path.drop_last();
        assert forall|i: int| 0 <= i < front.len() - 1 implies #[trigger] link(
            formulae,
            front,
            i,
        ) by {
            assert(link(formulae, path, i));
        }
        assert forall|i: int| 0 <= i < front.len() implies !installed.contains(
            #[trigger] front[i],
        ) by {
            assert(front[i] == path[i]);
        }
        assert(chain(formulae, installed, front));
        lemma_chain_visited(formulae, installed, target, visited, queue, g, expanded, front);
        let last = path.len() - 1;
        assert(link(formulae, path, last - 1));
        assert(front.last() == path[last - 1]);
        assert(requires_dep(formulae, path[last - 1], path[last]));
        assert(!installed.contains(path[last]));
        let k = choose|k: int| 0 <= k < queue.len() && queue[k] == path[last];
        assert(installed.contains(queue[k]) || visited.contains(queue[k]));
    }
}

/// Once the queue is used up, the visited packages are exactly the wanted ones.
proof fn lemma_walk_closed(
    formulae: Seq<Formula>,
    installed: Seq<Seq<char>>,
    target: Seq<char>,
    visited: Seq<Seq<char>>,
    queue: Seq<Seq<char>>,
    g: Map<Seq<char>, Seq<Seq<char>>>,
    expanded: Seq<bool>,
)
    requires
        walk_state(formulae, installed, target, visited, queue, queue.len() as int, g, expanded),
    ensures
        forall|n: Seq<char>| #[trigger]
            wanted(formulae, installed, target, n) <==> visited.contains(n),
        forall|n: Seq<char>| mentions(g, n) && !installed.contains(n) ==> visited.contains(n),
        forall|n: Seq<char>, d: Seq<char>| #[trigger]
            edge(g, n, d) <==> visited.contains(n) && requires_dep(formulae, n, d),
        forall|n: Seq<char>| #[trigger]
            visited.contains(n) ==> catalog_deps(formulae, n) is Some,
{
    reveal(walk_state);
    assert forall|n: Seq<char>| #[trigger]
        wanted(formulae, installed, target, n) implies visited.contains(n) by {
        let path = choose|path: Seq<Seq<char>>| #[trigger]
            chain(formulae, installed, path) && path[0] == target && path.last() == n;
        lemma_chain_visited(formulae, installed, target, visited, queue, g, expanded, path);
    }
    assert forall|n: Seq<char>, d: Seq<char>| #[trigger]
        edge(g, n, d) <==> visited.contains(n) && requires_dep(formulae, n, d) by {
        if !g.dom().contains(n) {
            assert(!Seq::<Seq<char>>::empty().contains(d));
        }
    }
    assert forall|n: Seq<char>| mentions(g, n) && !installed.contains(n) implies visited.contains(
        n,
    ) by {
        if !g.dom().contains(n) {
            let m = choose|m: Seq<char>| #[trigger] edge(g, m, n);
            assert(requires_dep(formulae, m, n));
            let k = choose|k: int| 0 <= k < queue.len() && queue[k] == n;
            assert(installed.contains(queue[k]) || visited.contains(queue[k]));
        }
    }
}

/// What is kept of a list when the installed names are left out.
pub proof fn lemma_uninstalled_of(order: Seq<Seq<char>>, installed: Seq<Seq<char>>)
    ensures
        forall|x: Seq<char>| #[trigger]
            uninstalled_of(order, installed).contains(x) <==> order.contains(x)
                && !installed.contains(x),
        order.no_duplicates() ==> uninstalled_of(order, installed).no_duplicates(),
    decreases order.len(),
{
    let kept = uninstalled_of(order, installed);
    if order.len() == 0 {
    } else {
        let front = order.drop_last();
        let last = order.last();
        let kept_front = uninstalled_of(front, installed);
        lemma_uninstalled_of(front, installed);
        assert(order =~= front.push(last));
        assert forall|x: Seq<char>| #[trigger]
            kept.contains(x) <==> order.contains(x) && !installed.contains(x) by {
            lemma_contains_push(front, last, x);
            lemma_contains_push(kept_front, last, x);
        }
        if order.no_duplicates() {
            assert forall|i: int, j: int| 0 <= i < j < front.len() implies front[i] != front[j] by {
                assert(order[i] != order[j]);
            }
            if !installed.contains(last) {
                if front.contains(last) {
                    let i = choose|i: int| 0 <= i < front.len() && front[i] == last;
                    assert(order[i] == order[order.len() - 1]);
                }
                lemma_no_duplicates_push(kept_front, last);
            }
        }
    }
}

/// Where a kept name stood: what precedes it among the kept names is what
/// was kept of the names before it.
pub proof fn lemma_kept_origin(order: Seq<Seq<char>>, installed: Seq<Seq<char>>, a: int) -> (p: int)
    requires
        0 <= a < uninstalled_of(order, installed).len(),
    ensures
        0 <= p < order.len(),
        order[p] == uninstalled_of(order, installed)[a],
        uninstalled_of(order.take(p), installed) == uninstalled_of(order, installed).take(a),
    decreases order.len(),
{
    let kept = uninstalled_of(order, installed);
    let front = order.drop_last();
    let kept_front = uninstalled_of(front, installed);
    if a < kept_front.len() {
        let p = lemma_kept_origin(front, installed, a);
        assert(order.take(p) =~= front.take(p));
        assert(kept.take(a) =~= kept_front.take(a));
        p
    } else {
        let p = order.len() - 1;
        assert(order.take(p) =~= front);
        assert(kept.take(a) =~= kept_front);
        p
    }
}

/// The uninstalled names of a topological order of the walked graph form
/// an install order.
proof fn lemma_install_order(
    formulae: Seq<Formula>,
    installed: Seq<Seq<char>>,
    target: Seq<char>,
    visited: Seq<Seq<char>>,
    queue: Seq<Seq<char>>,
    g: Map<Seq<char>, Seq<Seq<char>>>,
    expanded: Seq<bool>,
    order: Seq<Seq<char>>,
)
    requires
        walk_state(formulae, installed, target, visited, queue, queue.len() as int, g, expanded),
        is_topological(g, order),
    ensures
        is_install_order(formulae, installed, target, uninstalled_of(order, installed)),
{
    let kept = uninstalled_of(order, installed);
    lemma_walk_closed(formulae, installed, target, visited, queue, g, expanded);
    lemma_uninstalled_of(order, installed);
    assert forall|n: Seq<char>| #[trigger]
        kept.contains(n) <==> wanted(formulae, installed, target, n) by {
        if wanted(formulae, installed, target, n) {
            assert(visited.contains(n));
            assert(g.dom().contains(n));
            assert(mentions(g, n));
        }
        if kept.contains(n) {
            assert(order.contains(n));
            assert(mentions(g, n));
        }
    }
    assert forall|i: int, d: Seq<char>|
        0 <= i < kept.len() && #[trigger] requires_dep(
            formulae,
            kept[i],
            d,
        ) implies installed.contains(d) || kept.take(i).contains(d) by {
        if !installed.contains(d) {
            assert(kept.contains(kept[i]));
            assert(visited.contains(kept[i]));
            assert(edge(g, kept[i], d));
            assert(mentions(g, d));
            assert(order.contains(d));
            let p = lemma_kept_origin(order, installed, i);
            let q = choose|q: int| 0 <= q < order.len() && order[q] == d;
            assert(edge(g, order[p], order[q]));
            assert(q < p);
            assert(order.take(p)[q] == d);
            lemma_uninstalled_of(order.take(p), installed);
            assert(order.take(p).contains(d));
        }
    }
}

/// A cycle in the walked graph is a cycle among the wanted packages.
proof fn lemma_wanted_cycle(
    formulae: Seq<Formula>,
    installed: Seq<Seq<char>>,
    target: Seq<char>,
    visited: Seq<Seq<char>>,
    queue: Seq<Seq<char>>,
    g: Map<Seq<char>, Seq<Seq<char>>>,
    expanded: Seq<bool>,
)
    requires
        walk_state(formulae, installed, target, visited, queue, queue.len() as int, g, expanded),
        has_cycle(g),
    ensures
        wanted_cycle(formulae, installed, target),
        !wanted_unknown(formulae, installed, target),
{
    lemma_walk_closed(formulae, installed, target, visited, queue, g, expanded);
    lemma_knot_transfer(formulae, installed, target, visited, g);
}

/// A knot of a graph that holds exactly the wanted packages with their
/// dependencies is a knot among the wanted packages.
proof fn lemma_knot_transfer(
    formulae: Seq<Formula>,
    installed: Seq<Seq<char>>,
    target: Seq<char>,
    visited: Seq<Seq<char>>,
    g: Map<Seq<char>, Seq<Seq<char>>>,
)
    requires
        has_cycle(g),
        forall|n: Seq<char>| #[trigger]
            wanted(formulae, installed, target, n) <==> visited.contains(n),
        forall|n: Seq<char>, d: Seq<char>| #[trigger]
            edge(g, n, d) <==> visited.contains(n) && requires_dep(formulae, n, d),
        forall|n: Seq<char>| #[trigger]
            visited.contains(n) ==> catalog_deps(formulae, n) is Some,
    ensures
        wanted_cycle(formulae, installed, target),
        !wanted_unknown(formulae, installed, target),
{
    let s = choose|s: Set<Seq<char>>| is_knot(g, s);
    assert forall|n: Seq<char>| s.contains(n) implies #[trigger] wanted_within(
        formulae,
        installed,
        target,
        s,
        n,
    ) by {
        assert(depends_within(g, s, n));
        let d = choose|d: Seq<char>| s.contains(d) && #[trigger] edge(g, n, d);
        assert(requires_dep(formulae, n, d));
    }
    assert(is_wanted_knot(formulae, installed, target, s));
}

/// Where a wanted package is missing from the catalog, there is no install order.
pub proof fn lemma_unknown_blocks_order(
    formulae: Seq<Formula>,
    installed: Seq<Seq<char>>,
    target: Seq<char>,
    order: Seq<Seq<char>>,
)
    requires
        wanted_unknown(formulae, installed, target),
    ensures
        !is_install_order(formulae, installed, target, order),
{
    let n = choose|n: Seq<char>| #[trigger]
        wanted(formulae, installed, target, n) && catalog_deps(formulae, n) is None;
    if is_install_order(formulae, installed, target, order) {
        assert(order.contains(n));
    }
}

/// In an install order, no member of a knot stands among the first `k` names.
proof fn lemma_no_knot_member_upto(
    formulae: Seq<Formula>,
    installed: Seq<Seq<char>>,
    target: Seq<char>,
    s: Set<Seq<char>>,
    order: Seq<Seq<char>>,
    k: int,
)
    requires
        is_wanted_knot(formulae, installed, target, s),
        is_install_order(formulae, installed, target, order),
        0 <= k <= order.len(),
    ensures
        forall|i: int| 0 <= i < k ==> !s.contains(#[trigger] order[i]),
    decreases k,
{
    if k > 0 {
        lemma_no_knot_member_upto(formulae, installed, target, s, order, k - 1);
        let n = order[k - 1];
        if s.contains(n) {
            assert(wanted_within(formulae, installed, target, s, n));
            let d = choose|d: Seq<char>| s.contains(d) && #[trigger] requires_dep(formulae, n, d);
            assert(wanted_within(formulae, installed, target, s, d));
            lemma_chain_end_missing(formulae, installed, target, d);
            let before = order.take(k - 1);
            assert(before.contains(d));
            let j = choose|j: int| 0 <= j < before.len() && before[j] == d;
            assert(order[j] == d);
        }
    }
}

/// A wanted package is not installed.
proof fn lemma_chain_end_missing(
    formulae: Seq<Formula>,
    installed: Seq<Seq<char>>,
    target: Seq<char>,
    n: Seq<char>,
)
    requires
        wanted(formulae, installed, target, n),
    ensures
        !installed.contains(n),
{
    let path = choose|path: Seq<Seq<char>>| #[trigger]
        chain(formulae, installed, path) && path[0] == target && path.last() == n;
    assert(!installed.contains(path[path.len() - 1]));
}

/// Where the wanted packages depend on each other in a cycle, there is no install order.
pub proof fn lemma_cycle_blocks_order(
    formulae: Seq<Formula>,
    installed: Seq<Seq<char>>,
    target: Seq<char>,
    order: Seq<Seq<char>>,
)
    requires
        wanted_cycle(formulae, installed, target),
    ensures
        !is_install_order(formulae, installed, target, order),
{
    let s = choose|s: Set<Seq<char>>| is_wanted_knot(formulae, installed, target, s);
    if is_install_order(formulae, installed, target, order) {
        lemma_no_knot_member_upto(formulae, installed, target, s, order, order.len() as int);
        let n = choose|n: Seq<char>| s.contains(n);
        assert(wanted_within(formulae, installed, target, s, n));
        assert(order.contains(n));
        let i = choose|i: int| 0 <= i < order.len() && order[i] == n;
        assert(!s.contains(order[i]));
    }
}

/// Where there is an install order, no wanted package is missing from the
/// catalog and the wanted packages do not depend on each other in a cycle.
pub proof fn lemma_not_both(
    formulae: Seq<Formula>,
    installed: Seq<Seq<char>>,
    target: Seq<char>,
    order: Seq<Seq<char>>,
)
    requires
        is_install_order(formulae, installed, target, order),
    ensures
        !wanted_unknown(formulae, installed, target),
        !wanted_cycle(formulae, installed, target),
{
    if wanted_unknown(formulae, installed, target) {
        lemma_unknown_blocks_order(formulae, installed, target, order);
    }
    if wanted_cycle(formulae, installed, target) {
        lemma_cycle_blocks_order(formulae, installed, target, order);
    }
}

/// An install order never names an installed package, and never names one twice.
pub proof fn lemma_install_order_excludes_installed(
    formulae: Seq<Formula>,
    installed: Seq<Seq<char>>,
    target: Seq<char>,
    order: Seq<Seq<char>>,
)
    requires
        is_install_order(formulae, installed, target, order),
    ensures
        order.no_duplicates(),
        forall|i: int| 0 <= i < order.len() ==> !installed.contains(#[trigger] order[i]),
        forall|i: int, j: int|
            0 <= i < order.len() && 0 <= j < order.len() && #[trigger] requires_dep(
                formulae,
                order[i],
                order[j],
            ) ==> j < i,
{
    assert forall|i: int| 0 <= i < order.len() implies !installed.contains(#[trigger] order[i]) by {
        assert(order.contains(order[i]));
        lemma_chain_end_missing(formulae, installed, target, order[i]);
    }
    assert forall|i: int, j: int|
        0 <= i < order.len() && 0 <= j < order.len() && #[trigger] requires_dep(
            formulae,
            order[i],
            order[j],
        ) implies j < i by {
        assert(order.contains(order[j]));
        lemma_chain_end_missing(formulae, installed, target, order[j]);
        let before = order.take(i);
        let p = choose|p: int| 0 <= p < before.len() && before[p] == order[j];
        assert(order[p] == order[j]);
    }
}

/// Appends to `queue` the names of `deps` that are not installed.
fn push_uninstalled(queue: &mut Vec<String>, deps: &Vec<String>, installed: &Vec<String>)
    ensures
        old(queue).len() <= final(queue).len(),
        forall|k: int|
            0 <= k < old(queue).len() ==> views(final(queue)@)[k] == views(old(queue)@)[k],
        forall|k: int|
            old(queue).len() <= k < final(queue).len() ==> !views(installed@).contains(
                #[trigger] views(final(queue)@)[k],
            ) && views(deps@).contains(views(final(queue)@)[k]),
        forall|d: Seq<char>|
            views(deps@).contains(d) ==> views(installed@).contains(d) || views(
                final(queue)@,
            ).contains(d),
{
    let ghost start = views(queue@);
    let mut i: usize = 0;
    while i < deps.len()
        invariant
            i <= deps.len(),
            start.len() <= queue.len(),
            forall|k: int| 0 <= k < start.len() ==> views(queue@)[k] == start[k],
            forall|k: int|
                start.len() <= k < queue.len() ==> !views(installed@).contains(
                    #[trigger] views(queue@)[k],
                ) && views(deps@).contains(views(queue@)[k]),
            forall|m: int|
                0 <= m < i ==> views(installed@).contains(#[trigger] views(deps@)[m]) || views(
                    queue@,
                ).contains(views(deps@)[m]),
        decreases deps.len() - i,
    {
        let dep = &deps[i];
        assert(views(deps@)[i as int] == dep@);
        let ghost before = views(queue@);
        if !has_name(installed, dep) {
            proof {
                lemma_views_push(queue@, *dep);
            }
            queue.push(dep.clone());
        }
        proof {
            assert forall|m: int| 0 <= m < i + 1 implies views(installed@).contains(
                #[trigger] views(deps@)[m],
            ) || views(queue@).contains(views(deps@)[m]) by {
                lemma_contains_push(before, dep@, views(deps@)[m]);
            }
        }
        i += 1;
    }
}

/// The names of `order` that are not installed, in the same order.
fn keep_uninstalled(order: Vec<String>, installed: &Vec<String>) -> (out: Vec<String>)
    ensures
        views(out@) == uninstalled_of(views(order@), views(installed@)),
{
    let mut out: Vec<String> = Vec::new();
    let mut i: usize = 0;
    while i < order.len()
        invariant
            i <= order.len(),
            views(out@) == uninstalled_of(views(order@).take(i as int), views(installed@)),
        decreases order.len() - i,
    {
        let ghost next = views(order@).take(i + 1);
        assert(next.drop_last() =~= views(order@).take(i as int));
        assert(next.last() == order@[i as int]@);
        if !has_name(installed, &order[i]) {
            proof {
                lemma_views_push(out@, order@[i as int]);
            }
            out.push(order[i].clone());
        }
        i += 1;
    }
    assert(views(order@).take(order.len() as int) =~= views(order@));
    out
}

/// The packages to install for `formula`, dependencies first.
///
/// Walks the runtime dependencies of `formula` breadth-first, leaving out
/// what is installed, and orders what it found so that every package comes
/// behind the dependencies it still needs. Fails with `FormulaNotFound`
/// where a package on the way is missing from `formulae`, and with
/// `DependencyCycle` where the packages found depend on each other in a
/// cycle.
pub fn resolve_dependencies(formula: &Formula, formulae: &[Formula], installed: &Vec<String>) -> (r:
    Result<Vec<String>, WaxError>)
    ensures
        match r {
            Ok(order) => is_install_order(
                formulae@,
                views(installed@),
                formula.name@,
                views(order@),
            ),
            Err(WaxError::FormulaNotFound(n)) => wanted(
                formulae@,
                views(installed@),
                formula.name@,
                n@,
            ) && catalog_deps(formulae@, n@) is None,
            Err(WaxError::DependencyCycle(m)) => m@ == "Circular dependency detected"@
                && wanted_cycle(formulae@, views(installed@), formula.name@) && !wanted_unknown(
                formulae@,
                views(installed@),
                formula.name@,
            ),
            Err(_) => false,
        },
{
    let ghost fs = formulae@;
    let ghost inst = views(installed@);
    let ghost target = formula.name@;
    let mut graph = DependencyGraph::new();
    let mut visited: Vec<String> = Vec::new();
    let mut queue: Vec<String> = Vec::new();
    queue.push(formula.name.clone());
    let mut expanded: Vec<bool> = Vec::new();
    let mut c: usize = 0;
    while c < formulae.len()
        invariant
            c <= formulae.len(),
            expanded.len() == c,
            forall|k: int| 0 <= k < c ==> !#[trigger] expanded@[k],
        decreases formulae.len() - c,
    {
        expanded.push(false);
        c += 1;
    }
    let mut head: usize = 0;
    proof {
        reveal(walk_state);
        assert(views(queue@)[0] == target);
        if !inst.contains(target) {
            lemma_wanted_target(fs, inst, target);
        }
    }
    while head < queue.len()
        invariant
            fs == formulae@,
            inst == views(installed@),
            target == formula.name@,
            walk_state(
                fs,
                inst,
                target,
                views(visited@),
                views(queue@),
                head as int,
                graph@,
                expanded@,
            ),
        decreases pending_count(expanded@), queue.len() - head,
    {
        let name = queue[head].clone();
        assert(name@ == views(queue@)[head as int]);
        proof {
            lemma_walk_head(
                fs,
                inst,
                target,
                views(visited@),
                views(queue@),
                head as int,
                graph@,
                expanded@,
            );
        }
        if has_name(&visited, &name) || has_name(installed, &name) {
            head += 1;
        } else {
            match find_formula(formulae, &name) {
                None => {
                    return Err(WaxError::FormulaNotFound(name));
                },
                Some(j) => {
                    let deps = match &formulae[j].dependencies {
                        Some(d) => clone_names(d),
                        None => Vec::new(),
                    };
                    assert(views(deps@) =~= fs[j as int].runtime_deps());
                    let ghost before = views(queue@);
                    push_uninstalled(&mut queue, &deps, installed);
                    proof {
                        lemma_walk_step(
                            fs,
                            inst,
                            target,
                            views(visited@),
                            before,
                            views(queue@),
                            head as int,
                            graph@,
                            expanded@,
                            j as int,
                        );
                        lemma_views_push(visited@, name);
                        lemma_pending_count_update(expanded@, j as int);
                    }
                    visited.push(name.clone());
                    expanded.set(j, true);
                    graph.add_node(name, deps);
                    head += 1;
                },
            }
        }
    }
    match graph.topological_sort() {
        Ok(sorted) => {
            proof {
                lemma_install_order(
                    fs,
                    inst,
                    target,
                    views(visited@),
                    views(queue@),
                    graph@,
                    expanded@,
                    views(sorted@),
                );
            }
            Ok(keep_uninstalled(sorted, installed))
        },
        Err(e) => {
            proof {
                lemma_wanted_cycle(
                    fs,
                    inst,
                    target,
                    views(visited@),
                    views(queue@),
                    graph@,
                    expanded@,
                );
            }
            Err(e)
        },
    }
}

} // verus!
