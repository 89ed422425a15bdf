//! Ordering the nodes of a dependency graph.
//!
//! Nodes are numbered `0..n`, and an edge `(i, j)` says that node `i`
//! depends on node `j`. The order that [`linearize`] returns is built one
//! node at a time: each position takes the lowest-numbered node that has not
//! been placed yet and whose dependencies have all been placed. This
//! tie-break makes the order a function of the graph alone.

use vstd::prelude::*;

verus! {

/// The relation "`i` depends on `j`" that a list of edges stands for.
pub open spec fn edge_relation(edges: Seq<(usize, usize)>) -> spec_fn(usize, usize) -> bool {
    |i: usize, j: usize| exists|k: int| 0 <= k < edges.len() && #[trigger] edges[k] == (i, j)
}

/// Whether node `i` can be placed next when the nodes of `done` have been
/// placed: it is a node, it is not placed yet, and all that it depends on
/// is.
pub open spec fn is_ready(
    depends: spec_fn(usize, usize) -> bool,
    n: int,
    done: Seq<usize>,
    i: usize,
) -> bool {
    &&& i < n
    &&& !done.contains(i)
    &&& forall|j: usize| j < n && #[trigger] depends(i, j) ==> done.contains(j)
}

/// Whether `i` is the lowest-numbered node that can be placed next.
pub open spec fn is_first_ready(
    depends: spec_fn(usize, usize) -> bool,
    n: int,
    done: Seq<usize>,
    i: usize,
) -> bool {
    &&& is_ready(depends, n, done, i)
    &&& forall|j: usize| j < i ==> !is_ready(depends, n, done, j)
}

/// Whether `order` lists every node of `0..n` once, each after all that it
/// depends on, and at each position the lowest-numbered node that could
/// stand there.
pub open spec fn is_linear_order(
    depends: spec_fn(usize, usize) -> bool,
    n: int,
    order: Seq<usize>,
) -> bool {
    &&& order.len() == n
    &&& forall|i: usize| i < n ==> order.contains(i)
    &&& forall|p: int|
        0 <= p < order.len() ==> is_first_ready(depends, n, order.take(p), #[trigger] order[p])
}

/// Whether `cycle` is a closed walk along dependencies: each of its nodes
/// depends on the next one, and the last one on the first.
pub open spec fn is_cycle(
    depends: spec_fn(usize, usize) -> bool,
    n: int,
    cycle: Seq<usize>,
) -> bool {
    &&& cycle.len() > 0
    &&& forall|p: int| 0 <= p < cycle.len() ==> #[trigger] cycle[p] < n
    &&& forall|p: int| 0 <= p < cycle.len() - 1 ==> depends(#[trigger] cycle[p], cycle[p + 1])
    &&& depends(cycle.last(), cycle[0])
}

/// Whether the dependencies among the nodes `0..n` hold a cycle.
pub open spec fn has_cycle(depends: spec_fn(usize, usize) -> bool, n: int) -> bool {
    exists|cycle: Seq<usize>| is_cycle(depends, n, cycle)
}

/// Whether every edge joins two nodes of `0..n`.
pub open spec fn edges_within(edges: Seq<(usize, usize)>, n: int) -> bool {
    forall|k: int| 0 <= k < edges.len() ==> (#[trigger] edges[k]).0 < n && edges[k].1 < n
}

/// A sequence of distinct numbers below `n` has at most `n` entries.
pub proof fn lemma_distinct_bounded(s: Seq<usize>, n: usize)
    requires
        s.no_duplicates(),
        forall|p: int| 0 <= p < s.len() ==> #[trigger] s[p] < n,
    ensures
        s.len() <= n,
    decreases n,
{
    if n == 0 {
        if s.len() > 0 {
            assert(s[0] < n);
        }
    } else {
        let top = (n - 1) as usize;
        if s.contains(top) {
            let p = choose|p: int| 0 <= p < s.len() && s[p] == top;
            let t = s.remove(p);
            assert forall|q: int| 0 <= q < t.len() implies #[trigger] t[q] < top by {
                let q0 = if q < p { q } else { q + 1 };
                assert(t[q] == s[q0]);
                assert(s[q0] < n);
            }
            assert forall|a: int, b: int| 0 <= a < t.len() && 0 <= b < t.len() && a != b implies t[a]
                != t[b] by {
                let a0 = if a < p { a } else { a + 1 };
                let b0 = if b < p { b } else { b + 1 };
                assert(t[a] == s[a0] && t[b] == s[b0]);
            }
            lemma_distinct_bounded(t, top);
        } else {
            assert forall|q: int| 0 <= q < s.len() implies #[trigger] s[q] < top by {
                assert(s[q] < n);
            }
            lemma_distinct_bounded(s, top);
        }
    }
}

/// A sequence that holds every number below `n` has at least `n` entries.
pub proof fn lemma_covering_long(s: Seq<usize>, n: usize)
    requires
        forall|i: usize| i < n ==> s.contains(i),
    ensures
        s.len() >= n,
    decreases n,
{
    if n > 0 {
        let top = (n - 1) as usize;
        assert(s.contains(top));
        let p = choose|p: int| 0 <= p < s.len() && s[p] == top;
        let t = s.remove(p);
        assert forall|i: usize| i < top implies t.contains(i) by {
            assert(s.contains(i));
            let q = choose|q: int| 0 <= q < s.len() && s[q] == i;
            let q0 = if q < p { q } else { q - 1 };
            assert(t[q0] == i);
        }
        lemma_covering_long(t, top);
    }
}

/// The position at which `v` stands in `order`.
pub open spec fn position(order: Seq<usize>, v: usize) -> int {
    choose|p: int| 0 <= p < order.len() && order[p] == v
}

/// In a linear order no node stands twice.
pub proof fn lemma_linear_order_distinct(
    depends: spec_fn(usize, usize) -> bool,
    n: int,
    order: Seq<usize>,
)
    requires
        is_linear_order(depends, n, order),
    ensures
        order.no_duplicates(),
{
    assert forall|a: int, b: int| 0 <= a < order.len() && 0 <= b < order.len() && a != b implies order[a]
        != order[b] by {
        let (lo, hi) = if a < b { (a, b) } else { (b, a) };
        assert(is_first_ready(depends, n, order.take(hi), order[hi]));
        assert(order.take(hi)[lo] == order[lo]);
    }
}

/// In a linear order a node stands after each node that it depends on.
pub proof fn lemma_dependency_earlier(
    depends: spec_fn(usize, usize) -> bool,
    n: int,
    order: Seq<usize>,
    i: usize,
    j: usize,
)
    requires
        is_linear_order(depends, n, order),
        i < n,
        j < n,
        depends(i, j),
    ensures
        0 <= position(order, j) < position(order, i) < order.len(),
        order[position(order, i)] == i,
        order[position(order, j)] == j,
{
    lemma_linear_order_distinct(depends, n, order);
    assert(order.contains(i));
    assert(order.contains(j));
    let pi = position(order, i);
    let pj = position(order, j);
    let done = order.take(pi);
    assert(is_first_ready(depends, n, done, order[pi]));
    assert(done.contains(j));
    let q = choose|q: int| 0 <= q < done.len() && done[q] == j;
    assert(order[q] == j);
}

/// Walking `p` steps along a cycle from its first node moves at least `p`
/// positions towards the front of a linear order.
proof fn lemma_cycle_descends(
    depends: spec_fn(usize, usize) -> bool,
    n: int,
    order: Seq<usize>,
    cycle: Seq<usize>,
    p: int,
)
    requires
        is_linear_order(depends, n, order),
        is_cycle(depends, n, cycle),
        0 <= p < cycle.len(),
    ensures
        position(order, cycle[p]) <= position(order, cycle[0]) - p,
    decreases p,
{
    if p > 0 {
        lemma_cycle_descends(depends, n, order, cycle, p - 1);
        assert(cycle[p - 1] < n && cycle[p] < n);
        assert(depends(cycle[p - 1], cycle[p - 1 + 1]));
        lemma_dependency_earlier(depends, n, order, cycle[p - 1], cycle[p]);
    }
}

/// Dependencies that admit a linear order hold no cycle.
pub proof fn lemma_linear_order_acyclic(
    depends: spec_fn(usize, usize) -> bool,
    n: int,
    order: Seq<usize>,
)
    requires
        is_linear_order(depends, n, order),
    ensures
        !has_cycle(depends, n),
{
    assert forall|cycle: Seq<usize>| is_cycle(depends, n, cycle) implies false by {
        let last = cycle.len() - 1;
        lemma_cycle_descends(depends, n, order, cycle, last);
        assert(cycle[last] < n && cycle[0] < n);
        lemma_dependency_earlier(depends, n, order, cycle[last], cycle[0]);
    }
}

/// Two linear orders of the same dependencies agree on their first `p`
/// positions.
proof fn lemma_linear_orders_agree(
    depends: spec_fn(usize, usize) -> bool,
    n: int,
    a: Seq<usize>,
    b: Seq<usize>,
    p: int,
)
    requires
        is_linear_order(depends, n, a),
        is_linear_order(depends, n, b),
        0 <= p <= n,
    ensures
        a.take(p) == b.take(p),
    decreases p,
{
    if p == 0 {
        assert(a.take(0) =~= b.take(0));
    } else {
        lemma_linear_orders_agree(depends, n, a, b, p - 1);
        assert(is_first_ready(depends, n, a.take(p - 1), a[p - 1]));
        assert(is_first_ready(depends, n, b.take(p - 1), b[p - 1]));
        assert(a[p - 1] == b[p - 1]);
        assert(a.take(p) =~= a.take(p - 1).push(a[p - 1]));
        assert(b.take(p) =~= b.take(p - 1).push(b[p - 1]));
    }
}

/// The linear order of a graph is unique.
pub proof fn lemma_linear_order_unique(
    depends: spec_fn(usize, usize) -> bool,
    n: int,
    a: Seq<usize>,
    b: Seq<usize>,
)
    requires
        is_linear_order(depends, n, a),
        is_linear_order(depends, n, b),
    ensures
        a == b,
{
    lemma_linear_orders_agree(depends, n, a, b, n);
    assert(a.take(n as int) =~= a);
    assert(b.take(n as int) =~= b);
}

/// Whether node `i` is unmarked and every edge that leaves it leads to a
/// marked node.
spec fn is_unblocked(edges: Seq<(usize, usize)>, marked: Seq<bool>, i: usize) -> bool {
    &&& i < marked.len()
    &&& !marked[i as int]
    &&& forall|k: int|
        0 <= k < edges.len() && (#[trigger] edges[k]).0 == i ==> marked[edges[k].1 as int]
}

/// Whether `marked` flags exactly the nodes that stand in `done`.
spec fn marks(marked: Seq<bool>, done: Seq<usize>) -> bool {
    forall|i: usize| i < marked.len() ==> (#[trigger] marked[i as int] <==> done.contains(i))
}

/// With the placed nodes flagged in `marked`, a node can be placed next
/// exactly if it is unblocked.
proof fn lemma_unblocked_is_ready(
    edges: Seq<(usize, usize)>,
    marked: Seq<bool>,
    done: Seq<usize>,
    i: usize,
)
    requires
        marked.len() <= usize::MAX,
        edges_within(edges, marked.len() as int),
        marks(marked, done),
    ensures
        is_unblocked(edges, marked, i) <==> is_ready(
            edge_relation(edges),
            marked.len() as int,
            done,
            i,
        ),
{
    let n = marked.len() as int;
    let depends = edge_relation(edges);
    if is_unblocked(edges, marked, i) {
        assert(marked[i as int] <==> done.contains(i));
        assert forall|j: usize| j < n && #[trigger] depends(i, j) implies done.contains(j) by {
            let k = choose|k: int| 0 <= k < edges.len() && #[trigger] edges[k] == (i, j);
            assert(edges[k].0 == i);
            assert(marked[j as int] <==> done.contains(j));
        }
    }
    if is_ready(depends, n, done, i) {
        assert(marked[i as int] <==> done.contains(i));
        assert forall|k: int| 0 <= k < edges.len() && (#[trigger] edges[k]).0 == i implies marked[edges[k].1 as int] by {
            let j = edges[k].1;
            assert(edges[k] == (i, j));
            assert(depends(i, j));
            assert(marked[j as int] <==> done.contains(j));
        }
    }
}

/// The first edge that leaves `node` for an unmarked node, if there is one.
fn blocking_edge(edges: &Vec<(usize, usize)>, marked: &Vec<bool>, node: usize) -> (r: Option<usize>)
    requires
        edges_within(edges@, marked.len() as int),
    ensures
        match r {
            Some(k) => k < edges.len() && edges[k as int].0 == node && !marked[edges[k as int].1 as int],
            None => forall|k: int|
                0 <= k < edges.len() && (#[trigger] edges[k]).0 == node ==> marked[edges[k].1 as int],
        },
{
    let mut k: usize = 0;
    while k < edges.len()
        invariant
            k <= edges.len(),
            edges_within(edges@, marked.len() as int),
            forall|q: int| 0 <= q < k && (#[trigger] edges[q]).0 == node ==> marked[edges[q].1 as int],
        decreases edges.len() - k,
    {
        let edge = edges[k];
        if edge.0 == node && !marked[edge.1] {
            return Some(k);
        }
        k += 1;
    }
    None
}

/// The lowest-numbered unblocked node, if there is one.
fn first_unblocked(edges: &Vec<(usize, usize)>, marked: &Vec<bool>) -> (r: Option<usize>)
    requires
        edges_within(edges@, marked.len() as int),
    ensures
        match r {
            Some(i) => is_unblocked(edges@, marked@, i) && forall|j: usize|
                j < i ==> !is_unblocked(edges@, marked@, j),
            None => forall|j: usize| j < marked.len() ==> !is_unblocked(edges@, marked@, j),
        },
{
    let mut i: usize = 0;
    while i < marked.len()
        invariant
            i <= marked.len(),
            edges_within(edges@, marked.len() as int),
            forall|j: usize| j < i ==> !is_unblocked(edges@, marked@, j),
        decreases marked.len() - i,
    {
        if !marked[i] {
            match blocking_edge(edges, marked, i) {
                None => {
                    return Some(i);
                },
                Some(k) => {
                    assert(edges@[k as int].0 == i);
                },
            }
        }
        i += 1;
    }
    None
}

/// The lowest-numbered unmarked node, if there is one.
fn first_unmarked(marked: &Vec<bool>) -> (r: Option<usize>)
    ensures
        match r {
            Some(i) => i < marked.len() && !marked[i as int],
            None => forall|j: int| 0 <= j < marked.len() ==> marked[j],
        },
{
    let mut i: usize = 0;
    while i < marked.len()
        invariant
            i <= marked.len(),
            forall|j: int| 0 <= j < i ==> marked[j],
        decreases marked.len() - i,
    {
        if !marked[i] {
            return Some(i);
        }
        i += 1;
    }
    None
}

/// A cycle among the unmarked nodes, found by walking from `start` along
/// blocking edges until a node comes up for the second time. Every unmarked
/// node must be blocked for the walk to go on.
fn find_cycle(edges: &Vec<(usize, usize)>, marked: &Vec<bool>, start: usize) -> (cycle: Vec<usize>)
    requires
        edges_within(edges@, marked.len() as int),
        start < marked.len(),
        !marked[start as int],
        forall|j: usize| j < marked.len() ==> !is_unblocked(edges@, marked@, j),
    ensures
        is_cycle(edge_relation(edges@), marked.len() as int, cycle@),
        cycle@.no_duplicates(),
{
    let n = marked.len();
    let ghost depends = edge_relation(edges@);
    let mut place: Vec<Option<usize>> = Vec::new();
    while place.len() < n
        invariant
            place.len() <= n,
            forall|v: int| 0 <= v < place.len() ==> place[v] is None,
        decreases n - place.len(),
    {
        place.push(None);
    }
    let mut path: Vec<usize> = Vec::new();
    path.push(start);
    place.set(start, Some(0));
    let mut current = start;
    loop
        invariant
            n == marked.len() == place.len(),
            edges_within(edges@, n as int),
            depends == edge_relation(edges@),
            forall|j: usize| j < n ==> !is_unblocked(edges@, marked@, j),
            0 < path.len() <= n,
            current == path@.last(),
            forall|p: int|
                0 <= p < path.len() ==> (#[trigger] path[p]) < n && !marked[path[p] as int]
                    && place[path[p] as int] == Some(p as usize),
            forall|v: int|
                0 <= v < n ==> ((#[trigger] place[v]) matches Some(p) ==> p < path.len() && path[p as int]
                    == v),
            forall|p: int| 0 <= p < path.len() - 1 ==> depends(#[trigger] path[p], path[p + 1]),
        decreases n - path.len(),
    {
        match blocking_edge(edges, marked, current) {
            None => {
                assert(is_unblocked(edges@, marked@, current));
                return path;
            },
            Some(k) => {
                let next = edges[k].1;
                assert(edges@[k as int] == (current, next));
                assert(depends(current, next));
                match place[next] {
                    Some(from) => {
                        let mut cycle: Vec<usize> = Vec::new();
                        let mut q: usize = from;
                        while q < path.len()
                            invariant
                                from <= q <= path.len(),
                                cycle@ == path@.subrange(from as int, q as int),
                            decreases path.len() - q,
                        {
                            cycle.push(path[q]);
                            assert(path@.subrange(from as int, q + 1) =~= path@.subrange(
                                from as int,
                                q as int,
                            ).push(path@[q as int]));
                            q += 1;
                        }
                        proof {
                            assert forall|p: int| 0 <= p < cycle@.len() - 1 implies depends(
                                #[trigger] cycle@[p],
                                cycle@[p + 1],
                            ) by {
                                assert(cycle@[p] == path@[from + p]);
                                assert(cycle@[p + 1] == path@[from + p + 1]);
                            }
                            assert forall|p: int| 0 <= p < cycle@.len() implies #[trigger] cycle@[p]
                                < n by {
                                assert(cycle@[p] == path@[from + p]);
                            }
                            assert(cycle@[0] == path@[from as int]);
                            assert(cycle@.last() == path@.last());
                            assert forall|a: int, b: int|
                                0 <= a < cycle@.len() && 0 <= b < cycle@.len() && a != b implies cycle@[a]
                                != cycle@[b] by {
                                assert(place[path[from + a] as int] == Some((from + a) as usize));
                                assert(place[path[from + b] as int] == Some((from + b) as usize));
                            }
                        }
                        return cycle;
                    },
                    None => {
                        proof {
                            let longer = path@.push(next);
                            assert forall|a: int, b: int|
                                0 <= a < longer.len() && 0 <= b < longer.len() && a != b implies longer[a]
                                != longer[b] by {
                                if a < path.len() && b < path.len() {
                                    assert(place[path[a] as int] == Some(a as usize));
                                    assert(place[path[b] as int] == Some(b as usize));
                                } else if a < path.len() {
                                    assert(place[path[a] as int] == Some(a as usize));
                                } else {
                                    assert(place[path[b] as int] == Some(b as usize));
                                }
                            }
                            assert forall|p: int| 0 <= p < longer.len() implies #[trigger] longer[p]
                                < n by {
                                if p < path.len() {
                                    assert(path[p] < n);
                                }
                            }
                            lemma_distinct_bounded(longer, n);
                        }
                        place.set(next, Some(path.len()));
                        path.push(next);
                        current = next;
                    },
                }
            },
        }
    }
}

/// Order the nodes `0..n` so that each comes after all that it depends on.
///
/// Returns the linear order of the graph, or, if the dependencies hold a
/// cycle, the nodes of one cycle, each once, each depending on the next and
/// the last on the first.
pub fn linearize(n: usize, edges: &Vec<(usize, usize)>) -> (r: Result<Vec<usize>, Vec<usize>>)
    requires
        edges_within(edges@, n as int),
    ensures
        r is Ok <==> !has_cycle(edge_relation(edges@), n as int),
        match r {
            Ok(order) => is_linear_order(edge_relation(edges@), n as int, order@),
            Err(cycle) => is_cycle(edge_relation(edges@), n as int, cycle@) && cycle@.no_duplicates(),
        },
{
    let ghost depends = edge_relation(edges@);
    let mut marked: Vec<bool> = Vec::new();
    while marked.len() < n
        invariant
            marked.len() <= n,
            forall|v: int| 0 <= v < marked.len() ==> !marked[v],
        decreases n - marked.len(),
    {
        marked.push(false);
    }
    let mut order: Vec<usize> = Vec::new();
    loop
        invariant
            marked.len() == n,
            edges_within(edges@, n as int),
            depends == edge_relation(edges@),
            marks(marked@, order@),
            order.len() <= n,
            order@.no_duplicates(),
            forall|p: int| 0 <= p < order.len() ==> (#[trigger] order[p]) < n,
            forall|p: int|
                0 <= p < order.len() ==> is_first_ready(
                    depends,
                    n as int,
                    order@.take(p),
                    #[trigger] order[p],
                ),
        decreases n - order.len(),
    {
        match first_unblocked(edges, &marked) {
            Some(i) => {
                let ghost before = order@;
                let ghost flags = marked@;
                proof {
                    assert forall|j: usize| j <= i implies (is_unblocked(edges@, flags, j)
                        <==> is_ready(depends, n as int, before, j)) by {
                        lemma_unblocked_is_ready(edges@, flags, before, j);
                    }
                    assert(is_first_ready(depends, n as int, before, i));
                }
                marked.set(i, true);
                order.push(i);
                proof {
                    let after = order@;
                    assert(after.take(before.len() as int) =~= before);
                    assert forall|p: int| 0 <= p < after.len() implies is_first_ready(
                        depends,
                        n as int,
                        after.take(p),
                        #[trigger] after[p],
                    ) by {
                        if p < before.len() {
                            assert(after.take(p) =~= before.take(p));
                            assert(after[p] == before[p]);
                        }
                    }
                    assert forall|v: usize| v < n implies (#[trigger] marked@[v as int]
                        <==> after.contains(v)) by {
                        assert(flags[v as int] <==> before.contains(v));
                        if v == i {
                            assert(after[before.len() as int] == v);
                        } else if before.contains(v) {
                            let q = choose|q: int| 0 <= q < before.len() && before[q] == v;
                            assert(after[q] == v);
                        } else if after.contains(v) {
                            let q = choose|q: int| 0 <= q < after.len() && after[q] == v;
                            assert(before[q] == v);
                        }
                    }
                    assert forall|a: int, b: int|
                        0 <= a < after.len() && 0 <= b < after.len() && a != b implies after[a]
                        != after[b] by {
                        if a < before.len() && b < before.len() {
                            assert(before[a] != before[b]);
                        } else if a < before.len() {
                            assert(before[a] == after[a]);
                        } else {
                            assert(before[b] == after[b]);
                        }
                    }
                    lemma_distinct_bounded(after, n);
                }
            },
            None => {
                match first_unmarked(&marked) {
                    Some(start) => {
                        let cycle = find_cycle(edges, &marked, start);
                        return Err(cycle);
                    },
                    None => {
                        proof {
                            assert forall|v: usize| v < n implies order@.contains(v) by {
                                assert(marked@[v as int] <==> order@.contains(v));
                            }
                            lemma_covering_long(order@, n);
                            lemma_linear_order_acyclic(depends, n as int, order@);
                        }
                        return Ok(order);
                    },
                }
            },
        }
    }
}

} // verus!
