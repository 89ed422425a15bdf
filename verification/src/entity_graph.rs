//! The graph of the SQL entities of an extension.
//!
//! The graph holds entities with distinct identities. An entity may be
//! inserted before the entities that it depends on: whether every
//! dependency is there, and whether the dependencies hold a cycle, is
//! looked into when the graph is put in order.
//!
//! The order in which the graph renders is fixed by the graph: at each
//! position stands the entity that was inserted first among those that
//! have not been rendered yet and whose dependencies have all been
//! rendered.

use vstd::prelude::*;
use vstd::string::*;
use crate::entity::SqlGraphEntity;
use crate::linearize::{
    edge_relation,
    edges_within,
    has_cycle,
    is_cycle,
    is_linear_order,
    lemma_dependency_earlier,
    lemma_linear_order_acyclic,
    lemma_linear_order_unique,
    linearize,
    position,
};
use crate::text::{str_eq, texts};

verus! {

/// Why a graph cannot take an entity, or cannot be put in order.
#[derive(Debug, Clone)]
pub enum GraphError {
    /// The graph already holds an entity with this identity.
    DuplicateIdentity { identity: String },
    /// The entity `node` depends on `dependency`, which the graph does not
    /// hold.
    MissingDependency { node: String, dependency: String },
    /// The entities with these identities, each listed once, depend on
    /// each other in a cycle: each on the next, and the last on the first.
    CyclicDependency { identities: Vec<String> },
}

/// The entities of an extension, in the order in which they were
/// inserted.
#[derive(Debug)]
pub struct EntityGraph {
    nodes: Vec<SqlGraphEntity>,
}

/// Whether one of `nodes` has the identity `identity`.
pub open spec fn has_identity(nodes: Seq<SqlGraphEntity>, identity: Seq<char>) -> bool {
    exists|i: int| 0 <= i < nodes.len() && (#[trigger] nodes[i]).identity() == identity
}

/// Whether no two of `nodes` have the same identity.
pub open spec fn distinct_identities(nodes: Seq<SqlGraphEntity>) -> bool {
    forall|i: int, j: int|
        0 <= i < j < nodes.len() ==> (#[trigger] nodes[i]).identity() != (#[trigger] nodes[j]).identity()
}

/// The first of `nodes` that has the identity `identity`.
pub open spec fn find_node(nodes: Seq<SqlGraphEntity>, identity: Seq<char>) -> Option<
    SqlGraphEntity,
>
    decreases nodes.len(),
{
    if nodes.len() == 0 {
        None
    } else if nodes[0].identity() == identity {
        Some(nodes[0])
    } else {
        find_node(nodes.drop_first(), identity)
    }
}

/// What inserting `node` into `nodes` gives: the entities with `node` after
/// them, or, if one of them has the identity of `node`, that identity.
pub open spec fn insertion(nodes: Seq<SqlGraphEntity>, node: SqlGraphEntity) -> Result<
    Seq<SqlGraphEntity>,
    Seq<char>,
> {
    if has_identity(nodes, node.identity()) {
        Err(node.identity())
    } else {
        Ok(nodes.push(node))
    }
}

/// The relation "entity `i` names the identity of entity `j` among its
/// dependencies".
pub open spec fn node_depends(nodes: Seq<SqlGraphEntity>) -> spec_fn(usize, usize) -> bool {
    |i: usize, j: usize|
        i < nodes.len() && j < nodes.len() && nodes[i as int].dependencies().contains(
            nodes[j as int].identity(),
        )
}

/// Whether the dependency at position `d` of entity `i` is the identity of
/// no entity.
pub open spec fn is_missing(nodes: Seq<SqlGraphEntity>, i: int, d: int) -> bool {
    &&& 0 <= i < nodes.len()
    &&& 0 <= d < nodes[i].dependencies().len()
    &&& !has_identity(nodes, nodes[i].dependencies()[d])
}

/// Whether `(i, d)` is the first missing dependency: of the first entity
/// that has one, the first one.
pub open spec fn is_first_missing(nodes: Seq<SqlGraphEntity>, i: int, d: int) -> bool {
    &&& is_missing(nodes, i, d)
    &&& forall|a: int, b: int| (a < i || (a == i && b < d)) ==> !#[trigger] is_missing(nodes, a, b)
}

/// Whether every dependency of every entity is the identity of an entity.
pub open spec fn dependencies_closed(nodes: Seq<SqlGraphEntity>) -> bool {
    forall|i: int, d: int| !#[trigger] is_missing(nodes, i, d)
}

/// The identities of the entities at the positions `positions`.
pub open spec fn identities_at(nodes: Seq<SqlGraphEntity>, positions: Seq<usize>) -> Seq<
    Seq<char>,
> {
    positions.map_values(|i: usize| nodes[i as int].identity())
}

/// The SQL of the entities at the positions `positions`.
pub open spec fn sql_at(nodes: Seq<SqlGraphEntity>, positions: Seq<usize>) -> Seq<Seq<char>> {
    positions.map_values(|i: usize| nodes[i as int].sql())
}

/// Whether `order` is the order in which `nodes` render: every position
/// once, and at each place the lowest position that has not been placed
/// yet and that depends only on positions placed before.
pub open spec fn is_emission_order(nodes: Seq<SqlGraphEntity>, order: Seq<usize>) -> bool {
    is_linear_order(node_depends(nodes), nodes.len() as int, order)
}

/// The order in which `nodes` render, where there is one.
pub open spec fn emission_order(nodes: Seq<SqlGraphEntity>) -> Seq<usize> {
    choose|order: Seq<usize>| is_emission_order(nodes, order)
}

/// Whether `error` says why `nodes` cannot be put in order: the first
/// missing dependency if there is one, and else a cycle.
pub open spec fn is_ordering_error(nodes: Seq<SqlGraphEntity>, error: GraphError) -> bool {
    match error {
        GraphError::MissingDependency { node, dependency } => exists|i: int, d: int|
            #[trigger] is_first_missing(nodes, i, d) && node@ == nodes[i].identity() && dependency@
                == nodes[i].dependencies()[d],
        GraphError::CyclicDependency { identities } => dependencies_closed(nodes) && exists|
            cycle: Seq<usize>,
        |
            #[trigger] is_cycle(node_depends(nodes), nodes.len() as int, cycle)
                && cycle.no_duplicates() && texts(identities@) == identities_at(nodes, cycle),
        GraphError::DuplicateIdentity { .. } => false,
    }
}

/// Whether `nodes` can be put in order: every dependency is there, and
/// the dependencies hold no cycle.
pub open spec fn can_be_ordered(nodes: Seq<SqlGraphEntity>) -> bool {
    dependencies_closed(nodes) && !has_cycle(node_depends(nodes), nodes.len() as int)
}

/// `find_node` finds a node exactly if one has the identity, and the node
/// that it finds has it.
pub proof fn lemma_find_node(nodes: Seq<SqlGraphEntity>, identity: Seq<char>)
    ensures
        find_node(nodes, identity) is Some <==> has_identity(nodes, identity),
        find_node(nodes, identity) matches Some(node) ==> node.identity() == identity
            && nodes.contains(node),
    decreases nodes.len(),
{
    if nodes.len() > 0 {
        if nodes[0].identity() == identity {
            assert(nodes[0].identity() == identity);
        } else {
            let rest = nodes.drop_first();
            lemma_find_node(rest, identity);
            if has_identity(nodes, identity) {
                let i = choose|i: int| 0 <= i < nodes.len() && (#[trigger] nodes[i]).identity() == identity;
                assert(rest[i - 1].identity() == identity);
            }
            if has_identity(rest, identity) {
                let i = choose|i: int| 0 <= i < rest.len() && (#[trigger] rest[i]).identity() == identity;
                assert(nodes[i + 1].identity() == identity);
            }
            if find_node(rest, identity) is Some {
                let node = find_node(rest, identity)->0;
                let i = choose|i: int| 0 <= i < rest.len() && rest[i] == node;
                assert(nodes[i + 1] == node);
            }
        }
    }
}

/// Among entities with distinct identities, the one that `find_node`
/// finds is the only one with the identity.
pub proof fn lemma_find_node_unique(nodes: Seq<SqlGraphEntity>, i: int)
    requires
        distinct_identities(nodes),
        0 <= i < nodes.len(),
    ensures
        find_node(nodes, nodes[i].identity()) == Some(nodes[i]),
    decreases i,
{
    if i > 0 {
        let rest = nodes.drop_first();
        assert(nodes[0].identity() != nodes[i].identity());
        assert forall|a: int, b: int| 0 <= a < b < rest.len() implies (#[trigger] rest[a]).identity()
            != (#[trigger] rest[b]).identity() by {
            assert(rest[a] == nodes[a + 1] && rest[b] == nodes[b + 1]);
        }
        assert(rest[i - 1] == nodes[i]);
        lemma_find_node_unique(rest, i - 1);
    }
}

/// Where `order` is the order in which `nodes` render and entity `i` names
/// the identity of entity `j` among its dependencies, `j` stands before `i`
/// in `order`.
pub proof fn lemma_emission_respects_dependencies(
    nodes: Seq<SqlGraphEntity>,
    order: Seq<usize>,
    i: usize,
    j: usize,
)
    requires
        is_emission_order(nodes, order),
        i < nodes.len(),
        j < nodes.len(),
        nodes[i as int].dependencies().contains(nodes[j as int].identity()),
    ensures
        exists|p: int, q: int| 0 <= q < p < order.len() && order[p] == i && order[q] == j,
{
    let depends = node_depends(nodes);
    assert(depends(i, j));
    lemma_dependency_earlier(depends, nodes.len() as int, order, i, j);
    let p = position(order, i);
    let q = position(order, j);
    assert(0 <= q < p < order.len() && order[p] == i && order[q] == j);
}

/// Entities that can be put in order hold no cycle of dependencies, and
/// entities whose dependencies hold a cycle cannot be put in order.
pub proof fn lemma_cycle_prevents_order(nodes: Seq<SqlGraphEntity>, cycle: Seq<usize>)
    requires
        is_cycle(node_depends(nodes), nodes.len() as int, cycle),
    ensures
        !can_be_ordered(nodes),
        forall|order: Seq<usize>| !is_emission_order(nodes, order),
{
    assert forall|order: Seq<usize>| !is_emission_order(nodes, order) by {
        if is_emission_order(nodes, order) {
            lemma_linear_order_acyclic(node_depends(nodes), nodes.len() as int, order);
        }
    }
}

/// Inserting an entity and then another one with the same identity: the
/// first insertion succeeds if the identity is new, the second one fails
/// with that identity, and the entity that was inserted first is the one
/// that the identity finds.
pub proof fn lemma_second_insertion_fails(
    nodes: Seq<SqlGraphEntity>,
    first: SqlGraphEntity,
    second: SqlGraphEntity,
)
    requires
        distinct_identities(nodes),
        !has_identity(nodes, first.identity()),
        second.identity() == first.identity(),
    ensures
        insertion(nodes, first) == Ok::<Seq<SqlGraphEntity>, Seq<char>>(nodes.push(first)),
        distinct_identities(nodes.push(first)),
        insertion(nodes.push(first), second) == Err::<Seq<SqlGraphEntity>, Seq<char>>(
            first.identity(),
        ),
        find_node(nodes.push(first), first.identity()) == Some(first),
{
    let grown = nodes.push(first);
    assert(grown[nodes.len() as int].identity() == second.identity());
    assert forall|a: int, b: int| 0 <= a < b < grown.len() implies (#[trigger] grown[a]).identity()
        != (#[trigger] grown[b]).identity() by {
        if b < nodes.len() {
            assert(grown[a] == nodes[a] && grown[b] == nodes[b]);
        } else {
            assert(grown[a] == nodes[a]);
        }
    }
    lemma_find_node_unique(grown, nodes.len() as int);
}

impl View for EntityGraph {
    type V = Seq<SqlGraphEntity>;

    /// The entities of the graph, in the order in which they were inserted.
    closed spec fn view(&self) -> Seq<SqlGraphEntity> {
        self.nodes@
    }
}

impl EntityGraph {
    #[verifier::type_invariant]
    spec fn well_formed(&self) -> bool {
        distinct_identities(self.nodes@)
    }

    /// A graph without entities.
    pub fn new() -> (graph: EntityGraph)
        ensures
            graph@ == Seq::<SqlGraphEntity>::empty(),
    {
        EntityGraph { nodes: Vec::new() }
    }

    /// The number of entities.
    pub fn len(&self) -> (n: usize)
        ensures
            n == self@.len(),
    {
        self.nodes.len()
    }

    /// The entities, in the order in which they were inserted. No two of
    /// them have the same identity.
    pub fn nodes(&self) -> (nodes: &Vec<SqlGraphEntity>)
        ensures
            nodes@ == self@,
            distinct_identities(nodes@),
    {
        proof {
            use_type_invariant(self);
        }
        &self.nodes
    }

    /// The position of the entity with the identity `identity`.
    fn position_of(&self, identity: &str) -> (r: Option<usize>)
        ensures
            match r {
                Some(i) => i < self@.len() && self@[i as int].identity() == identity@
                    && find_node(self@, identity@) == Some(self@[i as int]),
                None => !has_identity(self@, identity@) && find_node(self@, identity@) is None,
            },
    {
        let mut i: usize = 0;
        assert(self.nodes@.skip(0) =~= self.nodes@);
        while i < self.nodes.len()
            invariant
                i <= self.nodes.len(),
                find_node(self.nodes@, identity@) == find_node(self.nodes@.skip(i as int), identity@),
            decreases self.nodes.len() - i,
        {
            let ghost rest = self.nodes@.skip(i as int);
            assert(rest[0] == self.nodes@[i as int]);
            assert(rest.drop_first() =~= self.nodes@.skip(i + 1));
            if str_eq(self.nodes[i].dot_identifier().as_str(), identity) {
                return Some(i);
            }
            i += 1;
        }
        proof {
            lemma_find_node(self.nodes@, identity@);
        }
        None
    }

    /// Add `node` to the graph.
    ///
    /// Fails with `DuplicateIdentity`, and leaves the graph as it is, if
    /// the graph holds an entity with the identity of `node`.
    pub fn insert(&mut self, node: SqlGraphEntity) -> (r: Result<(), GraphError>)
        ensures
            match insertion(old(self)@, node) {
                Ok(nodes) => r is Ok && final(self)@ == nodes,
                Err(taken) => {
                    &&& final(self)@ == old(self)@
                    &&& r matches Err(GraphError::DuplicateIdentity { identity })
                    &&& identity@ == taken
                },
            },
    {
        proof {
            use_type_invariant(&*self);
        }
        let identity = node.dot_identifier();
        match self.position_of(identity.as_str()) {
            Some(_) => Err(GraphError::DuplicateIdentity { identity }),
            None => {
                proof {
                    let grown = self.nodes@.push(node);
                    assert forall|a: int, b: int| 0 <= a < b < grown.len() implies (
                    #[trigger] grown[a]).identity() != (#[trigger] grown[b]).identity() by {
                        if b < self.nodes@.len() {
                            assert(grown[a] == self.nodes@[a] && grown[b] == self.nodes@[b]);
                        } else {
                            assert(grown[a] == self.nodes@[a]);
                        }
                    }
                }
                // The entities are taken out while `node` joins them, so that
                // the graph holds distinct identities at every moment.
                let mut nodes: Vec<SqlGraphEntity> = Vec::new();
                std::mem::swap(&mut self.nodes, &mut nodes);
                nodes.push(node);
                std::mem::swap(&mut self.nodes, &mut nodes);
                Ok(())
            },
        }
    }

    /// The entity with the identity `identity`, if the graph holds one.
    pub fn lookup(&self, identity: &str) -> (r: Option<&SqlGraphEntity>)
        ensures
            match r {
                Some(node) => find_node(self@, identity@) == Some(*node),
                None => find_node(self@, identity@) is None,
            },
    {
        match self.position_of(identity) {
            Some(i) => Some(&self.nodes[i]),
            None => None,
        }
    }
}

/// Whether an edge of `edges` leads from entity `i` to the entity that
/// the dependency at position `d` of entity `i` names.
spec fn is_resolved(nodes: Seq<SqlGraphEntity>, edges: Seq<(usize, usize)>, i: int, d: int) -> bool {
    exists|k: int|
        0 <= k < edges.len() && (#[trigger] edges[k]).0 == i && edges[k].1 < nodes.len()
            && nodes[edges[k].1 as int].identity() == nodes[i].dependencies()[d]
}

/// Whether the dependencies of the entities before `i`, and the first `d`
/// dependencies of entity `i`, are all there and all stand in `edges`, and
/// `edges` holds nothing else.
spec fn is_resolved_up_to(
    nodes: Seq<SqlGraphEntity>,
    edges: Seq<(usize, usize)>,
    i: int,
    d: int,
) -> bool {
    &&& forall|k: int|
        0 <= k < edges.len() ==> node_depends(nodes)((#[trigger] edges[k]).0, edges[k].1)
    &&& forall|a: int, b: int|
        0 <= a < nodes.len() && 0 <= b < nodes[a].dependencies().len() && (a < i || (a == i && b < d))
            ==> #[trigger] is_resolved(nodes, edges, a, b) && !is_missing(nodes, a, b)
}

/// One more edge keeps what was resolved, and resolves the dependency
/// that it stands for.
proof fn lemma_resolve_next(
    nodes: Seq<SqlGraphEntity>,
    edges: Seq<(usize, usize)>,
    i: usize,
    d: int,
    j: usize,
)
    requires
        is_resolved_up_to(nodes, edges, i as int, d),
        i < nodes.len(),
        j < nodes.len(),
        0 <= d < nodes[i as int].dependencies().len(),
        nodes[j as int].identity() == nodes[i as int].dependencies()[d],
    ensures
        is_resolved_up_to(nodes, edges.push((i, j)), i as int, d + 1),
{
    let grown = edges.push((i, j));
    assert(nodes[i as int].dependencies().contains(nodes[j as int].identity()));
    assert forall|k: int| 0 <= k < grown.len() implies node_depends(nodes)(
        (#[trigger] grown[k]).0,
        grown[k].1,
    ) by {
        if k < edges.len() {
            assert(grown[k] == edges[k]);
        }
    }
    assert forall|a: int, b: int|
        0 <= a < nodes.len() && 0 <= b < nodes[a].dependencies().len() && (a < i || (a == i && b < d
            + 1)) implies #[trigger] is_resolved(nodes, grown, a, b) && !is_missing(nodes, a, b) by {
        if a == i && b == d {
            assert(grown[edges.len() as int] == (i, j));
            assert(nodes[j as int].identity() == nodes[a].dependencies()[b]);
        } else {
            assert(is_resolved(nodes, edges, a, b));
            let k = choose|k: int|
                0 <= k < edges.len() && (#[trigger] edges[k]).0 == a && edges[k].1 < nodes.len()
                    && nodes[edges[k].1 as int].identity() == nodes[a].dependencies()[b];
            assert(grown[k] == edges[k]);
        }
    }
}

/// Edges that resolve every dependency stand for the dependencies among
/// the entities.
proof fn lemma_resolved_relation(nodes: Seq<SqlGraphEntity>, edges: Seq<(usize, usize)>)
    requires
        distinct_identities(nodes),
        is_resolved_up_to(nodes, edges, nodes.len() as int, 0),
    ensures
        dependencies_closed(nodes),
        edges_within(edges, nodes.len() as int),
        edge_relation(edges) == node_depends(nodes),
{
    assert forall|i: int, d: int| !#[trigger] is_missing(nodes, i, d) by {
        if 0 <= i < nodes.len() && 0 <= d < nodes[i].dependencies().len() {
            assert(is_resolved(nodes, edges, i, d));
        }
    }
    assert forall|k: int| 0 <= k < edges.len() implies (#[trigger] edges[k]).0 < nodes.len()
        && edges[k].1 < nodes.len() by {
        assert(node_depends(nodes)(edges[k].0, edges[k].1));
    }
    let by_edges = edge_relation(edges);
    let by_names = node_depends(nodes);
    assert forall|x: usize, y: usize| #[trigger] by_edges(x, y) == by_names(x, y) by {
        if edge_relation(edges)(x, y) {
            let k = choose|k: int| 0 <= k < edges.len() && #[trigger] edges[k] == (x, y);
            assert(node_depends(nodes)(edges[k].0, edges[k].1));
        }
        if node_depends(nodes)(x, y) {
            let wanted = nodes[y as int].identity();
            let dependencies = nodes[x as int].dependencies();
            let d = choose|d: int| 0 <= d < dependencies.len() && dependencies[d] == wanted;
            assert(is_resolved(nodes, edges, x as int, d));
            let k = choose|k: int|
                0 <= k < edges.len() && (#[trigger] edges[k]).0 == x && edges[k].1 < nodes.len()
                    && nodes[edges[k].1 as int].identity() == nodes[x as int].dependencies()[d];
            let found = edges[k].1;
            if found < y {
                assert(nodes[found as int].identity() != nodes[y as int].identity());
            } else if y < found {
                assert(nodes[y as int].identity() != nodes[found as int].identity());
            }
            assert(edges[k] == (x, y));
        }
    }
    assert(by_edges =~= by_names);
}

impl EntityGraph {
    /// The dependencies of the entities as edges between their positions,
    /// or the first dependency that is the identity of no entity.
    fn resolve(&self) -> (r: Result<Vec<(usize, usize)>, GraphError>)
        ensures
            match r {
                Ok(edges) => dependencies_closed(self@) && edges_within(
                    edges@,
                    self@.len() as int,
                ) && edge_relation(edges@) == node_depends(self@),
                Err(e) => !dependencies_closed(self@) && e is MissingDependency && is_ordering_error(
                    self@,
                    e,
                ),
            },
    {
        proof {
            use_type_invariant(self);
        }
        let n = self.nodes.len();
        let mut edges: Vec<(usize, usize)> = Vec::new();
        let mut i: usize = 0;
        while i < n
            invariant
                i <= n == self.nodes.len(),
                is_resolved_up_to(self.nodes@, edges@, i as int, 0),
            decreases n - i,
        {
            let dependencies = self.nodes[i].dependency_identifiers();
            let mut d: usize = 0;
            while d < dependencies.len()
                invariant
                    i < n == self.nodes.len(),
                    d <= dependencies.len(),
                    texts(dependencies@) == self.nodes@[i as int].dependencies(),
                    is_resolved_up_to(self.nodes@, edges@, i as int, d as int),
                decreases dependencies.len() - d,
            {
                assert(texts(dependencies@)[d as int] == dependencies@[d as int]@);
                match self.position_of(dependencies[d].as_str()) {
                    Some(j) => {
                        proof {
                            lemma_resolve_next(self.nodes@, edges@, i, d as int, j);
                        }
                        edges.push((i, j));
                    },
                    None => {
                        let node = self.nodes[i].dot_identifier();
                        let dependency = dependencies[d].clone();
                        proof {
                            assert(is_missing(self.nodes@, i as int, d as int));
                            assert forall|a: int, b: int|
                                (a < i || (a == i && b < d)) implies !#[trigger] is_missing(
                                self.nodes@,
                                a,
                                b,
                            ) by {
                                if 0 <= a < self.nodes@.len() && 0 <= b
                                    < self.nodes@[a].dependencies().len() {
                                    assert(is_resolved(self.nodes@, edges@, a, b));
                                }
                            }
                            assert(is_first_missing(self.nodes@, i as int, d as int));
                        }
                        return Err(GraphError::MissingDependency { node, dependency });
                    },
                }
                d += 1;
            }
            i += 1;
        }
        proof {
            lemma_resolved_relation(self.nodes@, edges@);
        }
        Ok(edges)
    }

    /// The identities of the entities at the positions `positions`.
    fn identifiers_at(&self, positions: &Vec<usize>) -> (r: Vec<String>)
        requires
            forall|p: int| 0 <= p < positions.len() ==> (#[trigger] positions[p]) < self@.len(),
        ensures
            texts(r@) == identities_at(self@, positions@),
    {
        let mut r: Vec<String> = Vec::new();
        let mut p: usize = 0;
        while p < positions.len()
            invariant
                p <= positions.len(),
                r.len() == p,
                forall|q: int| 0 <= q < positions.len() ==> (#[trigger] positions[q]) < self.nodes@.len(),
                forall|q: int| 0 <= q < p ==> (#[trigger] r[q])@ == self.nodes@[positions[q] as int].identity(),
            decreases positions.len() - p,
        {
            r.push(self.nodes[positions[p]].dot_identifier());
            p += 1;
        }
        assert(texts(r@) =~= identities_at(self.nodes@, positions@));
        r
    }

    /// The order in which the entities render, as positions among
    /// [`Self::nodes`]: each entity after all that it depends on, and of
    /// the entities that could stand at a place the one inserted first.
    ///
    /// Fails with `MissingDependency` for the first dependency that is the
    /// identity of no entity, and else with `CyclicDependency`, which
    /// lists the entities of one cycle, if the dependencies hold a cycle.
    pub fn linearize(&self) -> (r: Result<Vec<usize>, GraphError>)
        ensures
            r is Ok <==> can_be_ordered(self@),
            !dependencies_closed(self@) <==> r matches Err(GraphError::MissingDependency { .. }),
            match r {
                Ok(order) => is_emission_order(self@, order@) && order@ == emission_order(self@),
                Err(e) => is_ordering_error(self@, e),
            },
    {
        let edges = match self.resolve() {
            Ok(edges) => edges,
            Err(e) => {
                return Err(e);
            },
        };
        match linearize(self.nodes.len(), &edges) {
            Ok(order) => {
                proof {
                    assert(is_emission_order(self@, order@));
                    lemma_linear_order_unique(
                        node_depends(self@),
                        self@.len() as int,
                        order@,
                        emission_order(self@),
                    );
                }
                Ok(order)
            },
            Err(cycle) => {
                let identities = self.identifiers_at(&cycle);
                Err(GraphError::CyclicDependency { identities })
            },
        }
    }

    /// The SQL of the extension: the SQL of each entity, in the order that
    /// [`Self::linearize`] gives. Fails as `linearize` does.
    pub fn to_sql(&self) -> (r: Result<Vec<String>, GraphError>)
        ensures
            r is Ok <==> can_be_ordered(self@),
            !dependencies_closed(self@) <==> r matches Err(GraphError::MissingDependency { .. }),
            match r {
                Ok(statements) => texts(statements@) == sql_at(self@, emission_order(self@)),
                Err(e) => is_ordering_error(self@, e),
            },
    {
        let order = match self.linearize() {
            Ok(order) => order,
            Err(e) => {
                return Err(e);
            },
        };
        let mut statements: Vec<String> = Vec::new();
        let mut p: usize = 0;
        while p < order.len()
            invariant
                p <= order.len(),
                statements.len() == p,
                is_emission_order(self.nodes@, order@),
                forall|q: int| 0 <= q < p ==> (#[trigger] statements[q])@ == self.nodes@[order[q] as int].sql(),
            decreases order.len() - p,
        {
            assert(crate::linearize::is_first_ready(
                node_depends(self.nodes@),
                self.nodes@.len() as int,
                order@.take(p as int),
                order@[p as int],
            ));
            statements.push(self.nodes[order[p]].to_sql());
            p += 1;
        }
        assert(texts(statements@) =~= sql_at(self.nodes@, order@));
        Ok(statements)
    }
}

} // verus!
