//! The topology of the authoring graph. petgraph's `StableGraph` keeps the
//! nodes and edges and walks them; this module names what such a graph holds
//! and gives each call the library makes a contract.

use vstd::prelude::*;
use petgraph::visit::EdgeRef;
use petgraph::visit::Walker;

verus! {

/// petgraph's marker for graphs whose edges have a direction.
#[verifier::external_type_specification]
#[verifier::external_body]
pub struct ExDirected(petgraph::Directed);

/// petgraph's graph with stable indices.
#[verifier::external_type_specification]
#[verifier::external_body]
#[verifier::reject_recursive_types(N)]
#[verifier::reject_recursive_types(E)]
#[verifier::reject_recursive_types(Ty)]
#[verifier::reject_recursive_types(Ix)]
pub struct ExStableGraph<N, E, Ty, Ix>(petgraph::stable_graph::StableGraph<N, E, Ty, Ix>);

/// A directed graph without weights: which nodes there are, and which edges
/// run between them. What belongs to a node or an edge is kept beside it,
/// under the node's or the edge's index.
pub type Topology = petgraph::stable_graph::StableGraph<(), (), petgraph::Directed, u16>;

/// The most nodes, and the most edges, that a graph can hold.
pub const GRAPH_LIMIT: usize = 65535;

/// The indices of the nodes of the graph.
pub uninterp spec fn graph_nodes(g: Topology) -> Set<int>;

/// For the index of each edge of the graph, its source and its target.
pub uninterp spec fn graph_edges(g: Topology) -> Map<int, (int, int)>;

/// For each node the edges that end at it, in the order in which the graph
/// lists them.
pub uninterp spec fn graph_incoming(g: Topology) -> Map<int, Seq<int>>;

/// For each node the edges that start at it, in the order in which the graph
/// lists them.
pub uninterp spec fn graph_outgoing(g: Topology) -> Map<int, Seq<int>>;

/// How many node indices the graph has had in use so far. A new node gets an
/// index below this number that has become free, or this number itself.
pub uninterp spec fn graph_node_slots(g: Topology) -> nat;

/// How many edge indices the graph has had in use so far. A new edge gets an
/// index below this number that has become free, or this number itself.
pub uninterp spec fn graph_edge_slots(g: Topology) -> nat;

/// The nodes in the order in which a breadth-first search from `start` visits
/// them, in a graph that holds what `v` says. The order is a function of the
/// nodes, the edges and the order in which each node lists its edges.
pub uninterp spec fn bfs_walk(v: GraphView, start: int) -> Seq<int>;

/// The nodes in the order in which a topological walk visits them, over the
/// part of the graph whose nodes are marked in `mask`.
pub uninterp spec fn topo_walk(v: GraphView, mask: Seq<bool>) -> Seq<int>;

/// The nodes in the order in which a topological walk visits them when it
/// starts at those of `initials` that no edge ends at.
pub uninterp spec fn topo_walk_from(v: GraphView, initials: Seq<u16>) -> Seq<int>;

/// What a graph holds.
pub struct GraphView {
    pub nodes: Set<int>,
    pub edges: Map<int, (int, int)>,
    pub incoming: Map<int, Seq<int>>,
    pub outgoing: Map<int, Seq<int>>,
    pub node_slots: nat,
    pub edge_slots: nat,
}

/// What the graph holds.
pub open spec fn topology_view(g: Topology) -> GraphView {
    GraphView {
        nodes: graph_nodes(g),
        edges: graph_edges(g),
        incoming: graph_incoming(g),
        outgoing: graph_outgoing(g),
        node_slots: graph_node_slots(g),
        edge_slots: graph_edge_slots(g),
    }
}

/// The numbers of a sequence of indices.
pub open spec fn index_numbers(indices: Seq<u16>) -> Seq<int> {
    Seq::new(indices.len(), |i: int| indices[i] as int)
}

impl GraphView {
    /// The graph without nodes.
    pub open spec fn empty() -> GraphView {
        GraphView {
            nodes: Set::empty(),
            edges: Map::empty(),
            incoming: Map::empty(),
            outgoing: Map::empty(),
            node_slots: 0,
            edge_slots: 0,
        }
    }

    /// Indices fit their type, every edge runs between two nodes, and every
    /// node lists the edges that end at it, and those that start at it, each
    /// once.
    pub open spec fn wf(self) -> bool {
        &&& self.nodes.finite()
        &&& self.edges.dom().finite()
        &&& forall|n: int| self.nodes.contains(n) ==> 0 <= n < GRAPH_LIMIT
        &&& forall|e: int| self.edges.contains_key(e) ==> 0 <= e < GRAPH_LIMIT
        &&& forall|e: int| #[trigger]
            self.edges.contains_key(e) ==> self.nodes.contains(self.edges[e].0)
                && self.nodes.contains(self.edges[e].1)
        &&& self.incoming.dom() == self.nodes
        &&& self.outgoing.dom() == self.nodes
        &&& forall|n: int, k: int|
            self.nodes.contains(n) && 0 <= k < self.incoming[n].len() ==> self.edges.contains_key(
                #[trigger] self.incoming[n][k],
            ) && self.edges[self.incoming[n][k]].1 == n
        &&& forall|n: int, k: int|
            self.nodes.contains(n) && 0 <= k < self.outgoing[n].len() ==> self.edges.contains_key(
                #[trigger] self.outgoing[n][k],
            ) && self.edges[self.outgoing[n][k]].0 == n
        &&& self.lists_complete()
    }

    /// Every edge is listed at the node where it ends and at the node where
    /// it starts, and no list holds an edge twice.
    pub open spec fn lists_complete(self) -> bool {
        &&& forall|e: int| #[trigger]
            self.edges.contains_key(e) ==> self.incoming[self.edges[e].1].contains(e)
                && self.outgoing[self.edges[e].0].contains(e)
        &&& forall|n: int|
            self.nodes.contains(n) ==> (#[trigger] self.incoming[n]).no_duplicates()
        &&& forall|n: int|
            self.nodes.contains(n) ==> (#[trigger] self.outgoing[n]).no_duplicates()
    }

    /// The graph with one more node, which no edge touches.
    pub open spec fn with_node(self, n: int) -> GraphView {
        GraphView {
            nodes: self.nodes.insert(n),
            edges: self.edges,
            incoming: self.incoming.insert(n, Seq::empty()),
            outgoing: self.outgoing.insert(n, Seq::empty()),
            node_slots: if n >= self.node_slots {
                (n + 1) as nat
            } else {
                self.node_slots
            },
            edge_slots: self.edge_slots,
        }
    }

    /// The graph with one more edge from `a` to `b`. The new edge comes first
    /// among the edges that start at `a`, and first among those that end at `b`.
    pub open spec fn with_edge(self, e: int, a: int, b: int) -> GraphView {
        GraphView {
            nodes: self.nodes,
            edges: self.edges.insert(e, (a, b)),
            incoming: self.incoming.insert(b, seq![e] + self.incoming[b]),
            outgoing: self.outgoing.insert(a, seq![e] + self.outgoing[a]),
            node_slots: self.node_slots,
            edge_slots: if e >= self.edge_slots {
                (e + 1) as nat
            } else {
                self.edge_slots
            },
        }
    }

    /// The edges that start or end at the node.
    pub open spec fn edges_at(self, n: int) -> Set<int> {
        Set::new(|e: int| self.edges.contains_key(e) && (self.edges[e].0 == n || self.edges[e].1 == n))
    }

    /// The graph without the edges in `gone`. The edges that stay keep their
    /// order in every list.
    pub open spec fn without_edges(self, gone: Set<int>) -> GraphView {
        GraphView {
            nodes: self.nodes,
            edges: self.edges.remove_keys(gone),
            incoming: Map::new(
                |n: int| self.nodes.contains(n),
                |n: int| self.incoming[n].filter(|e: int| !gone.contains(e)),
            ),
            outgoing: Map::new(
                |n: int| self.nodes.contains(n),
                |n: int| self.outgoing[n].filter(|e: int| !gone.contains(e)),
            ),
            node_slots: self.node_slots,
            edge_slots: self.edge_slots,
        }
    }

    /// The graph without the node and without the edges that touch it.
    pub open spec fn without_node(self, n: int) -> GraphView {
        let rest = self.without_edges(self.edges_at(n));
        GraphView {
            nodes: rest.nodes.remove(n),
            edges: rest.edges,
            incoming: rest.incoming.remove(n),
            outgoing: rest.outgoing.remove(n),
            node_slots: self.node_slots,
            edge_slots: self.edge_slots,
        }
    }
}

/// `StableGraph::default`: a graph without nodes and edges.
#[verifier::external_body]
pub(crate) fn topology_new() -> (g: Topology)
    ensures
        topology_view(g) == GraphView::empty(),
{
    petgraph::stable_graph::StableGraph::default()
}

/// `StableGraph::clone`: a graph with the same nodes and edges under the same
/// indices, listed in the same order.
#[verifier::external_body]
pub(crate) fn topology_clone(g: &Topology) -> (copy: Topology)
    ensures
        topology_view(copy) == topology_view(*g),
{
    g.clone()
}

/// `StableGraph::node_count`: how many nodes the graph has. (The count is
/// kept right by every call that this module makes: a node is only added to
/// a graph that has room for it.)
#[verifier::external_body]
pub(crate) fn topology_node_count(g: &Topology) -> (count: usize)
    ensures
        count == graph_nodes(*g).len(),
{
    g.node_count()
}

/// `StableGraph::edge_count`: how many edges the graph has.
#[verifier::external_body]
pub(crate) fn topology_edge_count(g: &Topology) -> (count: usize)
    ensures
        count == graph_edges(*g).dom().len(),
{
    g.edge_count()
}

/// `StableGraph::add_node` on a graph that still has room for a node: a node
/// under an index that was free, that is, one that an earlier node has left,
/// or else the next one that was never in use. (The call panics on a graph
/// that already has as many nodes as its index type can name.)
#[verifier::external_body]
pub(crate) fn topology_add_node(g: &mut Topology) -> (n: u16)
    requires
        graph_nodes(*old(g)).len() < GRAPH_LIMIT,
    ensures
        n < GRAPH_LIMIT,
        n <= graph_node_slots(*old(g)),
        !graph_nodes(*old(g)).contains(n as int),
        topology_view(*final(g)) == topology_view(*old(g)).with_node(n as int),
{
    g.add_node(()).index() as u16
}

/// `StableGraph::try_add_edge` between two nodes of the graph: an edge under
/// an index that was free (one that an earlier edge has left, or else the
/// next one that was never in use), listed first at both of its ends. It fails, and
/// leaves the graph as it was, exactly when the graph already has as many
/// edges as its index type can name.
#[verifier::external_body]
pub(crate) fn topology_add_edge(g: &mut Topology, a: u16, b: u16) -> (r: Option<u16>)
    requires
        graph_nodes(*old(g)).contains(a as int),
        graph_nodes(*old(g)).contains(b as int),
    ensures
        match r {
            Some(e) => {
                &&& graph_edges(*old(g)).dom().len() < GRAPH_LIMIT
                &&& e < GRAPH_LIMIT
                &&& e <= graph_edge_slots(*old(g))
                &&& !graph_edges(*old(g)).contains_key(e as int)
                &&& topology_view(*final(g)) == topology_view(*old(g)).with_edge(
                    e as int,
                    a as int,
                    b as int,
                )
            },
            None => {
                &&& graph_edges(*old(g)).dom().len() >= GRAPH_LIMIT
                &&& topology_view(*final(g)) == topology_view(*old(g))
            },
        },
{
    let from = petgraph::stable_graph::NodeIndex::new(a as usize);
    let to = petgraph::stable_graph::NodeIndex::new(b as usize);
    g.try_add_edge(from, to, ()).ok().map(|e| e.index() as u16)
}

/// `StableGraph::remove_edge`: whether there was such an edge. If there was,
/// it is gone from the graph and from the lists of its two ends; the other
/// edges keep their indices and their order.
#[verifier::external_body]
pub(crate) fn topology_remove_edge(g: &mut Topology, e: u16) -> (removed: bool)
    ensures
        removed == graph_edges(*old(g)).contains_key(e as int),
        topology_view(*final(g)) == (if removed {
            topology_view(*old(g)).without_edges(set![e as int])
        } else {
            topology_view(*old(g))
        }),
{
    g.remove_edge(petgraph::stable_graph::EdgeIndex::new(e as usize)).is_some()
}

/// `StableGraph::remove_node`: whether there was such a node. If there was,
/// it is gone together with every edge that started or ended at it; the other
/// nodes and edges keep their indices and their order.
#[verifier::external_body]
pub(crate) fn topology_remove_node(g: &mut Topology, n: u16) -> (removed: bool)
    ensures
        removed == graph_nodes(*old(g)).contains(n as int),
        topology_view(*final(g)) == (if removed {
            topology_view(*old(g)).without_node(n as int)
        } else {
            topology_view(*old(g))
        }),
{
    g.remove_node(petgraph::stable_graph::NodeIndex::new(n as usize)).is_some()
}

/// `StableGraph::contains_node`.
#[verifier::external_body]
pub(crate) fn topology_contains_node(g: &Topology, n: u16) -> (found: bool)
    ensures
        found == graph_nodes(*g).contains(n as int),
{
    g.contains_node(petgraph::stable_graph::NodeIndex::new(n as usize))
}

/// `StableGraph::edge_endpoints`: the source and the target of an edge of the
/// graph, and nothing for an index that names no edge.
#[verifier::external_body]
pub(crate) fn topology_edge_endpoints(g: &Topology, e: u16) -> (ends: Option<(u16, u16)>)
    ensures
        match ends {
            Some((a, b)) => graph_edges(*g).contains_key(e as int) && graph_edges(*g)[e as int]
                == (a as int, b as int),
            None => !graph_edges(*g).contains_key(e as int),
        },
{
    let ends = g.edge_endpoints(petgraph::stable_graph::EdgeIndex::new(e as usize));
    ends.map(|(a, b)| (a.index() as u16, b.index() as u16))
}

/// `StableGraph::node_indices`: the indices of all nodes, in ascending order.
#[verifier::external_body]
pub(crate) fn topology_node_indices(g: &Topology) -> (nodes: Vec<u16>)
    ensures
        forall|i: int, j: int| 0 <= i < j < nodes.len() ==> nodes[i] < nodes[j],
        forall|n: int| graph_nodes(*g).contains(n) <==> index_numbers(nodes@).contains(n),
{
    g.node_indices().map(|n| n.index() as u16).collect()
}

/// `StableGraph::edge_indices`: the indices of all edges, in ascending order.
#[verifier::external_body]
pub(crate) fn topology_edge_indices(g: &Topology) -> (edges: Vec<u16>)
    ensures
        forall|i: int, j: int| 0 <= i < j < edges.len() ==> edges[i] < edges[j],
        forall|e: int| graph_edges(*g).contains_key(e) <==> index_numbers(edges@).contains(e),
{
    g.edge_indices().map(|e| e.index() as u16).collect()
}

/// `StableGraph::edges_directed` with `Incoming`: the edges that end at the
/// node, in the graph's order; none for an index that names no node.
#[verifier::external_body]
pub(crate) fn topology_incoming(g: &Topology, n: u16) -> (edges: Vec<u16>)
    ensures
        index_numbers(edges@) == (if graph_nodes(*g).contains(n as int) {
            graph_incoming(*g)[n as int]
        } else {
            Seq::<int>::empty()
        }),
{
    let at = petgraph::stable_graph::NodeIndex::new(n as usize);
    g.edges_directed(at, petgraph::Direction::Incoming).map(|e| e.id().index() as u16).collect()
}

/// `StableGraph::edges_directed` with `Outgoing`: the edges that start at the
/// node, in the graph's order; none for an index that names no node.
#[verifier::external_body]
pub(crate) fn topology_outgoing(g: &Topology, n: u16) -> (edges: Vec<u16>)
    ensures
        index_numbers(edges@) == (if graph_nodes(*g).contains(n as int) {
            graph_outgoing(*g)[n as int]
        } else {
            Seq::<int>::empty()
        }),
{
    let at = petgraph::stable_graph::NodeIndex::new(n as usize);
    g.edges_directed(at, petgraph::Direction::Outgoing).map(|e| e.id().index() as u16).collect()
}

/// `petgraph::visit::Bfs` from a node of the graph, run to its end: every
/// node it visits is a node of the graph.
#[verifier::external_body]
pub(crate) fn topology_bfs(g: &Topology, start: u16) -> (visited: Vec<u16>)
    requires
        graph_nodes(*g).contains(start as int),
    ensures
        index_numbers(visited@) == bfs_walk(topology_view(*g), start as int),
        forall|i: int| 0 <= i < visited.len() ==> graph_nodes(*g).contains(#[trigger] visited[i] as int),
{
    let from = petgraph::stable_graph::NodeIndex::new(start as usize);
    petgraph::visit::Bfs::new(g, from).iter(g).map(|n| n.index() as u16).collect()
}

/// Whether the mask marks the index; an index beyond the mask is not marked.
pub fn marked(mask: &Vec<bool>, index: usize) -> (r: bool)
    ensures
        r == (index < mask.len() && mask[index as int]),
{
    index < mask.len() && mask[index]
}

/// `petgraph::visit::Topo` over `NodeFiltered`, run to its end: a topological
/// walk over the nodes that the mask marks and the edges between them. Every
/// node it visits is a marked node of the graph, and none is visited twice.
#[verifier::external_body]
pub(crate) fn topology_topo(g: &Topology, mask: &Vec<bool>) -> (visited: Vec<u16>)
    ensures
        index_numbers(visited@) == topo_walk(topology_view(*g), mask@),
        forall|i: int|
            0 <= i < visited.len() ==> graph_nodes(*g).contains(#[trigger] visited[i] as int)
                && visited[i] < mask.len() && mask[visited[i] as int],
        forall|i: int, j: int| 0 <= i < j < visited.len() ==> visited[i] != visited[j],
{
    let part = petgraph::visit::NodeFiltered::from_fn(g, |n| marked(mask, n.index()));
    petgraph::visit::Topo::new(&part).iter(&part).map(|n| n.index() as u16).collect()
}

/// `petgraph::visit::Topo::with_initials`, run to its end, from nodes of the
/// graph: every node it visits is a node of the graph, and none is visited
/// twice. Without initial nodes it visits nothing.
#[verifier::external_body]
pub(crate) fn topology_topo_from(g: &Topology, initials: &Vec<u16>) -> (visited: Vec<u16>)
    requires
        forall|i: int| 0 <= i < initials.len() ==> graph_nodes(*g).contains(#[trigger] initials[i] as int),
    ensures
        index_numbers(visited@) == topo_walk_from(topology_view(*g), initials@),
        initials.len() == 0 ==> visited.len() == 0,
        forall|i: int| 0 <= i < visited.len() ==> graph_nodes(*g).contains(#[trigger] visited[i] as int),
        forall|i: int, j: int| 0 <= i < j < visited.len() ==> visited[i] != visited[j],
{
    let from = initials.iter().map(|n| petgraph::stable_graph::NodeIndex::new(*n as usize));
    petgraph::visit::Topo::with_initials(g, from).iter(g).map(|n| n.index() as u16).collect()
}

/// What `marked` gives for a node, as the weight of a kept node.
pub fn kept(mask: &Vec<bool>, index: usize) -> (r: Option<()>)
    ensures
        r is Some <==> (index < mask.len() && mask[index as int]),
{
    if marked(mask, index) {
        Some(())
    } else {
        None
    }
}

/// `StableGraph::filter_map`: the graph of the marked nodes and of the edges
/// between two of them, under the indices they have in `g`.
#[verifier::external_body]
pub(crate) fn topology_part(g: &Topology, mask: &Vec<bool>) -> (part: Topology)
    ensures
        graph_nodes(part) == graph_nodes(*g).filter(
            |n: int| 0 <= n < mask.len() && mask[n],
        ),
        graph_edges(part) == graph_edges(*g).restrict(
            Set::new(
                |e: int|
                    graph_edges(*g).contains_key(e) && graph_nodes(part).contains(
                        graph_edges(*g)[e].0,
                    ) && graph_nodes(part).contains(graph_edges(*g)[e].1),
            ),
        ),
{
    g.filter_map(|n, _| kept(mask, n.index()), |_, _| Some(()))
}

/// Names a node of a graph. Removing other nodes does not change it.
#[derive(Clone, Copy, Hash, PartialEq, Eq, Debug, Structural)]
pub struct NodeIndex(pub u16);

impl NodeIndex {
    /// The index with the given number.
    pub fn new(index: usize) -> (r: Self)
        requires
            index <= u16::MAX,
        ensures
            r.0 == index,
    {
        NodeIndex(index as u16)
    }

    /// The index's number.
    pub fn index(self) -> (r: usize)
        ensures
            r == self.0,
    {
        self.0 as usize
    }
}

/// Names an edge of a graph. Removing other edges does not change it.
#[derive(Clone, Copy, Hash, PartialEq, Eq, Debug, Structural)]
pub struct EdgeIndex(pub u16);

impl EdgeIndex {
    /// The index with the given number.
    pub fn new(index: usize) -> (r: Self)
        requires
            index <= u16::MAX,
        ensures
            r.0 == index,
    {
        EdgeIndex(index as u16)
    }

    /// The index's number.
    pub fn index(self) -> (r: usize)
        ensures
            r == self.0,
    {
        self.0 as usize
    }
}


/// What a filtered list holds was in the list, and passes the filter.
pub proof fn lemma_filter_keeps(list: Seq<int>, keep: spec_fn(int) -> bool, k: int)
    requires
        0 <= k < list.filter(keep).len(),
    ensures
        list.contains(list.filter(keep)[k]),
        keep(list.filter(keep)[k]),
    decreases list.len(),
{
    reveal(Seq::filter);
    if list.len() > 0 {
        let front = list.drop_last().filter(keep);
        if k < front.len() {
            lemma_filter_keeps(list.drop_last(), keep, k);
            let x = front[k];
            let at = choose|at: int| 0 <= at < list.drop_last().len() && list.drop_last()[at] == x;
            assert(list[at] == x);
        } else {
            assert(list.filter(keep)[k] == list.last());
            assert(list[list.len() - 1] == list.last());
        }
    }
}

/// A well-formed graph stays well-formed when it gets a node.
pub proof fn lemma_with_node_wf(v: GraphView, n: int)
    requires
        v.wf(),
        0 <= n < GRAPH_LIMIT,
        !v.nodes.contains(n),
    ensures
        v.with_node(n).wf(),
{
    let w = v.with_node(n);
    assert(w.incoming.dom() =~= w.nodes);
    assert(w.outgoing.dom() =~= w.nodes);
    assert forall|e: int| #[trigger] w.edges.contains_key(e) implies w.nodes.contains(w.edges[e].0)
        && w.nodes.contains(w.edges[e].1) by {
        assert(v.edges.contains_key(e));
    }
    assert forall|e: int| #[trigger] w.edges.contains_key(e) implies w.incoming[w.edges[e].1].contains(
        e,
    ) && w.outgoing[w.edges[e].0].contains(e) by {
        assert(v.edges.contains_key(e));
        assert(v.nodes.contains(v.edges[e].0) && v.nodes.contains(v.edges[e].1));
    }
    assert forall|m: int| w.nodes.contains(m) implies (#[trigger] w.incoming[m]).no_duplicates() by {
        if m != n {
            assert(v.incoming[m].no_duplicates());
        }
    }
    assert forall|m: int| w.nodes.contains(m) implies (#[trigger] w.outgoing[m]).no_duplicates() by {
        if m != n {
            assert(v.outgoing[m].no_duplicates());
        }
    }
}

/// A list without an element twice stays so when an element that it does not
/// hold is put in front.
pub proof fn lemma_front_no_duplicates(list: Seq<int>, e: int)
    requires
        list.no_duplicates(),
        !list.contains(e),
    ensures
        (seq![e] + list).no_duplicates(),
        (seq![e] + list).contains(e),
        forall|x: int| list.contains(x) ==> (seq![e] + list).contains(x),
{
    let all = seq![e] + list;
    assert forall|i: int, j: int| 0 <= i < all.len() && 0 <= j < all.len() && i != j implies all[i]
        != all[j] by {
        if i > 0 && j > 0 {
            assert(all[i] == list[i - 1] && all[j] == list[j - 1]);
        } else if i == 0 {
            assert(all[j] == list[j - 1]);
        } else {
            assert(all[i] == list[i - 1]);
        }
    }
    assert(all[0] == e);
    assert forall|x: int| list.contains(x) implies all.contains(x) by {
        let i = choose|i: int| 0 <= i < list.len() && list[i] == x;
        assert(all[i + 1] == x);
    }
}

/// A list without an element twice stays so when it is filtered.
pub proof fn lemma_filter_no_duplicates(list: Seq<int>, keep: spec_fn(int) -> bool)
    requires
        list.no_duplicates(),
    ensures
        list.filter(keep).no_duplicates(),
    decreases list.len(),
{
    reveal(Seq::filter);
    if list.len() > 0 {
        let front = list.drop_last();
        assert(front.no_duplicates());
        lemma_filter_no_duplicates(front, keep);
        let kept = front.filter(keep);
        if keep(list.last()) {
            let all = kept.push(list.last());
            assert forall|i: int, j: int|
                0 <= i < all.len() && 0 <= j < all.len() && i != j implies all[i] != all[j] by {
                if i < kept.len() && j < kept.len() {
                } else if i < kept.len() {
                    lemma_filter_keeps(front, keep, i);
                    let at = choose|at: int| 0 <= at < front.len() && front[at] == kept[i];
                    assert(list[at] == kept[i]);
                } else {
                    lemma_filter_keeps(front, keep, j);
                    let at = choose|at: int| 0 <= at < front.len() && front[at] == kept[j];
                    assert(list[at] == kept[j]);
                }
            }
        }
    }
}

/// What passes the filter is in the filtered list.
pub proof fn lemma_filter_holds(list: Seq<int>, keep: spec_fn(int) -> bool, i: int)
    requires
        0 <= i < list.len(),
        keep(list[i]),
    ensures
        list.filter(keep).contains(list[i]),
    decreases list.len(),
{
    reveal(Seq::filter);
    let front = list.drop_last().filter(keep);
    if i == list.len() - 1 {
        assert(list.filter(keep) == front.push(list.last()));
        assert(list.filter(keep)[front.len() as int] == list[i]);
    } else {
        lemma_filter_holds(list.drop_last(), keep, i);
        let j = choose|j: int| 0 <= j < front.len() && front[j] == list[i];
        if keep(list.last()) {
            assert(list.filter(keep)[j] == list[i]);
        } else {
            assert(list.filter(keep)[j] == list[i]);
        }
    }
}

/// A well-formed graph stays well-formed when it gets an edge between two of
/// its nodes.
pub proof fn lemma_with_edge_wf(v: GraphView, e: int, a: int, b: int)
    requires
        v.wf(),
        0 <= e < GRAPH_LIMIT,
        !v.edges.contains_key(e),
        v.nodes.contains(a),
        v.nodes.contains(b),
    ensures
        v.with_edge(e, a, b).wf(),
{
    let w = v.with_edge(e, a, b);
    assert(w.incoming.dom() =~= w.nodes);
    assert(w.outgoing.dom() =~= w.nodes);
    assert(w.edges.dom() =~= v.edges.dom().insert(e));
    assert forall|n: int, k: int|
        w.nodes.contains(n) && 0 <= k < w.incoming[n].len() implies w.edges.contains_key(
        #[trigger] w.incoming[n][k],
    ) && w.edges[w.incoming[n][k]].1 == n by {
        if n == b {
            if k > 0 {
                assert(w.incoming[n][k] == v.incoming[n][k - 1]);
            }
        } else {
            assert(w.incoming[n][k] == v.incoming[n][k]);
        }
    }
    assert forall|n: int, k: int|
        w.nodes.contains(n) && 0 <= k < w.outgoing[n].len() implies w.edges.contains_key(
        #[trigger] w.outgoing[n][k],
    ) && w.edges[w.outgoing[n][k]].0 == n by {
        if n == a {
            if k > 0 {
                assert(w.outgoing[n][k] == v.outgoing[n][k - 1]);
            }
        } else {
            assert(w.outgoing[n][k] == v.outgoing[n][k]);
        }
    }
    assert(!v.incoming[b].contains(e)) by {
        if v.incoming[b].contains(e) {
            let k = choose|k: int| 0 <= k < v.incoming[b].len() && v.incoming[b][k] == e;
            assert(v.edges.contains_key(v.incoming[b][k]));
        }
    }
    assert(!v.outgoing[a].contains(e)) by {
        if v.outgoing[a].contains(e) {
            let k = choose|k: int| 0 <= k < v.outgoing[a].len() && v.outgoing[a][k] == e;
            assert(v.edges.contains_key(v.outgoing[a][k]));
        }
    }
    assert(v.incoming[b].no_duplicates());
    assert(v.outgoing[a].no_duplicates());
    lemma_front_no_duplicates(v.incoming[b], e);
    lemma_front_no_duplicates(v.outgoing[a], e);
    assert forall|x: int| #[trigger] w.edges.contains_key(x) implies w.incoming[w.edges[x].1].contains(
        x,
    ) && w.outgoing[w.edges[x].0].contains(x) by {
        if x != e {
            assert(v.edges.contains_key(x));
            assert(v.incoming[v.edges[x].1].contains(x));
            assert(v.outgoing[v.edges[x].0].contains(x));
            assert(v.nodes.contains(v.edges[x].0) && v.nodes.contains(v.edges[x].1));
        }
    }
    assert forall|m: int| w.nodes.contains(m) implies (#[trigger] w.incoming[m]).no_duplicates() by {
        if m != b {
            assert(v.incoming[m].no_duplicates());
        }
    }
    assert forall|m: int| w.nodes.contains(m) implies (#[trigger] w.outgoing[m]).no_duplicates() by {
        if m != a {
            assert(v.outgoing[m].no_duplicates());
        }
    }
}

/// A well-formed graph stays well-formed when it loses edges.
pub proof fn lemma_without_edges_wf(v: GraphView, gone: Set<int>)
    requires
        v.wf(),
    ensures
        v.without_edges(gone).wf(),
{
    let w = v.without_edges(gone);
    assert(w.incoming.dom() =~= w.nodes);
    assert(w.outgoing.dom() =~= w.nodes);
    assert(w.edges.dom() =~= v.edges.dom().difference(gone));
    vstd::set_lib::lemma_len_difference(v.edges.dom(), gone);
    assert(w.edges.dom().finite());
    assert forall|n: int, k: int|
        w.nodes.contains(n) && 0 <= k < w.incoming[n].len() implies w.edges.contains_key(
        #[trigger] w.incoming[n][k],
    ) && w.edges[w.incoming[n][k]].1 == n by {
        let keep = |e: int| !gone.contains(e);
        lemma_filter_keeps(v.incoming[n], keep, k);
        let x = v.incoming[n].filter(keep)[k];
        let at = choose|at: int| 0 <= at < v.incoming[n].len() && v.incoming[n][at] == x;
        assert(v.edges.contains_key(v.incoming[n][at]));
    }
    assert forall|n: int, k: int|
        w.nodes.contains(n) && 0 <= k < w.outgoing[n].len() implies w.edges.contains_key(
        #[trigger] w.outgoing[n][k],
    ) && w.edges[w.outgoing[n][k]].0 == n by {
        let keep = |e: int| !gone.contains(e);
        lemma_filter_keeps(v.outgoing[n], keep, k);
        let x = v.outgoing[n].filter(keep)[k];
        let at = choose|at: int| 0 <= at < v.outgoing[n].len() && v.outgoing[n][at] == x;
        assert(v.edges.contains_key(v.outgoing[n][at]));
    }
    let keep = |e: int| !gone.contains(e);
    assert forall|x: int| #[trigger] w.edges.contains_key(x) implies w.incoming[w.edges[x].1].contains(
        x,
    ) && w.outgoing[w.edges[x].0].contains(x) by {
        assert(v.edges.contains_key(x));
        assert(v.nodes.contains(v.edges[x].0) && v.nodes.contains(v.edges[x].1));
        let into = v.incoming[v.edges[x].1];
        let from = v.outgoing[v.edges[x].0];
        assert(into.contains(x) && from.contains(x));
        let i = choose|i: int| 0 <= i < into.len() && into[i] == x;
        lemma_filter_holds(into, keep, i);
        let j = choose|j: int| 0 <= j < from.len() && from[j] == x;
        lemma_filter_holds(from, keep, j);
    }
    assert forall|m: int| w.nodes.contains(m) implies (#[trigger] w.incoming[m]).no_duplicates() by {
        assert(v.incoming[m].no_duplicates());
        lemma_filter_no_duplicates(v.incoming[m], keep);
    }
    assert forall|m: int| w.nodes.contains(m) implies (#[trigger] w.outgoing[m]).no_duplicates() by {
        assert(v.outgoing[m].no_duplicates());
        lemma_filter_no_duplicates(v.outgoing[m], keep);
    }
}

/// A well-formed graph stays well-formed when it loses a node and the edges
/// that touch it.
pub proof fn lemma_without_node_wf(v: GraphView, n: int)
    requires
        v.wf(),
    ensures
        v.without_node(n).wf(),
{
    let rest = v.without_edges(v.edges_at(n));
    lemma_without_edges_wf(v, v.edges_at(n));
    let w = v.without_node(n);
    assert(w.incoming.dom() =~= w.nodes);
    assert(w.outgoing.dom() =~= w.nodes);
    assert forall|e: int| #[trigger] w.edges.contains_key(e) implies w.nodes.contains(w.edges[e].0)
        && w.nodes.contains(w.edges[e].1) by {
        assert(rest.edges.contains_key(e));
        assert(!v.edges_at(n).contains(e));
    }
    assert forall|m: int, k: int|
        w.nodes.contains(m) && 0 <= k < w.incoming[m].len() implies w.edges.contains_key(
        #[trigger] w.incoming[m][k],
    ) && w.edges[w.incoming[m][k]].1 == m by {
        assert(rest.incoming[m][k] == w.incoming[m][k]);
    }
    assert forall|m: int, k: int|
        w.nodes.contains(m) && 0 <= k < w.outgoing[m].len() implies w.edges.contains_key(
        #[trigger] w.outgoing[m][k],
    ) && w.edges[w.outgoing[m][k]].0 == m by {
        assert(rest.outgoing[m][k] == w.outgoing[m][k]);
    }
    assert forall|x: int| #[trigger] w.edges.contains_key(x) implies w.incoming[w.edges[x].1].contains(
        x,
    ) && w.outgoing[w.edges[x].0].contains(x) by {
        assert(rest.edges.contains_key(x));
        assert(!v.edges_at(n).contains(x));
        assert(rest.incoming[rest.edges[x].1].contains(x));
        assert(rest.outgoing[rest.edges[x].0].contains(x));
    }
    assert forall|m: int| w.nodes.contains(m) implies (#[trigger] w.incoming[m]).no_duplicates() by {
        assert(rest.incoming[m].no_duplicates());
    }
    assert forall|m: int| w.nodes.contains(m) implies (#[trigger] w.outgoing[m]).no_duplicates() by {
        assert(rest.outgoing[m].no_duplicates());
    }
}

} // verus!
