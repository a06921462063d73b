//! An asset as a tree of plain values, to be written out and read back in:
//! what every node and every edge holds, under its index.

use vstd::prelude::*;
use crate::asset::{
    dependency_views, Asset, AssetMetadata, Dependency, EmbeddedAsset, NodeMetadataView,
    NodeSlot, SENTINEL,
};
use crate::graph::{
    graph_edges, graph_incoming, graph_nodes, graph_outgoing, lemma_with_edge_wf, lemma_with_node_wf, lemma_without_edges_wf,
    lemma_without_node_wf, topology_add_edge, topology_add_node, topology_edge_endpoints,
    topology_new, topology_remove_edge, topology_remove_node, topology_view, EdgeIndex,
    GraphView, NodeIndex, GRAPH_LIMIT,
};
use crate::operations::Nodes;

verus! {

/// An edge as it is written out: where it starts, where it ends and what it holds.
pub struct EdgeRecord {
    pub source: NodeIndex,
    pub target: NodeIndex,
    pub dependency: Dependency,
}

/// An asset as it is written out. Nodes and edges stand at their indices; an
/// index that names nothing holds `None`.
pub struct AssetSnapshot {
    pub metadata: AssetMetadata,
    pub nodes: Vec<Option<NodeSlot>>,
    pub edges: Vec<Option<EdgeRecord>>,
    pub exposed_property_order: Vec<String>,
    /// For every embedded asset the nodes that stand for it.
    pub sub_assets: Vec<Vec<NodeIndex>>,
}

/// Why a snapshot is not an asset.
#[derive(Clone, Copy, PartialEq, Eq, Debug, Structural)]
pub enum ImportError {
    /// There are more nodes or more edges than a graph can hold.
    TooLarge,
    /// Index 0 does not hold the sentinel.
    NoSentinel,
    /// The node is a sentinel, but not at index 0.
    SecondSentinel(NodeIndex),
    /// The edge starts or ends at an index that holds no node.
    DanglingEdge(EdgeIndex),
    /// The edge exposes a property, but does not end at the sentinel.
    ExposeTarget(EdgeIndex),
}

/// The first index from `from` on at which a sentinel stands.
pub open spec fn next_sentinel(nodes: Seq<Option<NodeSlot>>, from: int) -> Option<int>
    decreases nodes.len() - from,
{
    if from < 0 || from >= nodes.len() {
        None
    } else if nodes[from] is Some && nodes[from]->Some_0.node is Expose {
        Some(from)
    } else {
        next_sentinel(nodes, from + 1)
    }
}

/// What is wrong with an edge, if anything: an end that is no node, or an
/// exposed property that does not end at the sentinel.
pub open spec fn edge_fault(nodes: Seq<Option<NodeSlot>>, record: EdgeRecord, e: int) -> Option<
    ImportError,
> {
    if !(record.source.0 < nodes.len() && nodes[record.source.0 as int] is Some && record.target.0
        < nodes.len() && nodes[record.target.0 as int] is Some) {
        Some(ImportError::DanglingEdge(EdgeIndex(e as u16)))
    } else if record.dependency@.is_exposed() && record.target.0 != SENTINEL {
        Some(ImportError::ExposeTarget(EdgeIndex(e as u16)))
    } else {
        None
    }
}

/// What is wrong with the first edge, from `from` on, with which something is wrong.
pub open spec fn next_edge_fault(
    nodes: Seq<Option<NodeSlot>>,
    edges: Seq<Option<EdgeRecord>>,
    from: int,
) -> Option<ImportError>
    decreases edges.len() - from,
{
    if from < 0 || from >= edges.len() {
        None
    } else if edges[from] is Some && edge_fault(nodes, edges[from]->Some_0, from) is Some {
        edge_fault(nodes, edges[from]->Some_0, from)
    } else {
        next_edge_fault(nodes, edges, from + 1)
    }
}

impl AssetSnapshot {
    /// Why the snapshot is not an asset, if it is not: it is too large, the
    /// sentinel is missing or there is a second one, or something is wrong
    /// with an edge.
    pub open spec fn fault(&self) -> Option<ImportError> {
        if self.nodes.len() > GRAPH_LIMIT || self.edges.len() > GRAPH_LIMIT {
            Some(ImportError::TooLarge)
        } else if next_sentinel(self.nodes@, 0) != Some(0int) {
            Some(ImportError::NoSentinel)
        } else if next_sentinel(self.nodes@, 1) is Some {
            Some(ImportError::SecondSentinel(NodeIndex(next_sentinel(self.nodes@, 1)->Some_0 as u16)))
        } else {
            next_edge_fault(self.nodes@, self.edges@, 0)
        }
    }

    /// The snapshot holds what the asset holds: every node and every edge
    /// under its index, the names of the exposed properties in their order,
    /// and for every embedded asset the nodes that stand for it.
    pub open spec fn taken_from(&self, asset: &Asset) -> bool {
        &&& self.nodes.len() == asset.slots().len()
        &&& forall|n: int|
            0 <= n < self.nodes.len() ==> match (#[trigger] asset.slots()[n]) {
                None => self.nodes[n] is None,
                Some(slot) => self.nodes[n] is Some && self.nodes[n]->Some_0.node.same_as(slot.node)
                    && self.nodes[n]->Some_0.metadata@ == slot.metadata@,
            }
        &&& self.edges.len() == asset.dependencies().len()
        &&& forall|e: int|
            0 <= e < self.edges.len() ==> match (#[trigger] asset.dependencies()[e]) {
                None => self.edges[e] is None,
                Some(d) => self.edges[e] is Some && self.edges[e]->Some_0.dependency@ == d && (
                    self.edges[e]->Some_0.source.0 as int,
                    self.edges[e]->Some_0.target.0 as int,
                ) == graph_edges(asset.topology())[e],
            }
        &&& self.exposed_property_order@ == asset.exposed_order()
        &&& self.sub_assets.len() == asset.embedded().len()
        &&& forall|k: int|
            0 <= k < self.sub_assets.len() ==> (#[trigger] self.sub_assets[k])@
                == asset.embedded()[k].spec_nodes()
        &&& self.metadata.spec_position() == asset.spec_position()
    }

    /// The asset holds what the snapshot holds: its nodes and edges are those
    /// of the snapshot, each under its index, and so are the names of the
    /// exposed properties and the embedded assets. Every node lists the edges
    /// at it with the largest index first. The asset was never compiled, and
    /// no node is marked as changed.
    pub open spec fn restored_as(&self, asset: &Asset) -> bool {
        &&& asset.slots().len() == self.nodes.len()
        &&& forall|n: int|
            0 <= n < self.nodes.len() ==> (graph_nodes(asset.topology()).contains(n)
                <==> self.nodes[n] is Some) && match (#[trigger] self.nodes[n]) {
                None => asset.slots()[n] is None,
                Some(slot) => asset.slots()[n] is Some && asset.slots()[n]->Some_0.node
                    == slot.node && asset.slots()[n]->Some_0.metadata@ == (NodeMetadataView {
                    dirty: false,
                    ..slot.metadata@
                }),
            }
        &&& asset.dependencies().len() == self.edges.len()
        &&& forall|e: int|
            0 <= e < self.edges.len() ==> (graph_edges(asset.topology()).contains_key(e)
                <==> self.edges[e] is Some) && match (#[trigger] self.edges[e]) {
                None => asset.dependencies()[e] is None,
                Some(record) => asset.dependencies()[e] == Some(record.dependency@) && graph_edges(
                    asset.topology(),
                )[e] == (record.source.0 as int, record.target.0 as int),
            }
        &&& forall|n: int|
            0 <= n < self.nodes.len() && (#[trigger] self.nodes[n]) is Some ==> graph_incoming(
                asset.topology(),
            )[n] == listed(self.edges@, n, true, self.edges.len() as int, self.edges.len() as int)
                && graph_outgoing(asset.topology())[n] == listed(
                self.edges@,
                n,
                false,
                self.edges.len() as int,
                self.edges.len() as int,
            )
        &&& asset.exposed_order() == self.exposed_property_order@
        &&& asset.embedded().len() == self.sub_assets.len()
        &&& forall|k: int|
            0 <= k < self.sub_assets.len() ==> (#[trigger] asset.embedded()[k]).spec_nodes()
                == self.sub_assets[k]@
        &&& asset.spec_position() == self.metadata.spec_position()
        &&& asset.spec_generation() == 0
        &&& asset.compiled() is None
    }
}

/// The graph of the nodes `0` to `count - 1`, without edges.
pub open spec fn blank(count: nat) -> GraphView
    decreases count,
{
    if count == 0 {
        GraphView::empty()
    } else {
        blank((count - 1) as nat).with_node(count - 1)
    }
}

/// The ends of the edge at `e` while the graph is built: those of the record
/// at `e`, or the sentinel twice where there is none.
pub open spec fn ends_at(edges: Seq<Option<EdgeRecord>>, e: int) -> (int, int) {
    match edges[e] {
        Some(record) => (record.source.0 as int, record.target.0 as int),
        None => (SENTINEL as int, SENTINEL as int),
    }
}

/// The blank graph of `count` nodes with the first `upto` edges added.
pub open spec fn wired(count: nat, edges: Seq<Option<EdgeRecord>>, upto: nat) -> GraphView
    decreases upto,
{
    if upto == 0 {
        blank(count)
    } else {
        wired(count, edges, (upto - 1) as nat).with_edge(
            upto - 1,
            ends_at(edges, upto - 1).0,
            ends_at(edges, upto - 1).1,
        )
    }
}

/// The edges among the first `upto` that end at the node (or, with `incoming`
/// false, start at it), the one with the largest index first. While the graph
/// is built, an index without a record counts as an edge from the sentinel to
/// the sentinel; those below `cleared` are left out.
pub open spec fn listed(
    edges: Seq<Option<EdgeRecord>>,
    n: int,
    incoming: bool,
    upto: int,
    cleared: int,
) -> Seq<int>
    decreases upto,
{
    if upto <= 0 {
        Seq::empty()
    } else {
        let e = upto - 1;
        let end = if incoming {
            ends_at(edges, e).1
        } else {
            ends_at(edges, e).0
        };
        let rest = listed(edges, n, incoming, e, cleared);
        if end == n && !(e < cleared && edges[e] is None) {
            seq![e] + rest
        } else {
            rest
        }
    }
}

/// A list stays as it is when everything in it passes the filter.
pub proof fn lemma_filter_all(list: Seq<int>, keep: spec_fn(int) -> bool)
    requires
        forall|i: int| 0 <= i < list.len() ==> keep(#[trigger] list[i]),
    ensures
        list.filter(keep) == list,
    decreases list.len(),
{
    reveal(Seq::filter);
    if list.len() > 0 {
        assert forall|i: int| 0 <= i < list.drop_last().len() implies keep(
            #[trigger] list.drop_last()[i],
        ) by {
            assert(list.drop_last()[i] == list[i]);
        }
        lemma_filter_all(list.drop_last(), keep);
        assert(keep(list[list.len() - 1]));
        assert(list.drop_last().push(list.last()) =~= list);
    } else {
        assert(list.filter(keep) =~= list);
    }
}

/// Clearing the index `cleared`, which holds no record, takes it out of what
/// is listed and leaves the rest in place.
pub proof fn lemma_listed_cleared(
    edges: Seq<Option<EdgeRecord>>,
    n: int,
    incoming: bool,
    upto: int,
    cleared: int,
)
    requires
        0 <= cleared < edges.len(),
        0 <= upto <= edges.len(),
        edges[cleared] is None,
    ensures
        listed(edges, n, incoming, upto, cleared).filter(|x: int| !set![cleared].contains(x))
            == listed(edges, n, incoming, upto, cleared + 1),
    decreases upto,
{
    let keep = |x: int| !set![cleared].contains(x);
    reveal(Seq::filter);
    if upto > 0 {
        let e = upto - 1;
        let rest = listed(edges, n, incoming, e, cleared);
        let all = listed(edges, n, incoming, upto, cleared);
        lemma_listed_cleared(edges, n, incoming, e, cleared);
        if all.len() != rest.len() {
            assert(all == seq![e] + rest);
            Seq::filter_distributes_over_add(seq![e], rest, keep);
            assert(seq![e].drop_last() =~= Seq::<int>::empty());
            assert(seq![e].last() == e);
            assert(Seq::<int>::empty().filter(keep) =~= Seq::<int>::empty());
            if e == cleared {
                assert(seq![e].filter(keep) =~= Seq::<int>::empty());
                assert(Seq::<int>::empty() + rest.filter(keep) =~= rest.filter(keep));
            } else {
                assert(seq![e].filter(keep) =~= seq![e]);
            }
        }
    } else {
        assert(listed(edges, n, incoming, upto, cleared).filter(keep) =~= Seq::<int>::empty());
    }
}

/// An index that holds a record is listed whether or not it counts as cleared.
pub proof fn lemma_listed_kept(
    edges: Seq<Option<EdgeRecord>>,
    n: int,
    incoming: bool,
    upto: int,
    cleared: int,
)
    requires
        0 <= cleared < edges.len(),
        0 <= upto <= edges.len(),
        edges[cleared] is Some,
    ensures
        listed(edges, n, incoming, upto, cleared) == listed(edges, n, incoming, upto, cleared + 1),
    decreases upto,
{
    if upto > 0 {
        lemma_listed_kept(edges, n, incoming, upto - 1, cleared);
    }
}

/// In the wired graph every node lists the edges that were added at it, the
/// one with the largest index first.
pub proof fn lemma_wired_lists(count: nat, edges: Seq<Option<EdgeRecord>>, upto: nat, n: int)
    requires
        0 < count <= GRAPH_LIMIT,
        upto <= edges.len() <= GRAPH_LIMIT,
        0 <= n < count,
        forall|e: int|
            0 <= e < edges.len() ==> 0 <= (#[trigger] ends_at(edges, e)).0 < count && 0 <= ends_at(
                edges,
                e,
            ).1 < count,
    ensures
        wired(count, edges, upto).incoming[n] == listed(edges, n, true, upto as int, 0),
        wired(count, edges, upto).outgoing[n] == listed(edges, n, false, upto as int, 0),
    decreases upto,
{
    if upto == 0 {
        lemma_blank_lists(count, n);
    } else {
        let before = wired(count, edges, (upto - 1) as nat);
        lemma_wired_lists(count, edges, (upto - 1) as nat, n);
        lemma_wired(count, edges, (upto - 1) as nat);
        assert(0 <= ends_at(edges, upto - 1).0 < count);
        assert(before.nodes.contains(n));
    }
}

/// In the blank graph no node lists an edge.
pub proof fn lemma_blank_lists(count: nat, n: int)
    requires
        0 <= n < count <= GRAPH_LIMIT,
    ensures
        blank(count).incoming[n] == Seq::<int>::empty(),
        blank(count).outgoing[n] == Seq::<int>::empty(),
    decreases count,
{
    if n < count - 1 {
        lemma_blank_lists((count - 1) as nat, n);
    }
}

/// The blank graph has the nodes below `count`, and nothing else.
pub proof fn lemma_blank(count: nat)
    requires
        count <= GRAPH_LIMIT,
    ensures
        blank(count).wf(),
        blank(count).nodes == Set::new(|n: int| 0 <= n < count),
        blank(count).nodes.len() == count,
        blank(count).edges == Map::<int, (int, int)>::empty(),
        blank(count).node_slots == count,
        blank(count).edge_slots == 0,
    decreases count,
{
    if count == 0 {
        assert(blank(0).nodes =~= Set::new(|n: int| 0 <= n < 0));
        assert(blank(0).incoming.dom() =~= blank(0).nodes);
        assert(blank(0).outgoing.dom() =~= blank(0).nodes);
    } else {
        let before = blank((count - 1) as nat);
        lemma_blank((count - 1) as nat);
        lemma_with_node_wf(before, count - 1);
        assert(blank(count).nodes =~= Set::new(|n: int| 0 <= n < count));
    }
}

/// The wired graph has the nodes below `count` and the edges below `upto`.
pub proof fn lemma_wired(count: nat, edges: Seq<Option<EdgeRecord>>, upto: nat)
    requires
        0 < count <= GRAPH_LIMIT,
        upto <= edges.len() <= GRAPH_LIMIT,
        forall|e: int|
            0 <= e < edges.len() ==> 0 <= (#[trigger] ends_at(edges, e)).0 < count && 0 <= ends_at(
                edges,
                e,
            ).1 < count,
    ensures
        wired(count, edges, upto).wf(),
        wired(count, edges, upto).nodes == Set::new(|n: int| 0 <= n < count),
        wired(count, edges, upto).edges.dom() == Set::new(|e: int| 0 <= e < upto),
        wired(count, edges, upto).edges.dom().len() == upto,
        forall|e: int| 0 <= e < upto ==> wired(count, edges, upto).edges[e] == ends_at(edges, e),
        wired(count, edges, upto).edge_slots == upto,
    decreases upto,
{
    lemma_blank(count);
    if upto == 0 {
        assert(wired(count, edges, 0).edges.dom() =~= Set::new(|e: int| 0 <= e < 0));
    } else {
        let before = wired(count, edges, (upto - 1) as nat);
        lemma_wired(count, edges, (upto - 1) as nat);
        let ends = ends_at(edges, upto - 1);
        lemma_with_edge_wf(before, upto - 1, ends.0, ends.1);
        assert(wired(count, edges, upto).edges.dom() =~= Set::new(|e: int| 0 <= e < upto));
        assert(wired(count, edges, upto).edges.dom() =~= before.edges.dom().insert(upto - 1));
    }
}


/// A sentinel that is found from some index on stands at that index or later.
pub proof fn lemma_next_sentinel_bound(nodes: Seq<Option<NodeSlot>>, from: int)
    ensures
        next_sentinel(nodes, from) is Some ==> from <= next_sentinel(nodes, from)->Some_0
            < nodes.len(),
    decreases nodes.len() - from,
{
    if 0 <= from < nodes.len() {
        lemma_next_sentinel_bound(nodes, from + 1);
    }
}

/// Where no sentinel is found from some index on, none stands at any later index.
pub proof fn lemma_no_sentinel(nodes: Seq<Option<NodeSlot>>, from: int, n: int)
    requires
        0 <= from <= n < nodes.len(),
        next_sentinel(nodes, from) is None,
    ensures
        !(nodes[n] is Some && nodes[n]->Some_0.node is Expose),
    decreases n - from,
{
    if from < n {
        lemma_no_sentinel(nodes, from + 1, n);
    }
}

/// Where nothing is wrong with any edge from some index on, nothing is wrong
/// with any later edge.
pub proof fn lemma_no_edge_fault(
    nodes: Seq<Option<NodeSlot>>,
    edges: Seq<Option<EdgeRecord>>,
    from: int,
    e: int,
)
    requires
        0 <= from <= e < edges.len(),
        next_edge_fault(nodes, edges, from) is None,
    ensures
        edges[e] is Some ==> edge_fault(nodes, edges[e]->Some_0, e) is None,
    decreases e - from,
{
    if from < e {
        lemma_no_edge_fault(nodes, edges, from + 1, e);
    }
}

impl Asset {
    /// The asset as a tree of plain values.
    pub fn snapshot(&self) -> (snapshot: AssetSnapshot)
        requires
            self.wf(),
        ensures
            snapshot.taken_from(self),
    {
        let mut nodes: Vec<Option<NodeSlot>> = Vec::new();
        let mut n: usize = 0;
        while n < self.nodes.len()
            invariant
                n <= self.nodes.len(),
                nodes.len() == n,
                forall|m: int|
                    0 <= m < n ==> match (#[trigger] self.slots()[m]) {
                        None => nodes[m] is None,
                        Some(slot) => nodes[m] is Some && nodes[m]->Some_0.node.same_as(slot.node)
                            && nodes[m]->Some_0.metadata@ == slot.metadata@,
                    },
            decreases self.nodes.len() - n,
        {
            match &self.nodes[n] {
                Some(slot) => {
                    nodes.push(
                        Some(NodeSlot { metadata: slot.metadata.clone(), node: slot.node.clone() }),
                    );
                },
                None => {
                    nodes.push(None);
                },
            }
            n += 1;
        }
        let mut edges: Vec<Option<EdgeRecord>> = Vec::new();
        let mut e: usize = 0;
        while e < self.edges.len()
            invariant
                e <= self.edges.len(),
                self.wf(),
                edges.len() == e,
                forall|d: int|
                    0 <= d < e ==> match (#[trigger] self.dependencies()[d]) {
                        None => edges[d] is None,
                        Some(held) => edges[d] is Some && edges[d]->Some_0.dependency@ == held && (
                            edges[d]->Some_0.source.0 as int,
                            edges[d]->Some_0.target.0 as int,
                        ) == graph_edges(self.topology())[d],
                    },
            decreases self.edges.len() - e,
        {
            let record = match &self.edges[e] {
                Some(dependency) => {
                    proof {
                        assert(self.dependencies()[e as int] == Some(dependency@));
                        assert(topology_view(self.topology()).edges.contains_key(e as int));
                    }
                    match topology_edge_endpoints(&self.graph, e as u16) {
                        Some((source, target)) => Some(
                            EdgeRecord {
                                source: NodeIndex(source),
                                target: NodeIndex(target),
                                dependency: dependency.clone(),
                            },
                        ),
                        None => {
                            proof {
                                assert(false);
                            }
                            None
                        },
                    }
                },
                None => {
                    proof {
                        assert(self.dependencies()[e as int] is None);
                    }
                    None
                },
            };
            edges.push(record);
            e += 1;
        }
        let mut exposed_property_order: Vec<String> = Vec::new();
        let mut k: usize = 0;
        while k < self.exposed_property_order.len()
            invariant
                k <= self.exposed_property_order.len(),
                exposed_property_order@ == self.exposed_property_order@.take(k as int),
            decreases self.exposed_property_order.len() - k,
        {
            exposed_property_order.push(self.exposed_property_order[k].clone());
            proof {
                assert(self.exposed_property_order@.take(k + 1)
                    == self.exposed_property_order@.take(k as int).push(
                    self.exposed_property_order@[k as int],
                ));
            }
            k += 1;
        }
        proof {
            assert(self.exposed_property_order@.take(k as int) == self.exposed_property_order@);
        }
        let mut sub_assets: Vec<Vec<NodeIndex>> = Vec::new();
        let mut k: usize = 0;
        while k < self.sub_assets.len()
            invariant
                k <= self.sub_assets.len(),
                sub_assets.len() == k,
                forall|j: int|
                    0 <= j < k ==> (#[trigger] sub_assets[j])@ == self.embedded()[j].spec_nodes(),
            decreases self.sub_assets.len() - k,
        {
            sub_assets.push(self.sub_assets[k].graph_nodes());
            k += 1;
        }
        AssetSnapshot {
            metadata: AssetMetadata::new(self.metadata.position()),
            nodes,
            edges,
            exposed_property_order,
            sub_assets,
        }
    }

    /// The asset that a snapshot holds. The snapshot has to hold the sentinel
    /// at index 0 and nowhere else, its edges have to run between nodes it
    /// holds, and those that expose a property have to end at the sentinel.
    /// Every node and every edge gets the index at which it stands in the
    /// snapshot. Each embedded asset is a new asset.
    pub fn restore(snapshot: AssetSnapshot) -> (r: Result<Asset, ImportError>)
        ensures
            match r {
                Ok(asset) => snapshot.fault() is None && asset.wf() && snapshot.restored_as(&asset),
                Err(e) => snapshot.fault() == Some(e),
            },
    {
        let count: usize = snapshot.nodes.len();
        let wires: usize = snapshot.edges.len();
        if count > GRAPH_LIMIT || wires > GRAPH_LIMIT {
            return Err(ImportError::TooLarge);
        }
        let has_sentinel = count > 0 && match &snapshot.nodes[0] {
            Some(slot) => match slot.node {
                Nodes::Expose => true,
                _ => false,
            },
            None => false,
        };
        if !has_sentinel {
            proof {
                lemma_next_sentinel_bound(snapshot.nodes@, 1);
            }
            return Err(ImportError::NoSentinel);
        }
        let mut n: usize = 1;
        while n < count
            invariant
                1 <= n <= count <= GRAPH_LIMIT,
                wires <= GRAPH_LIMIT,
                wires == snapshot.edges.len(),
                count == snapshot.nodes.len(),
                next_sentinel(snapshot.nodes@, 0) == Some(0int),
                next_sentinel(snapshot.nodes@, 1) == next_sentinel(snapshot.nodes@, n as int),
            decreases count - n,
        {
            let is_sentinel = match &snapshot.nodes[n] {
                Some(slot) => match slot.node {
                    Nodes::Expose => true,
                    _ => false,
                },
                None => false,
            };
            if is_sentinel {
                return Err(ImportError::SecondSentinel(NodeIndex(n as u16)));
            }
            n += 1;
        }
        let mut dependencies: Vec<Option<Dependency>> = Vec::new();
        let mut e: usize = 0;
        while e < wires
            invariant
                e <= wires <= GRAPH_LIMIT,
                0 < count <= GRAPH_LIMIT,
                wires == snapshot.edges.len(),
                count == snapshot.nodes.len(),
                next_sentinel(snapshot.nodes@, 0) == Some(0int),
                next_sentinel(snapshot.nodes@, 1) is None,
                next_edge_fault(snapshot.nodes@, snapshot.edges@, 0) == next_edge_fault(
                    snapshot.nodes@,
                    snapshot.edges@,
                    e as int,
                ),
                dependencies.len() == e,
                forall|d: int|
                    0 <= d < e ==> (#[trigger] dependency_views(dependencies@)[d]) == (
                    match snapshot.edges[d] {
                        Some(record) => Some(record.dependency@),
                        None => None,
                    }),
            decreases wires - e,
        {
            let ghost before = dependency_views(dependencies@);
            match &snapshot.edges[e] {
                Some(record) => {
                    let source: usize = record.source.0 as usize;
                    let target: usize = record.target.0 as usize;
                    let held = source < count && target < count && snapshot.nodes[source].is_some()
                        && snapshot.nodes[target].is_some();
                    if !held {
                        return Err(ImportError::DanglingEdge(EdgeIndex(e as u16)));
                    }
                    if record.dependency.is_exposed() && record.target.0 != SENTINEL {
                        return Err(ImportError::ExposeTarget(EdgeIndex(e as u16)));
                    }
                    dependencies.push(Some(record.dependency.clone()));
                },
                None => {
                    dependencies.push(None);
                },
            }
            proof {
                assert forall|d: int| 0 <= d < e + 1 implies (#[trigger] dependency_views(
                    dependencies@,
                )[d]) == (match snapshot.edges[d] {
                    Some(record) => Some(record.dependency@),
                    None => None,
                }) by {
                    if d < e {
                        assert(dependency_views(dependencies@)[d] == before[d]);
                    }
                }
            }
            e += 1;
        }
        proof {
            assert(snapshot.fault() is None);
            assert forall|x: int| 0 <= x < wires implies 0 <= (#[trigger] ends_at(
                snapshot.edges@,
                x,
            )).0 < count && 0 <= ends_at(snapshot.edges@, x).1 < count by {
                lemma_no_edge_fault(snapshot.nodes@, snapshot.edges@, 0, x);
            }
        }
        let ghost taken = snapshot;
        let mut graph = topology_new();
        let mut n: usize = 0;
        while n < count
            invariant
                n <= count <= GRAPH_LIMIT,
                topology_view(graph) == blank(n as nat),
            decreases count - n,
        {
            proof {
                lemma_blank(n as nat);
            }
            let added = topology_add_node(&mut graph);
            proof {
                assert(added == n);
            }
            n += 1;
        }
        let mut e: usize = 0;
        while e < wires
            invariant
                e <= wires <= GRAPH_LIMIT,
                0 < count <= GRAPH_LIMIT,
                wires == snapshot.edges.len(),
                count == snapshot.nodes.len(),
                forall|x: int|
                    0 <= x < wires ==> 0 <= (#[trigger] ends_at(snapshot.edges@, x)).0 < count
                        && 0 <= ends_at(snapshot.edges@, x).1 < count,
                topology_view(graph) == wired(count as nat, snapshot.edges@, e as nat),
            decreases wires - e,
        {
            proof {
                lemma_wired(count as nat, snapshot.edges@, e as nat);
                assert(0 <= ends_at(snapshot.edges@, e as int).0 < count);
            }
            let (source, target) = match &snapshot.edges[e] {
                Some(record) => (record.source.0, record.target.0),
                None => (SENTINEL, SENTINEL),
            };
            let added = topology_add_edge(&mut graph, source, target);
            proof {
                assert(added is Some);
                assert(added->Some_0 == e);
            }
            e += 1;
        }
        proof {
            lemma_wired(count as nat, snapshot.edges@, wires as nat);
            assert forall|x: int| 0 <= x < count implies graph_incoming(graph)[x] == listed(
                snapshot.edges@,
                x,
                true,
                wires as int,
                0,
            ) && graph_outgoing(graph)[x] == listed(snapshot.edges@, x, false, wires as int, 0) by {
                lemma_wired_lists(count as nat, snapshot.edges@, wires as nat, x);
            }
        }
        let mut e: usize = 0;
        while e < wires
            invariant
                e <= wires <= GRAPH_LIMIT,
                wires == snapshot.edges.len(),
                count == snapshot.nodes.len(),
                topology_view(graph).wf(),
                graph_nodes(graph) == Set::new(|x: int| 0 <= x < count),
                forall|x: int|
                    0 <= x < count ==> #[trigger] graph_incoming(graph)[x] == listed(
                        snapshot.edges@,
                        x,
                        true,
                        wires as int,
                        e as int,
                    ) && graph_outgoing(graph)[x] == listed(
                        snapshot.edges@,
                        x,
                        false,
                        wires as int,
                        e as int,
                    ),
                forall|x: int|
                    graph_edges(graph).contains_key(x) <==> 0 <= x < wires && (x >= e
                        || snapshot.edges[x] is Some),
                forall|x: int|
                    graph_edges(graph).contains_key(x) ==> graph_edges(graph)[x] == ends_at(
                        snapshot.edges@,
                        x,
                    ),
            decreases wires - e,
        {
            let ghost before = topology_view(graph);
            if snapshot.edges[e].is_none() {
                proof {
                    lemma_without_edges_wf(topology_view(graph), set![e as int]);
                }
                let removed = topology_remove_edge(&mut graph, e as u16);
                proof {
                    assert forall|x: int| 0 <= x < count implies #[trigger] graph_incoming(
                        graph,
                    )[x] == listed(snapshot.edges@, x, true, wires as int, e + 1)
                        && graph_outgoing(graph)[x] == listed(
                        snapshot.edges@,
                        x,
                        false,
                        wires as int,
                        e + 1,
                    ) by {
                        assert(before.nodes.contains(x));
                        lemma_listed_cleared(snapshot.edges@, x, true, wires as int, e as int);
                        lemma_listed_cleared(snapshot.edges@, x, false, wires as int, e as int);
                    }
                }
            } else {
                proof {
                    assert forall|x: int| 0 <= x < count implies #[trigger] graph_incoming(
                        graph,
                    )[x] == listed(snapshot.edges@, x, true, wires as int, e + 1)
                        && graph_outgoing(graph)[x] == listed(
                        snapshot.edges@,
                        x,
                        false,
                        wires as int,
                        e + 1,
                    ) by {
                        lemma_listed_kept(snapshot.edges@, x, true, wires as int, e as int);
                        lemma_listed_kept(snapshot.edges@, x, false, wires as int, e as int);
                    }
                }
            }
            e += 1;
        }
        let mut n: usize = 0;
        while n < count
            invariant
                n <= count <= GRAPH_LIMIT,
                wires == snapshot.edges.len(),
                count == snapshot.nodes.len(),
                next_edge_fault(snapshot.nodes@, snapshot.edges@, 0) is None,
                topology_view(graph).wf(),
                forall|x: int|
                    graph_nodes(graph).contains(x) <==> 0 <= x < count && (x >= n
                        || snapshot.nodes[x] is Some),
                forall|x: int|
                    graph_nodes(graph).contains(x) ==> #[trigger] graph_incoming(graph)[x]
                        == listed(snapshot.edges@, x, true, wires as int, wires as int)
                        && graph_outgoing(graph)[x] == listed(
                        snapshot.edges@,
                        x,
                        false,
                        wires as int,
                        wires as int,
                    ),
                forall|x: int|
                    graph_edges(graph).contains_key(x) <==> 0 <= x < wires
                        && snapshot.edges[x] is Some,
                forall|x: int|
                    graph_edges(graph).contains_key(x) ==> graph_edges(graph)[x] == ends_at(
                        snapshot.edges@,
                        x,
                    ),
            decreases count - n,
        {
            if snapshot.nodes[n].is_none() {
                let ghost before = topology_view(graph);
                proof {
                    lemma_without_node_wf(before, n as int);
                    assert forall|x: int| before.edges.contains_key(x) implies !before.edges_at(
                        n as int,
                    ).contains(x) by {
                        lemma_no_edge_fault(snapshot.nodes@, snapshot.edges@, 0, x);
                    }
                    assert(before.edges.remove_keys(before.edges_at(n as int)) =~= before.edges);
                }
                let removed = topology_remove_node(&mut graph, n as u16);
                proof {
                    let gone = before.edges_at(n as int);
                    let keep = |x: int| !gone.contains(x);
                    assert forall|x: int| graph_nodes(graph).contains(x) implies #[trigger] graph_incoming(
                        graph,
                    )[x] == listed(snapshot.edges@, x, true, wires as int, wires as int)
                        && graph_outgoing(graph)[x] == listed(
                        snapshot.edges@,
                        x,
                        false,
                        wires as int,
                        wires as int,
                    ) by {
                        assert(before.nodes.contains(x));
                        assert forall|i: int| 0 <= i < before.incoming[x].len() implies keep(
                            #[trigger] before.incoming[x][i],
                        ) by {
                            assert(before.edges.contains_key(before.incoming[x][i]));
                        }
                        assert forall|i: int| 0 <= i < before.outgoing[x].len() implies keep(
                            #[trigger] before.outgoing[x][i],
                        ) by {
                            assert(before.edges.contains_key(before.outgoing[x][i]));
                        }
                        lemma_filter_all(before.incoming[x], keep);
                        lemma_filter_all(before.outgoing[x], keep);
                    }
                }
            }
            n += 1;
        }
        let mut nodes = snapshot.nodes;
        let ghost given = nodes@;
        let mut n: usize = 0;
        while n < nodes.len()
            invariant
                n <= nodes.len(),
                nodes.len() == given.len(),
                forall|m: int| n <= m < nodes.len() ==> (#[trigger] nodes[m]) == given[m],
                forall|m: int|
                    0 <= m < n ==> match (#[trigger] given[m]) {
                        None => nodes[m] is None,
                        Some(slot) => nodes[m] is Some && nodes[m]->Some_0.node == slot.node
                            && nodes[m]->Some_0.metadata@ == (NodeMetadataView {
                            dirty: false,
                            ..slot.metadata@
                        }),
                    },
            decreases nodes.len() - n,
        {
            nodes.push(None);
            let taken = nodes.swap_remove(n);
            match taken {
                Some(slot) => {
                    let mut metadata = slot.metadata;
                    metadata.clear_dirty();
                    nodes.set(n, Some(NodeSlot { metadata, node: slot.node }));
                },
                None => {},
            }
            n += 1;
        }
        let mut sub_assets: Vec<EmbeddedAsset> = Vec::new();
        let mut k: usize = 0;
        while k < snapshot.sub_assets.len()
            invariant
                k <= snapshot.sub_assets.len(),
                sub_assets.len() == k,
                forall|j: int|
                    0 <= j < k ==> (#[trigger] sub_assets[j]).spec_nodes()
                        == snapshot.sub_assets[j]@,
            decreases snapshot.sub_assets.len() - k,
        {
            let listed = &snapshot.sub_assets[k];
            let mut stand_ins: Vec<NodeIndex> = Vec::new();
            let mut j: usize = 0;
            while j < listed.len()
                invariant
                    j <= listed.len(),
                    stand_ins@ == listed@.take(j as int),
                decreases listed.len() - j,
            {
                stand_ins.push(listed[j]);
                proof {
                    assert(listed@.take(j + 1) == listed@.take(j as int).push(listed@[j as int]));
                }
                j += 1;
            }
            proof {
                assert(listed@.take(j as int) == listed@);
            }
            sub_assets.push(EmbeddedAsset::Internal(Asset::default(), stand_ins));
            k += 1;
        }
        let asset = Asset {
            metadata: snapshot.metadata,
            graph,
            nodes,
            edges: dependencies,
            exposed_property_order: snapshot.exposed_property_order,
            sub_assets,
            template: None,
            generation: 0,
        };
        proof {
            assert(taken.fault() is None);
            let g = topology_view(asset.topology());
            assert forall|m: int|
                0 <= m < asset.slots().len() && (#[trigger] asset.slots()[m]) is Some implies (
            asset.slots()[m]->Some_0.node is Expose <==> m == SENTINEL) by {
                assert(given[m] is Some);
                if m >= 1 {
                    lemma_no_sentinel(given, 1, m);
                }
            }
            assert forall|x: int|
                0 <= x < asset.dependencies().len() && (#[trigger] asset.dependencies()[x])
                    is Some && asset.dependencies()[x]->Some_0.is_exposed() implies g.edges[x].1
                == SENTINEL by {
                lemma_no_edge_fault(given, snapshot.edges@, 0, x);
            }
            assert forall|m: int| 0 <= m < asset.slots().len() implies (g.nodes.contains(m) <==> (
            #[trigger] asset.slots()[m]) is Some) by {
                assert(given[m] is Some <==> asset.slots()[m] is Some);
            }
        }
        Ok(asset)
    }
}

/// A sentinel that is found stands where it is found.
pub proof fn lemma_next_sentinel_is(nodes: Seq<Option<NodeSlot>>, from: int)
    requires
        0 <= from,
    ensures
        next_sentinel(nodes, from) is Some ==> {
            let k = next_sentinel(nodes, from)->Some_0;
            from <= k < nodes.len() && nodes[k] is Some && nodes[k]->Some_0.node is Expose
        },
    decreases nodes.len() - from,
{
    if from < nodes.len() {
        lemma_next_sentinel_is(nodes, from + 1);
    }
}

/// The edge with which something is found wrong.
pub proof fn lemma_next_edge_fault_is(
    nodes: Seq<Option<NodeSlot>>,
    edges: Seq<Option<EdgeRecord>>,
    from: int,
) -> (e: int)
    requires
        0 <= from,
        next_edge_fault(nodes, edges, from) is Some,
    ensures
        from <= e < edges.len(),
        edges[e] is Some,
        edge_fault(nodes, edges[e]->Some_0, e) is Some,
    decreases edges.len() - from,
{
    if edges[from] is Some && edge_fault(nodes, edges[from]->Some_0, from) is Some {
        from
    } else {
        lemma_next_edge_fault_is(nodes, edges, from + 1)
    }
}

/// What is written out of an asset can always be read back in: nothing is
/// wrong with it, so restoring it does not fail.
pub proof fn law_written_out_can_be_read_back(asset: Asset, snapshot: AssetSnapshot)
    requires
        asset.wf(),
        snapshot.taken_from(&asset),
    ensures
        snapshot.fault() is None,
{
    let g = topology_view(asset.topology());
    let nodes = snapshot.nodes@;
    let edges = snapshot.edges@;
    assert(g.nodes.contains(SENTINEL as int));
    assert(asset.slots()[0] is Some);
    assert(nodes[0] is Some && nodes[0]->Some_0.node is Expose);
    assert(next_sentinel(nodes, 0) == Some(0int));
    lemma_next_sentinel_is(nodes, 1);
    if next_sentinel(nodes, 1) is Some {
        let k = next_sentinel(nodes, 1)->Some_0;
        assert(asset.slots()[k] is Some);
        assert(asset.slots()[k]->Some_0.node is Expose);
        assert(false);
    }
    if next_edge_fault(nodes, edges, 0) is Some {
        let e = lemma_next_edge_fault_is(nodes, edges, 0);
        assert(asset.dependencies()[e] is Some);
        assert(g.edges.contains_key(e));
        assert(g.nodes.contains(g.edges[e].0) && g.nodes.contains(g.edges[e].1));
        assert(asset.slots()[g.edges[e].0] is Some);
        assert(asset.slots()[g.edges[e].1] is Some);
        assert(nodes[g.edges[e].0] is Some);
        assert(nodes[g.edges[e].1] is Some);
        assert(false);
    }
}

/// What is written out of an asset can always be read back in, and writing
/// an asset out and reading it back in gives an asset with the same
/// nodes, each with the same operation, the same edges, each between the same
/// nodes and with the same dependency, the same names of exposed properties
/// in the same order, and as many embedded assets with the same nodes
/// standing for them.
pub proof fn law_round_trip(asset: Asset, snapshot: AssetSnapshot, restored: Asset)
    requires
        asset.wf(),
        restored.wf(),
        snapshot.taken_from(&asset),
        snapshot.restored_as(&restored),
    ensures
        snapshot.fault() is None,
        graph_nodes(restored.topology()) == graph_nodes(asset.topology()),
        graph_edges(restored.topology()) == graph_edges(asset.topology()),
        restored.dependencies() == asset.dependencies(),
        restored.slots().len() == asset.slots().len(),
        forall|n: int|
            graph_nodes(asset.topology()).contains(n) ==> (
            #[trigger] restored.slots()[n])->Some_0.node.same_as(asset.slots()[n]->Some_0.node),
        restored.exposed_order() == asset.exposed_order(),
        restored.embedded().len() == asset.embedded().len(),
        forall|k: int|
            0 <= k < asset.embedded().len() ==> (#[trigger] restored.embedded()[k]).spec_nodes()
                == asset.embedded()[k].spec_nodes(),
{
    law_written_out_can_be_read_back(asset, snapshot);
    let g = topology_view(asset.topology());
    assert forall|n: int|
        graph_nodes(restored.topology()).contains(n) <==> graph_nodes(asset.topology()).contains(
            n,
        ) by {
        if graph_nodes(asset.topology()).contains(n) {
            assert(g.nodes.contains(n));
            assert(asset.slots()[n] is Some);
            assert(snapshot.nodes[n] is Some);
        }
        if graph_nodes(restored.topology()).contains(n) {
            assert(topology_view(restored.topology()).nodes.contains(n));
            assert(restored.slots()[n] is Some);
            assert(snapshot.nodes[n] is Some);
            assert(asset.slots()[n] is Some);
        }
    }
    assert(graph_nodes(restored.topology()) =~= graph_nodes(asset.topology()));
    assert forall|e: int|
        graph_edges(restored.topology()).contains_key(e) <==> graph_edges(
            asset.topology(),
        ).contains_key(e) by {
        if graph_edges(asset.topology()).contains_key(e) {
            assert(g.edges.contains_key(e));
            assert(asset.dependencies()[e] is Some);
            assert(snapshot.edges[e] is Some);
        }
        if graph_edges(restored.topology()).contains_key(e) {
            assert(topology_view(restored.topology()).edges.contains_key(e));
            assert(restored.dependencies()[e] is Some);
            assert(snapshot.edges[e] is Some);
            assert(asset.dependencies()[e] is Some);
        }
    }
    assert forall|e: int| graph_edges(asset.topology()).contains_key(e) implies graph_edges(
        restored.topology(),
    )[e] == graph_edges(asset.topology())[e] by {
        assert(g.edges.contains_key(e));
        assert(asset.dependencies()[e] is Some);
        assert(snapshot.edges[e] is Some);
    }
    assert(graph_edges(restored.topology()) =~= graph_edges(asset.topology()));
    assert forall|e: int| 0 <= e < asset.dependencies().len() implies restored.dependencies()[e]
        == asset.dependencies()[e] by {
        assert(snapshot.edges[e] is Some <==> asset.dependencies()[e] is Some);
    }
    assert(restored.dependencies() =~= asset.dependencies());
    assert forall|n: int| graph_nodes(asset.topology()).contains(n) implies (
    #[trigger] restored.slots()[n])->Some_0.node.same_as(asset.slots()[n]->Some_0.node) by {
        assert(g.nodes.contains(n));
        assert(asset.slots()[n] is Some);
        assert(snapshot.nodes[n] is Some);
    }
}

} // verus!
