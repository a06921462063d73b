//! Compiling an authored graph: which nodes follow an exposed property, what
//! the others compute once and for all, and what the graph hands out.

use vstd::prelude::*;
use crate::asset::{seed_graph, Asset, Authored, DependencyView, SENTINEL};
use crate::data_types::{
    borrowed_views, same_text, types_of, value_views, DataTypeInstance, DataTypeType, PropertyMetadata,
    PropertyMetadataView, ValueView,
};
use crate::graph::{
    bfs_walk, graph_edges, graph_nodes, index_numbers, topo_walk, topology_bfs,
    topology_edge_endpoints, topology_incoming, topology_outgoing, topology_part, topology_topo,
    topology_view, EdgeIndex, NodeIndex, Topology, GRAPH_LIMIT,
};
use crate::operations::{metadata_views, Nodes, Operation, OperationError, PropertyInterface};
use vstd::string::StringExecFns;

verus! {

/// How a node stands to the exposed properties of its graph.
#[derive(Clone, Copy, PartialEq, Eq, Debug, Structural)]
pub enum NodeClass {
    /// Nothing that can change at runtime reaches the node.
    Const,
    /// The node lies downstream of a dynamic node.
    Static,
    /// The node holds an exposed property, or a property that follows one.
    Dynamic,
}

impl Authored {
    /// An edge runs from the node into the sentinel: the node holds an
    /// exposed property.
    pub open spec fn exposes(self, n: int) -> bool {
        exists|k: int|
            0 <= k < self.incoming(SENTINEL as int).len() && self.source_of(
                #[trigger] self.incoming(SENTINEL as int)[k],
            ) == n
    }

    /// The edge at place `i` among those that start at `n` exposes a
    /// property, and the edge at place `j` lets a property of `t` follow
    /// that same property.
    pub open spec fn follows_at(self, n: int, i: int, j: int, t: int) -> bool {
        let exposing = self.outgoing(n)[i];
        let following = self.outgoing(n)[j];
        &&& 0 <= i < self.outgoing(n).len()
        &&& 0 <= j < self.outgoing(n).len()
        &&& self.dependency_of(exposing).is_exposed()
        &&& self.dependency_of(following) is Node
        &&& self.dependency_of(following).target_property() == self.dependency_of(
            exposing,
        ).target_property()
        &&& self.target_of(following) == t
    }

    /// A property of `t` follows a property that `n` exposes.
    pub open spec fn follows(self, n: int, t: int) -> bool {
        exists|i: int, j: int| #[trigger] self.follows_at(n, i, j, t)
    }

    /// The node is dynamic: it holds an exposed property, or one of its
    /// properties follows an exposed property of a node that does.
    pub open spec fn dynamic(self, t: int) -> bool {
        self.exposes(t) || exists|n: int| self.exposes(n) && #[trigger] self.follows(n, t)
    }

    /// The node is not dynamic, and a breadth-first search from a dynamic
    /// node reaches it.
    pub open spec fn downstream(self, t: int) -> bool {
        !self.dynamic(t) && exists|s: int| self.dynamic(s) && #[trigger] bfs_walk(topology_view(self.graph), s).contains(t)
    }

    /// How the node stands to the exposed properties.
    pub open spec fn class_of(self, t: int) -> NodeClass {
        if self.dynamic(t) {
            NodeClass::Dynamic
        } else if self.downstream(t) {
            NodeClass::Static
        } else {
            NodeClass::Const
        }
    }
}

/// Marks as dynamic every node of which a property follows the property that
/// the edge at place `i` among the outgoing edges of `n` exposes.
fn mark_followers_of(classes: &mut Vec<NodeClass>, asset: &Asset, n: u16, outgoing: &Vec<u16>, i: usize)
    requires
        asset.wf(),
        asset.authored().has_node(n as int),
        index_numbers(outgoing@) == asset.authored().outgoing(n as int),
        i < outgoing.len(),
        old(classes).len() == asset.slots().len(),
    ensures
        final(classes).len() == old(classes).len(),
        forall|t: int|
            0 <= t < final(classes).len() ==> (#[trigger] final(classes)[t]) == (if exists|j: int|
                asset.authored().follows_at(n as int, i as int, j, t) {
                NodeClass::Dynamic
            } else {
                old(classes)[t]
            }),
{
    let ghost a = asset.authored();
    let ghost list = a.outgoing(n as int);
    proof {
        assert(index_numbers(outgoing@)[i as int] == outgoing[i as int]);
        let g = topology_view(a.graph);
        assert(g.nodes.contains(n as int));
        assert(g.edges.contains_key(g.outgoing[n as int][i as int]));
    }
    let exposing = match asset.dependency_at(outgoing[i] as usize) {
        Some(d) => d,
        None => {
            proof {
                assert(false);
            }
            return ;
        },
    };
    if !exposing.is_exposed() {
        return ;
    }
    let mut j: usize = 0;
    while j < outgoing.len()
        invariant
            j <= outgoing.len(),
            i < outgoing.len(),
            asset.wf(),
            a == asset.authored(),
            a.has_node(n as int),
            list == a.outgoing(n as int),
            index_numbers(outgoing@) == list,
            exposing@ == a.dependency_of(list[i as int]),
            exposing@.is_exposed(),
            classes.len() == old(classes).len(),
            classes.len() == asset.slots().len(),
            forall|t: int|
                0 <= t < classes.len() ==> (#[trigger] classes[t]) == (if exists|j2: int|
                    0 <= j2 < j && a.follows_at(n as int, i as int, j2, t) {
                    NodeClass::Dynamic
                } else {
                    old(classes)[t]
                }),
        decreases outgoing.len() - j,
    {
        let e: u16 = outgoing[j];
        proof {
            assert(index_numbers(outgoing@)[j as int] == e);
            let g = topology_view(a.graph);
            assert(g.nodes.contains(n as int));
            assert(g.edges.contains_key(g.outgoing[n as int][j as int]));
            assert(g.nodes.contains(g.edges[e as int].1));
        }
        let ghost earlier = classes@;
        let mut hit = false;
        match asset.dependency_at(e as usize) {
            Some(d) => {
                if d.is_node() && same_text(d.get_target_property(), exposing.get_target_property()) {
                    match topology_edge_endpoints(asset.graph_ref(), e) {
                        Some((_, t)) => {
                            classes.set(t as usize, NodeClass::Dynamic);
                            hit = true;
                        },
                        None => {},
                    }
                }
            },
            None => {},
        }
        proof {
            assert forall|t: int| 0 <= t < classes.len() implies (#[trigger] classes[t]) == (
            if exists|j2: int| 0 <= j2 < j + 1 && a.follows_at(n as int, i as int, j2, t) {
                NodeClass::Dynamic
            } else {
                old(classes)[t]
            }) by {
                if hit && t == a.target_of(e as int) {
                    assert(a.follows_at(n as int, i as int, j as int, t));
                } else {
                    assert(classes[t] == earlier[t]);
                    assert(!a.follows_at(n as int, i as int, j as int, t));
                    if exists|j2: int| 0 <= j2 < j + 1 && a.follows_at(n as int, i as int, j2, t) {
                        let j2 = choose|j2: int|
                            0 <= j2 < j + 1 && a.follows_at(n as int, i as int, j2, t);
                        assert(j2 < j);
                    }
                }
            }
        }
        j += 1;
    }
    proof {
        assert forall|t: int| 0 <= t < classes.len() implies (#[trigger] classes[t]) == (if exists|
            j2: int,
        |
            a.follows_at(n as int, i as int, j2, t) {
            NodeClass::Dynamic
        } else {
            old(classes)[t]
        }) by {
            if exists|j2: int| a.follows_at(n as int, i as int, j2, t) {
                let j2 = choose|j2: int| a.follows_at(n as int, i as int, j2, t);
                assert(0 <= j2 < outgoing.len());
            }
        }
    }
}


/// Marks as dynamic every node of which a property follows a property that
/// `n` exposes.
fn mark_followers(classes: &mut Vec<NodeClass>, asset: &Asset, n: u16)
    requires
        asset.wf(),
        asset.authored().has_node(n as int),
        old(classes).len() == asset.slots().len(),
    ensures
        final(classes).len() == old(classes).len(),
        forall|t: int|
            0 <= t < final(classes).len() ==> (#[trigger] final(classes)[t]) == (
            if asset.authored().follows(n as int, t) {
                NodeClass::Dynamic
            } else {
                old(classes)[t]
            }),
{
    let ghost a = asset.authored();
    let outgoing = topology_outgoing(asset.graph_ref(), n);
    let mut i: usize = 0;
    while i < outgoing.len()
        invariant
            i <= outgoing.len(),
            asset.wf(),
            a == asset.authored(),
            a.has_node(n as int),
            index_numbers(outgoing@) == a.outgoing(n as int),
            classes.len() == old(classes).len(),
            classes.len() == asset.slots().len(),
            forall|t: int|
                0 <= t < classes.len() ==> (#[trigger] classes[t]) == (if exists|i2: int, j: int|
                    0 <= i2 < i && a.follows_at(n as int, i2, j, t) {
                    NodeClass::Dynamic
                } else {
                    old(classes)[t]
                }),
        decreases outgoing.len() - i,
    {
        let ghost earlier = classes@;
        mark_followers_of(classes, asset, n, &outgoing, i);
        proof {
            assert forall|t: int| 0 <= t < classes.len() implies (#[trigger] classes[t]) == (
            if exists|i2: int, j: int| 0 <= i2 < i + 1 && a.follows_at(n as int, i2, j, t) {
                NodeClass::Dynamic
            } else {
                old(classes)[t]
            }) by {
                if exists|j: int| a.follows_at(n as int, i as int, j, t) {
                    let j = choose|j: int| a.follows_at(n as int, i as int, j, t);
                    assert(0 <= i < i + 1 && a.follows_at(n as int, i as int, j, t));
                } else {
                    assert(classes[t] == earlier[t]);
                    if exists|i2: int, j: int|
                        0 <= i2 < i + 1 && a.follows_at(n as int, i2, j, t) {
                        let (i2, j) = choose|i2: int, j: int|
                            0 <= i2 < i + 1 && a.follows_at(n as int, i2, j, t);
                        assert(i2 < i);
                    }
                }
            }
        }
        i += 1;
    }
    proof {
        assert forall|t: int| 0 <= t < classes.len() implies (#[trigger] classes[t]) == (
        if a.follows(n as int, t) {
            NodeClass::Dynamic
        } else {
            old(classes)[t]
        }) by {
            if a.follows(n as int, t) {
                let (i2, j) = choose|i2: int, j: int| #[trigger] a.follows_at(n as int, i2, j, t);
                assert(0 <= i2 < outgoing.len() && a.follows_at(n as int, i2, j, t));
            }
        }
    }
}

/// The nodes at which the edges into the sentinel start, one for each edge,
/// in the graph's order.
pub fn exposed_sources(asset: &Asset) -> (sources: Vec<u16>)
    requires
        asset.wf(),
    ensures
        sources.len() == asset.authored().incoming(SENTINEL as int).len(),
        forall|k: int|
            0 <= k < sources.len() ==> (#[trigger] sources[k]) as int == asset.authored().source_of(
                asset.authored().incoming(SENTINEL as int)[k],
            ) && asset.authored().has_node(sources[k] as int),
{
    let ghost a = asset.authored();
    let incoming = topology_incoming(asset.graph_ref(), SENTINEL);
    let mut sources: Vec<u16> = Vec::new();
    let mut k: usize = 0;
    while k < incoming.len()
        invariant
            k <= incoming.len(),
            asset.wf(),
            a == asset.authored(),
            index_numbers(incoming@) == a.incoming(SENTINEL as int),
            sources.len() == k,
            forall|k2: int|
                0 <= k2 < k ==> (#[trigger] sources[k2]) as int == a.source_of(
                    a.incoming(SENTINEL as int)[k2],
                ) && a.has_node(sources[k2] as int),
        decreases incoming.len() - k,
    {
        proof {
            assert(index_numbers(incoming@)[k as int] == incoming[k as int]);
            let g = topology_view(a.graph);
            assert(g.edges.contains_key(g.incoming[SENTINEL as int][k as int]));
        }
        match topology_edge_endpoints(asset.graph_ref(), incoming[k]) {
            Some((from, _)) => {
                sources.push(from);
            },
            None => {
                proof {
                    assert(false);
                }
            },
        }
        k += 1;
    }
    sources
}

/// Tells for every place of the graph how its node stands to the exposed
/// properties. A place without a node counts as constant.
pub fn classify(asset: &Asset) -> (classes: Vec<NodeClass>)
    requires
        asset.wf(),
    ensures
        classes.len() == asset.slots().len(),
        forall|t: int|
            0 <= t < classes.len() ==> (#[trigger] classes[t]) == asset.authored().class_of(t),
{
    let ghost a = asset.authored();
    let count: usize = asset.slot_count();
    let mut classes: Vec<NodeClass> = Vec::new();
    while classes.len() < count
        invariant
            classes.len() <= count,
            forall|t: int| 0 <= t < classes.len() ==> (#[trigger] classes[t]) == NodeClass::Const,
        decreases count - classes.len(),
    {
        classes.push(NodeClass::Const);
    }
    let sources = exposed_sources(asset);
    let mut k: usize = 0;
    while k < sources.len()
        invariant
            k <= sources.len(),
            asset.wf(),
            a == asset.authored(),
            classes.len() == count,
            count == asset.slots().len(),
            sources.len() == a.incoming(SENTINEL as int).len(),
            forall|k2: int|
                0 <= k2 < sources.len() ==> (#[trigger] sources[k2]) as int == a.source_of(
                    a.incoming(SENTINEL as int)[k2],
                ) && a.has_node(sources[k2] as int),
            forall|t: int|
                0 <= t < classes.len() ==> (#[trigger] classes[t]) == (if exists|k2: int|
                    0 <= k2 < k && sources[k2] == t {
                    NodeClass::Dynamic
                } else {
                    NodeClass::Const
                }),
        decreases sources.len() - k,
    {
        let ghost earlier = classes@;
        proof {
            assert(a.has_node(sources[k as int] as int));
            assert(topology_view(a.graph).nodes.contains(sources[k as int] as int));
        }
        classes.set(sources[k] as usize, NodeClass::Dynamic);
        proof {
            assert forall|t: int| 0 <= t < classes.len() implies (#[trigger] classes[t]) == (
            if exists|k2: int| 0 <= k2 < k + 1 && sources[k2] == t {
                NodeClass::Dynamic
            } else {
                NodeClass::Const
            }) by {
                if t != sources[k as int] {
                    assert(classes[t] == earlier[t]);
                    if exists|k2: int| 0 <= k2 < k + 1 && sources[k2] == t {
                        let k2 = choose|k2: int| 0 <= k2 < k + 1 && sources[k2] == t;
                        assert(k2 < k);
                    }
                }
            }
        }
        k += 1;
    }
    proof {
        assert forall|t: int| 0 <= t < classes.len() implies ((#[trigger] classes[t])
            == NodeClass::Dynamic <==> a.exposes(t)) by {
            if a.exposes(t) {
                let k2 = choose|k2: int|
                    0 <= k2 < a.incoming(SENTINEL as int).len() && a.source_of(
                        #[trigger] a.incoming(SENTINEL as int)[k2],
                    ) == t;
                assert(sources[k2] == t);
            }
            if classes[t] == NodeClass::Dynamic {
                let k2 = choose|k2: int| 0 <= k2 < sources.len() && sources[k2] == t;
                assert(a.source_of(a.incoming(SENTINEL as int)[k2]) == t);
            }
        }
    }
    let mut k: usize = 0;
    while k < sources.len()
        invariant
            k <= sources.len(),
            asset.wf(),
            a == asset.authored(),
            classes.len() == count,
            count == asset.slots().len(),
            sources.len() == a.incoming(SENTINEL as int).len(),
            forall|k2: int|
                0 <= k2 < sources.len() ==> (#[trigger] sources[k2]) as int == a.source_of(
                    a.incoming(SENTINEL as int)[k2],
                ) && a.has_node(sources[k2] as int),
            forall|t: int|
                0 <= t < classes.len() ==> (#[trigger] classes[t]) == (if a.exposes(t) || exists|
                    k2: int,
                |
                    0 <= k2 < k && a.follows(sources[k2] as int, t) {
                    NodeClass::Dynamic
                } else {
                    NodeClass::Const
                }),
        decreases sources.len() - k,
    {
        let ghost earlier = classes@;
        mark_followers(&mut classes, asset, sources[k]);
        proof {
            assert forall|t: int| 0 <= t < classes.len() implies (#[trigger] classes[t]) == (
            if a.exposes(t) || exists|k2: int|
                0 <= k2 < k + 1 && a.follows(sources[k2] as int, t) {
                NodeClass::Dynamic
            } else {
                NodeClass::Const
            }) by {
                if a.follows(sources[k as int] as int, t) {
                    assert(0 <= k < k + 1 && a.follows(sources[k as int] as int, t));
                } else {
                    assert(classes[t] == earlier[t]);
                    if exists|k2: int| 0 <= k2 < k + 1 && a.follows(sources[k2] as int, t) {
                        let k2 = choose|k2: int|
                            0 <= k2 < k + 1 && a.follows(sources[k2] as int, t);
                        assert(k2 < k);
                    }
                }
            }
        }
        k += 1;
    }
    proof {
        assert forall|t: int| 0 <= t < classes.len() implies ((#[trigger] classes[t])
            == NodeClass::Dynamic <==> a.dynamic(t)) by {
            if a.dynamic(t) && !a.exposes(t) {
                let n = choose|n: int| a.exposes(n) && #[trigger] a.follows(n, t);
                let k2 = choose|k2: int|
                    0 <= k2 < a.incoming(SENTINEL as int).len() && a.source_of(
                        #[trigger] a.incoming(SENTINEL as int)[k2],
                    ) == n;
                assert(sources[k2] == n);
                assert(0 <= k2 < sources.len() && a.follows(sources[k2] as int, t));
            }
            if classes[t] == NodeClass::Dynamic && !a.exposes(t) {
                let k2 = choose|k2: int|
                    0 <= k2 < sources.len() && a.follows(sources[k2] as int, t);
                assert(a.source_of(a.incoming(SENTINEL as int)[k2]) == sources[k2]);
                assert(a.exposes(sources[k2] as int));
            }
        }
        assert forall|t: int| 0 <= t < classes.len() implies (#[trigger] classes[t]) == (
        if a.dynamic(t) {
            NodeClass::Dynamic
        } else {
            NodeClass::Const
        }) by {}
    }
    let mut s: usize = 0;
    while s < count
        invariant
            s <= count,
            asset.wf(),
            a == asset.authored(),
            classes.len() == count,
            count == asset.slots().len(),
            forall|t: int|
                0 <= t < classes.len() ==> (#[trigger] classes[t]) == (if a.dynamic(t) {
                    NodeClass::Dynamic
                } else if exists|s2: int|
                    0 <= s2 < s && a.dynamic(s2) && bfs_walk(topology_view(a.graph), s2).contains(t) {
                    NodeClass::Static
                } else {
                    NodeClass::Const
                }),
        decreases count - s,
    {
        let is_seed = match classes[s] {
            NodeClass::Dynamic => true,
            _ => false,
        };
        if is_seed {
            proof {
                lemma_dynamic_is_node(a, s as int);
            }
            let visited = topology_bfs(asset.graph_ref(), s as u16);
            let ghost walk = bfs_walk(topology_view(a.graph), s as int);
            let ghost before = classes@;
            let mut m: usize = 0;
            while m < visited.len()
                invariant
                    m <= visited.len(),
                    asset.wf(),
                    a == asset.authored(),
                    classes.len() == count,
                    count == asset.slots().len(),
                    s < count,
                    index_numbers(visited@) == walk,
                    walk == bfs_walk(topology_view(a.graph), s as int),
                    a.dynamic(s as int),
                    before.len() == count,
                    forall|t: int|
                        0 <= t < before.len() ==> (#[trigger] before[t]) == (if a.dynamic(t) {
                            NodeClass::Dynamic
                        } else if exists|s2: int|
                            0 <= s2 < s && a.dynamic(s2) && bfs_walk(topology_view(a.graph), s2).contains(t) {
                            NodeClass::Static
                        } else {
                            NodeClass::Const
                        }),
                    forall|i: int|
                        0 <= i < visited.len() ==> graph_nodes(a.graph).contains(
                            #[trigger] visited[i] as int,
                        ),
                    forall|t: int|
                        0 <= t < classes.len() ==> (#[trigger] classes[t]) == (if a.dynamic(t) {
                            NodeClass::Dynamic
                        } else if exists|m2: int| 0 <= m2 < m && walk[m2] == t {
                            NodeClass::Static
                        } else {
                            before[t]
                        }),
                decreases visited.len() - m,
            {
                let v: usize = visited[m] as usize;
                proof {
                    assert(index_numbers(visited@)[m as int] == v);
                    assert(topology_view(a.graph).nodes.contains(v as int));
                }
                let ghost earlier = classes@;
                let is_dynamic = match classes[v] {
                    NodeClass::Dynamic => true,
                    _ => false,
                };
                if !is_dynamic {
                    classes.set(v, NodeClass::Static);
                }
                proof {
                    assert forall|t: int| 0 <= t < classes.len() implies (#[trigger] classes[t])
                        == (if a.dynamic(t) {
                        NodeClass::Dynamic
                    } else if exists|m2: int| 0 <= m2 < m + 1 && walk[m2] == t {
                        NodeClass::Static
                    } else {
                        before[t]
                    }) by {
                        if t == v {
                            assert(walk[m as int] == t);
                        } else {
                            assert(classes[t] == earlier[t]);
                            if exists|m2: int| 0 <= m2 < m + 1 && walk[m2] == t {
                                let m2 = choose|m2: int| 0 <= m2 < m + 1 && walk[m2] == t;
                                assert(m2 < m);
                            }
                        }
                    }
                }
                m += 1;
            }
            proof {
                assert forall|t: int| 0 <= t < classes.len() implies (#[trigger] classes[t]) == (
                if a.dynamic(t) {
                    NodeClass::Dynamic
                } else if exists|s2: int|
                    0 <= s2 < s + 1 && a.dynamic(s2) && bfs_walk(topology_view(a.graph), s2).contains(t) {
                    NodeClass::Static
                } else {
                    NodeClass::Const
                }) by {
                    if !a.dynamic(t) {
                        if exists|m2: int| 0 <= m2 < visited.len() && walk[m2] == t {
                            let m2 = choose|m2: int| 0 <= m2 < visited.len() && walk[m2] == t;
                            assert(walk.contains(t));
                            assert(0 <= s < s + 1 && a.dynamic(s as int) && bfs_walk(topology_view(a.graph),
                                s as int,
                            ).contains(t));
                        } else {
                            if exists|s2: int|
                                0 <= s2 < s + 1 && a.dynamic(s2) && bfs_walk(topology_view(a.graph), s2).contains(
                                    t,
                                ) {
                                let s2 = choose|s2: int|
                                    0 <= s2 < s + 1 && a.dynamic(s2) && bfs_walk(topology_view(a.graph),
                                        s2,
                                    ).contains(t);
                                if s2 == s {
                                    let m2 = choose|m2: int|
                                        0 <= m2 < walk.len() && walk[m2] == t;
                                    assert(false);
                                }
                            }
                        }
                    }
                }
            }
        } else {
            proof {
                assert(!a.dynamic(s as int));
                assert forall|t: int| 0 <= t < classes.len() implies (#[trigger] classes[t]) == (
                if a.dynamic(t) {
                    NodeClass::Dynamic
                } else if exists|s2: int|
                    0 <= s2 < s + 1 && a.dynamic(s2) && bfs_walk(topology_view(a.graph), s2).contains(t) {
                    NodeClass::Static
                } else {
                    NodeClass::Const
                }) by {
                    if exists|s2: int|
                        0 <= s2 < s + 1 && a.dynamic(s2) && bfs_walk(topology_view(a.graph), s2).contains(t) {
                        let s2 = choose|s2: int|
                            0 <= s2 < s + 1 && a.dynamic(s2) && bfs_walk(topology_view(a.graph), s2).contains(t);
                        assert(s2 < s);
                    }
                }
            }
        }
        s += 1;
    }
    proof {
        assert forall|t: int| 0 <= t < classes.len() implies (#[trigger] classes[t]) == a.class_of(
            t,
        ) by {
            if !a.dynamic(t) {
                if a.downstream(t) {
                    let s2 = choose|s2: int|
                        a.dynamic(s2) && #[trigger] bfs_walk(topology_view(a.graph), s2).contains(t);
                    lemma_dynamic_is_node(a, s2);
                    assert(0 <= s2 < count && a.dynamic(s2) && bfs_walk(topology_view(a.graph), s2).contains(t));
                }
            }
        }
    }
    classes
}

/// A dynamic node is a node of the graph.
pub proof fn lemma_dynamic_is_node(a: Authored, t: int)
    requires
        a.wf(),
        a.dynamic(t),
    ensures
        a.has_node(t),
        0 <= t < a.slots.len(),
{
    let g = topology_view(a.graph);
    if a.exposes(t) {
        let k = choose|k: int|
            0 <= k < a.incoming(SENTINEL as int).len() && a.source_of(
                #[trigger] a.incoming(SENTINEL as int)[k],
            ) == t;
        assert(g.edges.contains_key(g.incoming[SENTINEL as int][k]));
    } else {
        let n = choose|n: int| a.exposes(n) && #[trigger] a.follows(n, t);
        let k = choose|k: int|
            0 <= k < a.incoming(SENTINEL as int).len() && a.source_of(
                #[trigger] a.incoming(SENTINEL as int)[k],
            ) == n;
        assert(g.edges.contains_key(g.incoming[SENTINEL as int][k]));
        assert(g.nodes.contains(n));
        let (i, j) = choose|i: int, j: int| #[trigger] a.follows_at(n, i, j, t);
        assert(g.edges.contains_key(g.outgoing[n][j]));
    }
}


/// Why a graph cannot be compiled.
#[derive(Clone, Copy, PartialEq, Eq, Debug, Structural)]
pub enum CompileError {
    /// Among the nodes that are computed once there is a cycle.
    Cycle,
    /// The node has an incoming edge whose source has no first output to give.
    MissingInput(NodeIndex),
    /// The node's operation computed nothing; the second field says why.
    Operation(NodeIndex, OperationError),
    /// The edge ends at the sentinel, but exposes no property.
    NotExposed(EdgeIndex),
    /// The node does not describe the property that an edge exposes.
    UnknownProperty(NodeIndex),
    /// A connection into an output starts at a port that the node does not have.
    UnknownPort(NodeIndex),
}

/// What each place of a cache holds, for the places that hold something.
pub open spec fn cache_view(cache: Seq<Option<Vec<DataTypeInstance>>>) -> Map<int, Seq<ValueView>> {
    Map::new(
        |n: int| 0 <= n < cache.len() && cache[n] is Some,
        |n: int| value_views(cache[n]->Some_0@),
    )
}

/// How many places the mask marks.
pub open spec fn count_marked(mask: Seq<bool>) -> nat
    decreases mask.len(),
{
    if mask.len() == 0 {
        0
    } else {
        count_marked(mask.drop_last()) + if mask.last() {
            1nat
        } else {
            0nat
        }
    }
}

impl Authored {
    /// The node is computed once, when the graph is compiled: it is there,
    /// it is not dynamic, it is no output and it is not the sentinel.
    pub open spec fn evaluable(self, n: int) -> bool {
        &&& 0 <= n < self.slots.len()
        &&& self.slots[n] is Some
        &&& !self.dynamic(n)
        &&& !(self.node_of(n) is SocketOutput)
        &&& n != SENTINEL
    }

    /// For every place of the graph, whether its node is computed once.
    pub open spec fn evaluation_mask(self) -> Seq<bool> {
        Seq::new(self.slots.len(), |n: int| self.evaluable(n))
    }

    /// The order in which the nodes that are computed once are visited.
    pub open spec fn evaluation_order(self) -> Seq<int> {
        topo_walk(topology_view(self.graph), self.evaluation_mask())
    }

    /// The inputs that a node gets over the given edges: for each edge the
    /// first output that the cache holds for the edge's source. If the cache
    /// holds none for one of them, there are no inputs.
    pub open spec fn gathered(self, cache: Map<int, Seq<ValueView>>, edges: Seq<int>) -> Option<
        Seq<ValueView>,
    >
        decreases edges.len(),
    {
        if edges.len() == 0 {
            Some(Seq::empty())
        } else {
            match self.gathered(cache, edges.drop_last()) {
                None => None,
                Some(front) => {
                    let source = self.source_of(edges.last());
                    if cache.contains_key(source) && cache[source].len() > 0 {
                        Some(front.push(cache[source][0]))
                    } else {
                        None
                    }
                },
            }
        }
    }

    /// The cache after the nodes were computed in the given order, each from
    /// the first outputs of the sources of its incoming edges, in the graph's
    /// order; or the reason why the first node that could not be computed
    /// could not.
    pub open spec fn folded(self, order: Seq<int>) -> Result<Map<int, Seq<ValueView>>, CompileError>
        decreases order.len(),
    {
        if order.len() == 0 {
            Ok(Map::empty())
        } else {
            match self.folded(order.drop_last()) {
                Err(e) => Err(e),
                Ok(cache) => {
                    let n = order.last();
                    match self.gathered(cache, self.incoming(n)) {
                        None => Err(CompileError::MissingInput(NodeIndex(n as u16))),
                        Some(inputs) => match self.node_of(n).computed(inputs) {
                            Err(e) => Err(CompileError::Operation(NodeIndex(n as u16), e)),
                            Ok(outputs) => Ok(cache.insert(n, outputs)),
                        },
                    }
                },
            }
        }
    }

    /// What the nodes that are computed once give: for each of them its
    /// outputs. A cycle among them is an error, and so is a node that cannot
    /// be computed.
    pub open spec fn constants(self) -> Result<Map<int, Seq<ValueView>>, CompileError> {
        if self.evaluation_order().len() != count_marked(self.evaluation_mask()) {
            Err(CompileError::Cycle)
        } else {
            self.folded(self.evaluation_order())
        }
    }
}

/// If the edges up to some place give no inputs, neither do all of them.
pub proof fn lemma_gathered_fails_on(
    a: Authored,
    cache: Map<int, Seq<ValueView>>,
    edges: Seq<int>,
    k: int,
)
    requires
        0 <= k <= edges.len(),
        a.gathered(cache, edges.take(k)) is None,
    ensures
        a.gathered(cache, edges) is None,
    decreases edges.len() - k,
{
    if k == edges.len() {
        assert(edges.take(k) == edges);
    } else {
        assert(edges.take(k + 1).drop_last() == edges.take(k));
        lemma_gathered_fails_on(a, cache, edges, k + 1);
    }
}

/// If the nodes up to some place cannot all be computed, neither can all of them.
pub proof fn lemma_folded_fails_on(a: Authored, order: Seq<int>, k: int, e: CompileError)
    requires
        0 <= k <= order.len(),
        a.folded(order.take(k)) == Err::<Map<int, Seq<ValueView>>, CompileError>(e),
    ensures
        a.folded(order) == Err::<Map<int, Seq<ValueView>>, CompileError>(e),
    decreases order.len() - k,
{
    if k == order.len() {
        assert(order.take(k) == order);
    } else {
        assert(order.take(k + 1).drop_last() == order.take(k));
        lemma_folded_fails_on(a, order, k + 1, e);
    }
}

/// Collects the inputs of a node from the cache: for each incoming edge, in
/// the graph's order, the first output of the edge's source.
pub fn gather_inputs<'a>(
    asset: &Asset,
    cache: &'a Vec<Option<Vec<DataTypeInstance>>>,
    n: u16,
) -> (r: Option<Vec<&'a DataTypeInstance>>)
    requires
        asset.wf(),
        asset.authored().has_node(n as int),
    ensures
        match r {
            Some(inputs) => asset.authored().gathered(
                cache_view(cache@),
                asset.authored().incoming(n as int),
            ) == Some(borrowed_views(inputs@)),
            None => asset.authored().gathered(
                cache_view(cache@),
                asset.authored().incoming(n as int),
            ) is None,
        },
{
    let ghost a = asset.authored();
    let ghost held = cache_view(cache@);
    let incoming = topology_incoming(asset.graph_ref(), n);
    let ghost edges = a.incoming(n as int);
    let mut inputs: Vec<&'a DataTypeInstance> = Vec::new();
    let mut k: usize = 0;
    while k < incoming.len()
        invariant
            k <= incoming.len(),
            asset.wf(),
            a == asset.authored(),
            a.has_node(n as int),
            held == cache_view(cache@),
            edges == a.incoming(n as int),
            index_numbers(incoming@) == edges,
            a.gathered(held, edges.take(k as int)) == Some(borrowed_views(inputs@)),
        decreases incoming.len() - k,
    {
        let e: u16 = incoming[k];
        proof {
            assert(index_numbers(incoming@)[k as int] == e);
            let g = topology_view(a.graph);
            assert(g.nodes.contains(n as int));
            assert(g.edges.contains_key(g.incoming[n as int][k as int]));
            assert(edges.take(k + 1).drop_last() == edges.take(k as int));
            assert(edges.take(k + 1).last() == e);
        }
        let source: usize = match topology_edge_endpoints(asset.graph_ref(), e) {
            Some((from, _)) => from as usize,
            None => {
                proof {
                    assert(false);
                }
                return None;
            },
        };
        let ghost before = borrowed_views(inputs@);
        let mut found = false;
        if source < cache.len() {
            match &cache[source] {
                Some(values) => {
                    if values.len() > 0 {
                        inputs.push(&values[0]);
                        found = true;
                        proof {
                            assert(held[source as int] == value_views(values@));
                            assert(borrowed_views(inputs@) =~= before.push(held[source as int][0]));
                        }
                    }
                },
                None => {},
            }
        }
        if !found {
            proof {
                assert(a.gathered(held, edges.take(k + 1)) is None);
                lemma_gathered_fails_on(a, held, edges, k + 1);
            }
            return None;
        }
        k += 1;
    }
    proof {
        assert(edges.take(k as int) == edges);
    }
    Some(inputs)
}

/// Computes the nodes in the given order, each from what the nodes before it
/// gave, and keeps what each gives under the node's index.
pub fn evaluate_in_order(asset: &Asset, order: &Vec<u16>) -> (r: Result<
    Vec<Option<Vec<DataTypeInstance>>>,
    CompileError,
>)
    requires
        asset.wf(),
        forall|i: int| 0 <= i < order.len() ==> asset.authored().has_node(#[trigger] order[i] as int),
    ensures
        match r {
            Ok(cache) => cache.len() == asset.slots().len() && asset.authored().folded(
                index_numbers(order@),
            ) == Ok::<Map<int, Seq<ValueView>>, CompileError>(cache_view(cache@)),
            Err(e) => asset.authored().folded(index_numbers(order@)) == Err::<
                Map<int, Seq<ValueView>>,
                CompileError,
            >(e),
        },
{
    let ghost a = asset.authored();
    let ghost numbers = index_numbers(order@);
    let count: usize = asset.slot_count();
    let mut cache: Vec<Option<Vec<DataTypeInstance>>> = Vec::new();
    while cache.len() < count
        invariant
            cache.len() <= count,
            forall|n: int| 0 <= n < cache.len() ==> (#[trigger] cache[n]) is None,
        decreases count - cache.len(),
    {
        cache.push(None);
    }
    proof {
        assert(cache_view(cache@) =~= Map::empty());
    }
    let mut i: usize = 0;
    while i < order.len()
        invariant
            i <= order.len(),
            asset.wf(),
            a == asset.authored(),
            numbers == index_numbers(order@),
            cache.len() == count,
            count == asset.slots().len(),
            forall|j: int| 0 <= j < order.len() ==> a.has_node(#[trigger] order[j] as int),
            a.folded(numbers.take(i as int)) == Ok::<Map<int, Seq<ValueView>>, CompileError>(
                cache_view(cache@),
            ),
        decreases order.len() - i,
    {
        let n: u16 = order[i];
        proof {
            assert(numbers.take(i + 1).drop_last() == numbers.take(i as int));
            assert(numbers.take(i + 1).last() == n);
            assert(a.has_node(order[i as int] as int));
            assert(topology_view(a.graph).nodes.contains(n as int));
        }
        let outputs = match gather_inputs(asset, &cache, n) {
            None => {
                proof {
                    lemma_folded_fails_on(
                        a,
                        numbers,
                        i + 1,
                        CompileError::MissingInput(NodeIndex(n)),
                    );
                }
                return Err(CompileError::MissingInput(NodeIndex(n)));
            },
            Some(inputs) => {
                let slot = match asset.slot_at(n as usize) {
                    Some(slot) => slot,
                    None => {
                        proof {
                            assert(false);
                        }
                        return Err(CompileError::Cycle);
                    },
                };
                match slot.node.compute(inputs) {
                    Ok(outputs) => outputs,
                    Err(e) => {
                        proof {
                            lemma_folded_fails_on(
                                a,
                                numbers,
                                i + 1,
                                CompileError::Operation(NodeIndex(n), e),
                            );
                        }
                        return Err(CompileError::Operation(NodeIndex(n), e));
                    },
                }
            },
        };
        let ghost before = cache_view(cache@);
        let ghost given = value_views(outputs@);
        cache.set(n as usize, Some(outputs));
        proof {
            assert(cache_view(cache@) =~= before.insert(n as int, given));
        }
        i += 1;
    }
    proof {
        assert(numbers.take(i as int) == numbers);
    }
    Ok(cache)
}

/// For every place of the graph, whether its node is computed once.
pub fn evaluation_mask(asset: &Asset, classes: &Vec<NodeClass>) -> (mask: Vec<bool>)
    requires
        asset.wf(),
        classes.len() == asset.slots().len(),
        forall|t: int|
            0 <= t < classes.len() ==> (#[trigger] classes[t]) == asset.authored().class_of(t),
    ensures
        mask@ == asset.authored().evaluation_mask(),
{
    let ghost a = asset.authored();
    let count: usize = asset.slot_count();
    let mut mask: Vec<bool> = Vec::new();
    let mut n: usize = 0;
    while n < count
        invariant
            n <= count,
            count == asset.slots().len(),
            classes.len() == count,
            a == asset.authored(),
            forall|t: int| 0 <= t < classes.len() ==> (#[trigger] classes[t]) == a.class_of(t),
            mask.len() == n,
            forall|m: int| 0 <= m < n ==> (#[trigger] mask[m]) == a.evaluable(m),
        decreases count - n,
    {
        let is_dynamic = match classes[n] {
            NodeClass::Dynamic => true,
            _ => false,
        };
        proof {
            assert(classes[n as int] == a.class_of(n as int));
        }
        let evaluable = match asset.slot_at(n) {
            Some(slot) => !is_dynamic && !slot.node.is_output_node() && n != SENTINEL as usize,
            None => false,
        };
        mask.push(evaluable);
        n += 1;
    }
    proof {
        assert(mask@ =~= a.evaluation_mask());
    }
    mask
}

/// How many places the mask marks.
pub fn marked_count(mask: &Vec<bool>) -> (count: usize)
    ensures
        count == count_marked(mask@),
{
    let mut count: usize = 0;
    let mut n: usize = 0;
    while n < mask.len()
        invariant
            n <= mask.len(),
            count <= n,
            count == count_marked(mask@.take(n as int)),
        decreases mask.len() - n,
    {
        proof {
            assert(mask@.take(n + 1).drop_last() == mask@.take(n as int));
            assert(mask@.take(n + 1).last() == mask[n as int]);
        }
        if mask[n] {
            count += 1;
        }
        n += 1;
    }
    proof {
        assert(mask@.take(n as int) == mask@);
    }
    count
}

/// Computes every node that is computed once. What the graph's topological
/// walk visits is computed in the walk's order; if the walk leaves a node
/// out, the nodes form a cycle.
pub fn evaluate_constants(asset: &Asset, classes: &Vec<NodeClass>) -> (r: Result<
    Vec<Option<Vec<DataTypeInstance>>>,
    CompileError,
>)
    requires
        asset.wf(),
        classes.len() == asset.slots().len(),
        forall|t: int|
            0 <= t < classes.len() ==> (#[trigger] classes[t]) == asset.authored().class_of(t),
    ensures
        match r {
            Ok(cache) => cache.len() == asset.slots().len() && asset.authored().constants() == Ok::<
                Map<int, Seq<ValueView>>,
                CompileError,
            >(cache_view(cache@)) && forall|n: int| #[trigger]
                cache_view(cache@).contains_key(n) ==> asset.authored().evaluable(n) && types_of(
                    cache_view(cache@)[n],
                ) == asset.authored().node_of(n).output_sockets(),
            Err(e) => asset.authored().constants() == Err::<
                Map<int, Seq<ValueView>>,
                CompileError,
            >(e),
        },
{
    let mask = evaluation_mask(asset, classes);
    let order = topology_topo(asset.graph_ref(), &mask);
    if order.len() != marked_count(&mask) {
        return Err(CompileError::Cycle);
    }
    let r = evaluate_in_order(asset, &order);
    proof {
        let a = asset.authored();
        if r is Ok {
            let held = cache_view(r->Ok_0@);
            assert forall|n: int| #[trigger] held.contains_key(n) implies a.evaluable(n)
                && types_of(held[n]) == a.node_of(n).output_sockets() by {
                lemma_folded_keys(a, index_numbers(order@), n);
                let i = choose|i: int|
                    0 <= i < order.len() && index_numbers(order@)[i] == n;
                assert(order[i] == n);
                assert(mask[order[i] as int]);
                assert(a.evaluation_mask()[n] == a.evaluable(n));
            }
        }
    }
    r
}

/// What the cache holds after the nodes were computed in some order, it holds
/// for nodes of that order, and for each of them values of the types of the
/// node's output sockets.
pub proof fn lemma_folded_keys(a: Authored, order: Seq<int>, n: int)
    requires
        a.folded(order) is Ok,
        a.folded(order)->Ok_0.contains_key(n),
    ensures
        order.contains(n),
        types_of(a.folded(order)->Ok_0[n]) == a.node_of(n).output_sockets(),
    decreases order.len(),
{
    if order.len() > 0 {
        let front = order.drop_last();
        let last = order.last();
        let before = a.folded(front)->Ok_0;
        let inputs = a.gathered(before, a.incoming(last))->Some_0;
        if n == last {
            assert(order[order.len() - 1] == n);
            crate::operations::lemma_computed_types(a.node_of(last), inputs);
        } else {
            assert(before.contains_key(n));
            lemma_folded_keys(a, front, n);
            let i = choose|i: int| 0 <= i < front.len() && front[i] == n;
            assert(order[i] == n);
        }
    }
}

/// Every wire that the connections among the edges stand for starts at a
/// port that its node has, and has the type of that port.
pub proof fn lemma_wires_into_sound(a: Authored, edges: Seq<int>, k: int)
    requires
        a.wf(),
        forall|i: int| 0 <= i < edges.len() ==> graph_edges(a.graph).contains_key(#[trigger] edges[i]),
        a.wires_into(edges) is Ok,
        0 <= k < a.wires_into(edges)->Ok_0.len(),
    ensures
        a.wire_sound(a.wires_into(edges)->Ok_0[k]),
    decreases edges.len(),
{
    if edges.len() > 0 {
        let front = edges.drop_last();
        assert forall|i: int| 0 <= i < front.len() implies graph_edges(a.graph).contains_key(
            #[trigger] front[i],
        ) by {
            assert(front[i] == edges[i]);
        }
        let before = a.wires_into(front)->Ok_0;
        if k < before.len() {
            lemma_wires_into_sound(a, front, k);
        } else {
            let e = edges.last();
            assert(edges[edges.len() - 1] == e);
            let g = topology_view(a.graph);
            assert(g.edges.contains_key(e));
            assert(g.nodes.contains(g.edges[e].0));
            assert(a.slots[a.source_of(e)] is Some);
        }
    }
}

/// Every wire that the graph hands out starts at a port that its node has,
/// and has the type of that port.
pub proof fn lemma_wires_sound(a: Authored, upto: int, k: int)
    requires
        a.wf(),
        upto <= a.slots.len(),
        a.wires_of_sinks(upto) is Ok,
        0 <= k < a.wires_of_sinks(upto)->Ok_0.len(),
    ensures
        a.wire_sound(a.wires_of_sinks(upto)->Ok_0[k]),
    decreases upto,
{
    if upto > 0 {
        let before = a.wires_of_sinks(upto - 1)->Ok_0;
        if k < before.len() {
            lemma_wires_sound(a, upto - 1, k);
        } else {
            let n = upto - 1;
            let g = topology_view(a.graph);
            assert(a.is_sink(n));
            assert(g.nodes.contains(n));
            assert forall|i: int| 0 <= i < a.incoming(n).len() implies graph_edges(
                a.graph,
            ).contains_key(#[trigger] a.incoming(n)[i]) by {
                assert(g.edges.contains_key(g.incoming[n][i]));
            }
            lemma_wires_into_sound(a, a.incoming(n), k - before.len());
        }
    }
}


/// An exposed property as the compiled graph knows it.
pub struct ExposedView {
    /// The property's description, under the name it is exposed by.
    pub meta: PropertyMetadataView,
    /// The name it is exposed by.
    pub name: Seq<char>,
    /// The node that holds the property.
    pub node: int,
    /// The property's own name at that node.
    pub property: Seq<char>,
}

/// One of the values that a compiled graph hands out: the node that gives
/// it, the port at which it does, and the value's type.
pub type Wire = (NodeIndex, u8, DataTypeType);

/// The first of the descriptions, from place `from` on, that has the name.
pub open spec fn described_as(
    descriptions: Seq<PropertyMetadataView>,
    name: Seq<char>,
    from: int,
) -> Option<PropertyMetadataView>
    decreases descriptions.len() - from,
{
    if from < 0 || from >= descriptions.len() {
        None
    } else if descriptions[from].name == Some(name) {
        Some(descriptions[from])
    } else {
        described_as(descriptions, name, from + 1)
    }
}

impl Authored {
    /// What the edge exposes: the description of the property at the edge's
    /// source, under the name that the edge gives it.
    pub open spec fn exposure(self, e: int) -> Result<ExposedView, CompileError> {
        let d = self.dependency_of(e);
        let source = self.source_of(e);
        if !d.is_exposed() {
            Err(CompileError::NotExposed(EdgeIndex(e as u16)))
        } else {
            match described_as(self.node_of(source).described(), d.target_property(), 0) {
                None => Err(CompileError::UnknownProperty(NodeIndex(source as u16))),
                Some(meta) => Ok(
                    ExposedView {
                        meta: PropertyMetadataView { name: Some(d.exposed_name()), ..meta },
                        name: d.exposed_name(),
                        node: source,
                        property: d.target_property(),
                    },
                ),
            }
        }
    }

    /// What the edges expose, one entry for each edge, or the reason why the
    /// first edge that exposes nothing does not.
    pub open spec fn exposures(self, edges: Seq<int>) -> Result<Seq<ExposedView>, CompileError>
        decreases edges.len(),
    {
        if edges.len() == 0 {
            Ok(Seq::empty())
        } else {
            match self.exposures(edges.drop_last()) {
                Err(e) => Err(e),
                Ok(front) => match self.exposure(edges.last()) {
                    Err(e) => Err(e),
                    Ok(entry) => Ok(front.push(entry)),
                },
            }
        }
    }

    /// The exposed properties of the graph: one for each edge into the
    /// sentinel, in the graph's order.
    pub open spec fn exposed(self) -> Result<Seq<ExposedView>, CompileError> {
        self.exposures(self.incoming(SENTINEL as int))
    }

    /// The node is an output that nothing leaves.
    pub open spec fn is_sink(self, n: int) -> bool {
        &&& 0 <= n < self.slots.len()
        &&& self.slots[n] is Some
        &&& self.node_of(n) is SocketOutput
        &&& self.outgoing(n).len() == 0
    }

    /// The wires that the connections among the edges stand for: for each
    /// connection its source, the port it starts at, and the type of that
    /// port. A port that the source does not have is an error.
    pub open spec fn wires_into(self, edges: Seq<int>) -> Result<Seq<Wire>, CompileError>
        decreases edges.len(),
    {
        if edges.len() == 0 {
            Ok(Seq::empty())
        } else {
            match self.wires_into(edges.drop_last()) {
                Err(e) => Err(e),
                Ok(front) => {
                    let d = self.dependency_of(edges.last());
                    let source = self.source_of(edges.last());
                    if d is Connection {
                        let port = d->Connection_0;
                        let sockets = self.node_of(source).output_sockets();
                        if port < sockets.len() {
                            Ok(front.push((NodeIndex(source as u16), port, sockets[port as int])))
                        } else {
                            Err(CompileError::UnknownPort(NodeIndex(source as u16)))
                        }
                    } else {
                        Ok(front)
                    }
                },
            }
        }
    }

    /// The wires into the sinks among the first `upto` places of the graph,
    /// sink by sink in ascending order.
    pub open spec fn wires_of_sinks(self, upto: int) -> Result<Seq<Wire>, CompileError>
        decreases upto,
    {
        if upto <= 0 {
            Ok(Seq::empty())
        } else {
            match self.wires_of_sinks(upto - 1) {
                Err(e) => Err(e),
                Ok(front) => if self.is_sink(upto - 1) {
                    match self.wires_into(self.incoming(upto - 1)) {
                        Err(e) => Err(e),
                        Ok(wires) => Ok(front + wires),
                    }
                } else {
                    Ok(front)
                },
            }
        }
    }

    /// The wire starts at a node of the graph, at a port that the node has,
    /// and has the type of that port.
    pub open spec fn wire_sound(self, wire: Wire) -> bool {
        let n = wire.0.0 as int;
        &&& 0 <= n < self.slots.len()
        &&& self.slots[n] is Some
        &&& wire.1 < self.node_of(n).output_sockets().len()
        &&& wire.2 == self.node_of(n).output_sockets()[wire.1 as int]
    }

    /// What the graph hands out.
    pub open spec fn outputs(self) -> Result<Seq<Wire>, CompileError> {
        self.wires_of_sinks(self.slots.len() as int)
    }

    /// Why the graph cannot be compiled, if it cannot: the first thing that
    /// goes wrong when the constants are computed, then when the exposed
    /// properties are looked up, then when the outputs are collected.
    pub open spec fn failure(self) -> Option<CompileError> {
        match self.constants() {
            Err(e) => Some(e),
            Ok(_) => match self.exposed() {
                Err(e) => Some(e),
                Ok(_) => match self.outputs() {
                    Err(e) => Some(e),
                    Ok(_) => None,
                },
            },
        }
    }
}

/// If the edges up to some place do not all expose something, neither do all of them.
pub proof fn lemma_exposures_fail_on(a: Authored, edges: Seq<int>, k: int, e: CompileError)
    requires
        0 <= k <= edges.len(),
        a.exposures(edges.take(k)) == Err::<Seq<ExposedView>, CompileError>(e),
    ensures
        a.exposures(edges) == Err::<Seq<ExposedView>, CompileError>(e),
    decreases edges.len() - k,
{
    if k == edges.len() {
        assert(edges.take(k) == edges);
    } else {
        assert(edges.take(k + 1).drop_last() == edges.take(k));
        lemma_exposures_fail_on(a, edges, k + 1, e);
    }
}

/// If the edges up to some place give no wires, neither do all of them.
pub proof fn lemma_wires_fail_on(a: Authored, edges: Seq<int>, k: int, e: CompileError)
    requires
        0 <= k <= edges.len(),
        a.wires_into(edges.take(k)) == Err::<Seq<Wire>, CompileError>(e),
    ensures
        a.wires_into(edges) == Err::<Seq<Wire>, CompileError>(e),
    decreases edges.len() - k,
{
    if k == edges.len() {
        assert(edges.take(k) == edges);
    } else {
        assert(edges.take(k + 1).drop_last() == edges.take(k));
        lemma_wires_fail_on(a, edges, k + 1, e);
    }
}

/// If the sinks among the first places give no wires, neither do all of them.
pub proof fn lemma_sinks_fail_on(a: Authored, upto: int, k: int, e: CompileError)
    requires
        0 <= k <= upto,
        a.wires_of_sinks(k) == Err::<Seq<Wire>, CompileError>(e),
    ensures
        a.wires_of_sinks(upto) == Err::<Seq<Wire>, CompileError>(e),
    decreases upto - k,
{
    if k < upto {
        lemma_sinks_fail_on(a, upto, k + 1, e);
    }
}

/// The first of the descriptions that has the name.
pub fn find_description<'a>(descriptions: &'a Vec<PropertyMetadata>, name: &str) -> (found: Option<
    &'a PropertyMetadata,
>)
    ensures
        match found {
            Some(meta) => described_as(metadata_views(descriptions@), name@, 0) == Some(meta@),
            None => described_as(metadata_views(descriptions@), name@, 0) is None,
        },
{
    let ghost views = metadata_views(descriptions@);
    let mut k: usize = 0;
    while k < descriptions.len()
        invariant
            k <= descriptions.len(),
            views == metadata_views(descriptions@),
            described_as(views, name@, 0) == described_as(views, name@, k as int),
        decreases descriptions.len() - k,
    {
        let named = match descriptions[k].name_or_none() {
            Some(n) => same_text(n, name),
            None => false,
        };
        if named {
            return Some(&descriptions[k]);
        }
        k += 1;
    }
    None
}

/// What the graph exposes, in two lists of the same length: the description
/// of each property, and under which name it is found at which node.
pub fn collect_exposed(asset: &Asset) -> (r: Result<
    (Vec<PropertyMetadata>, Vec<(String, NodeIndex, String)>),
    CompileError,
>)
    requires
        asset.wf(),
    ensures
        match r {
            Ok((metas, index)) => asset.authored().exposed() == Ok::<Seq<ExposedView>, CompileError>(
                exposed_views(metas@, index@),
            ) && metas.len() == index.len(),
            Err(e) => asset.authored().exposed() == Err::<Seq<ExposedView>, CompileError>(e),
        },
{
    let ghost a = asset.authored();
    let incoming = topology_incoming(asset.graph_ref(), SENTINEL);
    let ghost edges = a.incoming(SENTINEL as int);
    let mut metas: Vec<PropertyMetadata> = Vec::new();
    let mut index: Vec<(String, NodeIndex, String)> = Vec::new();
    let mut k: usize = 0;
    proof {
        assert(exposed_views(metas@, index@) =~= Seq::empty());
    }
    while k < incoming.len()
        invariant
            k <= incoming.len(),
            asset.wf(),
            a == asset.authored(),
            edges == a.incoming(SENTINEL as int),
            index_numbers(incoming@) == edges,
            metas.len() == index.len(),
            a.exposures(edges.take(k as int)) == Ok::<Seq<ExposedView>, CompileError>(
                exposed_views(metas@, index@),
            ),
        decreases incoming.len() - k,
    {
        let e: u16 = incoming[k];
        proof {
            assert(index_numbers(incoming@)[k as int] == e);
            let g = topology_view(a.graph);
            assert(g.edges.contains_key(g.incoming[SENTINEL as int][k as int]));
            assert(g.nodes.contains(g.edges[e as int].0));
            assert(edges.take(k + 1).drop_last() == edges.take(k as int));
            assert(edges.take(k + 1).last() == e);
            assert(a.dependencies[e as int] is Some);
        }
        let dependency = match asset.dependency_at(e as usize) {
            Some(d) => d,
            None => {
                proof {
                    assert(false);
                }
                return Err(CompileError::NotExposed(EdgeIndex(e)));
            },
        };
        let source: u16 = match topology_edge_endpoints(asset.graph_ref(), e) {
            Some((from, _)) => from,
            None => {
                proof {
                    assert(false);
                }
                return Err(CompileError::NotExposed(EdgeIndex(e)));
            },
        };
        if !dependency.is_exposed() {
            proof {
                lemma_exposures_fail_on(a, edges, k + 1, CompileError::NotExposed(EdgeIndex(e)));
            }
            return Err(CompileError::NotExposed(EdgeIndex(e)));
        }
        let slot = match asset.slot_at(source as usize) {
            Some(slot) => slot,
            None => {
                proof {
                    assert(false);
                }
                return Err(CompileError::NotExposed(EdgeIndex(e)));
            },
        };
        let descriptions = slot.node.get_properties();
        let mut meta = match find_description(&descriptions, dependency.get_target_property()) {
            Some(meta) => meta.clone(),
            None => {
                proof {
                    lemma_exposures_fail_on(
                        a,
                        edges,
                        k + 1,
                        CompileError::UnknownProperty(NodeIndex(source)),
                    );
                }
                return Err(CompileError::UnknownProperty(NodeIndex(source)));
            },
        };
        meta.set_name(dependency.get_exposed_name());
        let ghost before = exposed_views(metas@, index@);
        let name = String::from_str(dependency.get_exposed_name());
        let property = String::from_str(dependency.get_target_property());
        let ghost entry = ExposedView {
            meta: meta@,
            name: name@,
            node: source as int,
            property: property@,
        };
        metas.push(meta);
        index.push((name, NodeIndex(source), property));
        proof {
            assert(exposed_views(metas@, index@) =~= before.push(entry));
        }
        k += 1;
    }
    proof {
        assert(edges.take(k as int) == edges);
    }
    Ok((metas, index))
}

/// The exposed properties that the two lists of a compiled graph stand for.
pub open spec fn exposed_views(
    metas: Seq<PropertyMetadata>,
    index: Seq<(String, NodeIndex, String)>,
) -> Seq<ExposedView> {
    Seq::new(
        metas.len(),
        |k: int|
            ExposedView {
                meta: metas[k]@,
                name: index[k].0@,
                node: index[k].1.0 as int,
                property: index[k].2@,
            },
    )
}

/// The wires that the connections into a node stand for.
pub fn collect_wires_into(asset: &Asset, n: u16) -> (r: Result<Vec<Wire>, CompileError>)
    requires
        asset.wf(),
        asset.authored().has_node(n as int),
    ensures
        match r {
            Ok(wires) => asset.authored().wires_into(asset.authored().incoming(n as int)) == Ok::<
                Seq<Wire>,
                CompileError,
            >(wires@),
            Err(e) => asset.authored().wires_into(asset.authored().incoming(n as int)) == Err::<
                Seq<Wire>,
                CompileError,
            >(e),
        },
{
    let ghost a = asset.authored();
    let incoming = topology_incoming(asset.graph_ref(), n);
    let ghost edges = a.incoming(n as int);
    let mut wires: Vec<Wire> = Vec::new();
    let mut k: usize = 0;
    while k < incoming.len()
        invariant
            k <= incoming.len(),
            asset.wf(),
            a == asset.authored(),
            a.has_node(n as int),
            edges == a.incoming(n as int),
            index_numbers(incoming@) == edges,
            a.wires_into(edges.take(k as int)) == Ok::<Seq<Wire>, CompileError>(wires@),
        decreases incoming.len() - k,
    {
        let e: u16 = incoming[k];
        proof {
            assert(index_numbers(incoming@)[k as int] == e);
            let g = topology_view(a.graph);
            assert(g.nodes.contains(n as int));
            assert(g.edges.contains_key(g.incoming[n as int][k as int]));
            assert(g.nodes.contains(g.edges[e as int].0));
            assert(edges.take(k + 1).drop_last() == edges.take(k as int));
            assert(edges.take(k + 1).last() == e);
            assert(a.dependencies[e as int] is Some);
        }
        let dependency = match asset.dependency_at(e as usize) {
            Some(d) => d,
            None => {
                proof {
                    assert(false);
                }
                return Err(CompileError::NotExposed(EdgeIndex(e)));
            },
        };
        if dependency.is_connection() {
            let source: u16 = match topology_edge_endpoints(asset.graph_ref(), e) {
                Some((from, _)) => from,
                None => {
                    proof {
                        assert(false);
                    }
                    return Err(CompileError::NotExposed(EdgeIndex(e)));
                },
            };
            let slot = match asset.slot_at(source as usize) {
                Some(slot) => slot,
                None => {
                    proof {
                        assert(false);
                    }
                    return Err(CompileError::NotExposed(EdgeIndex(e)));
                },
            };
            let port: u8 = dependency.port_from();
            let sockets = slot.node.get_output_sockets();
            if (port as usize) < sockets.len() {
                wires.push((NodeIndex(source), port, sockets[port as usize]));
            } else {
                proof {
                    lemma_wires_fail_on(
                        a,
                        edges,
                        k + 1,
                        CompileError::UnknownPort(NodeIndex(source)),
                    );
                }
                return Err(CompileError::UnknownPort(NodeIndex(source)));
            }
        }
        k += 1;
    }
    proof {
        assert(edges.take(k as int) == edges);
    }
    Ok(wires)
}

/// What the graph hands out: the wires into every output that nothing
/// leaves, output by output in ascending order.
pub fn collect_outputs(asset: &Asset) -> (r: Result<Vec<Wire>, CompileError>)
    requires
        asset.wf(),
    ensures
        match r {
            Ok(wires) => asset.authored().outputs() == Ok::<Seq<Wire>, CompileError>(wires@),
            Err(e) => asset.authored().outputs() == Err::<Seq<Wire>, CompileError>(e),
        },
{
    let ghost a = asset.authored();
    let count: usize = asset.slot_count();
    let mut wires: Vec<Wire> = Vec::new();
    let mut n: usize = 0;
    while n < count
        invariant
            n <= count,
            asset.wf(),
            a == asset.authored(),
            count == asset.slots().len(),
            a.wires_of_sinks(n as int) == Ok::<Seq<Wire>, CompileError>(wires@),
        decreases count - n,
    {
        let is_output = match asset.slot_at(n) {
            Some(slot) => slot.node.is_output_node(),
            None => false,
        };
        if is_output {
            proof {
                assert(topology_view(a.graph).nodes.contains(n as int));
            }
            let outgoing = topology_outgoing(asset.graph_ref(), n as u16);
            proof {
                assert(index_numbers(outgoing@).len() == outgoing.len());
            }
            if outgoing.len() == 0 {
                match collect_wires_into(asset, n as u16) {
                    Ok(mut more) => {
                        let ghost front = wires@;
                        let ghost added = more@;
                        wires.append(&mut more);
                        proof {
                            assert(wires@ == front + added);
                        }
                    },
                    Err(e) => {
                        proof {
                            lemma_sinks_fail_on(a, count as int, n + 1, e);
                        }
                        return Err(e);
                    },
                }
            }
        }
        n += 1;
    }
    Ok(wires)
}


/// The dynamic part of a graph: its dynamic nodes and the edges between two
/// of them, under the indices they have in the graph, and a copy of the
/// operation of each.
pub fn dynamic_part(asset: &Asset, classes: &Vec<NodeClass>) -> (part: (Topology, Vec<Option<Nodes>>))
    requires
        asset.wf(),
        classes.len() == asset.slots().len(),
        forall|t: int|
            0 <= t < classes.len() ==> (#[trigger] classes[t]) == asset.authored().class_of(t),
    ensures
        asset.authored().dynamic_part_is(part.0, part.1@),
{
    let ghost a = asset.authored();
    let count: usize = asset.slot_count();
    let mut mask: Vec<bool> = Vec::new();
    let mut nodes: Vec<Option<Nodes>> = Vec::new();
    let mut n: usize = 0;
    while n < count
        invariant
            n <= count,
            asset.wf(),
            a == asset.authored(),
            count == asset.slots().len(),
            classes.len() == count,
            forall|t: int| 0 <= t < classes.len() ==> (#[trigger] classes[t]) == a.class_of(t),
            mask.len() == n,
            nodes.len() == n,
            forall|m: int| 0 <= m < n ==> (#[trigger] mask[m]) == a.dynamic(m),
            forall|m: int|
                0 <= m < n ==> ((#[trigger] nodes[m]) is Some <==> a.dynamic(m)) && (nodes[m]
                    is Some ==> nodes[m]->Some_0.same_as(a.node_of(m))),
        decreases count - n,
    {
        let is_dynamic = match classes[n] {
            NodeClass::Dynamic => true,
            _ => false,
        };
        proof {
            assert(classes[n as int] == a.class_of(n as int));
            if a.dynamic(n as int) {
                lemma_dynamic_is_node(a, n as int);
                assert(topology_view(a.graph).nodes.contains(n as int));
            }
        }
        mask.push(is_dynamic);
        if is_dynamic {
            match asset.slot_at(n) {
                Some(slot) => {
                    nodes.push(Some(slot.node.clone()));
                },
                None => {
                    proof {
                        assert(false);
                    }
                    nodes.push(None);
                },
            }
        } else {
            nodes.push(None);
        }
        n += 1;
    }
    let graph = topology_part(asset.graph_ref(), &mask);
    proof {
        assert forall|m: int| graph_nodes(graph).contains(m) <==> a.dynamic(m) by {
            if a.dynamic(m) {
                lemma_dynamic_is_node(a, m);
            }
        }
        assert(graph_nodes(graph) =~= Set::new(|m: int| a.dynamic(m)));
    }
    (graph, nodes)
}

impl Authored {
    /// `graph` and `nodes` are the dynamic part of this graph: the dynamic
    /// nodes and the edges between two of them, under their indices, and for
    /// each dynamic node an operation that holds the same as the node's.
    pub open spec fn dynamic_part_is(self, graph: Topology, nodes: Seq<Option<Nodes>>) -> bool {
        &&& graph_nodes(graph) == Set::new(|n: int| self.dynamic(n))
        &&& graph_edges(graph) == graph_edges(self.graph).restrict(
            Set::new(
                |e: int|
                    graph_edges(self.graph).contains_key(e) && graph_nodes(graph).contains(
                        graph_edges(self.graph)[e].0,
                    ) && graph_nodes(graph).contains(graph_edges(self.graph)[e].1),
            ),
        )
        &&& nodes.len() == self.slots.len()
        &&& forall|n: int|
            0 <= n < nodes.len() ==> ((#[trigger] nodes[n]) is Some <==> self.dynamic(n)) && (
            nodes[n] is Some ==> nodes[n]->Some_0.same_as(self.node_of(n)))
    }
}

/// A compiled graph: what its constant nodes computed, its dynamic part, its
/// exposed properties and what it hands out. Instances are made from it and
/// read it; it is never changed, only replaced.
pub struct AssetTemplate {
    dynamic_graph: Topology,
    dynamic_nodes: Vec<Option<Nodes>>,
    constant_cache: Vec<Option<Vec<DataTypeInstance>>>,
    exposed_property_meta: Vec<PropertyMetadata>,
    exposed_property_index_name: Vec<(String, NodeIndex, String)>,
    outputs: Vec<Wire>,
    inputs: Vec<Wire>,
    generation: u16,
}

impl AssetTemplate {
    /// The dynamic nodes and the edges between them.
    pub closed spec fn dynamic_topology(&self) -> Topology {
        self.dynamic_graph
    }

    /// The operation of each dynamic node, under the node's index.
    pub closed spec fn dynamic_slots(&self) -> Seq<Option<Nodes>> {
        self.dynamic_nodes@
    }

    /// What each constant node computed.
    pub closed spec fn constants(&self) -> Map<int, Seq<ValueView>> {
        cache_view(self.constant_cache@)
    }

    /// The exposed properties.
    pub closed spec fn exposed(&self) -> Seq<ExposedView> {
        exposed_views(self.exposed_property_meta@, self.exposed_property_index_name@)
    }

    /// What the graph hands out.
    pub closed spec fn wires(&self) -> Seq<Wire> {
        self.outputs@
    }

    /// The generation of the asset that the graph was compiled from.
    pub closed spec fn spec_generation(&self) -> u16 {
        self.generation
    }

    /// Every dynamic node has its operation, and every exposed property
    /// belongs to a dynamic node and has a default value.
    pub closed spec fn wf(&self) -> bool {
        &&& self.dynamic_nodes@.len() <= GRAPH_LIMIT
        &&& self.constant_cache@.len() <= GRAPH_LIMIT
        &&& self.exposed_property_meta@.len() == self.exposed_property_index_name@.len()
        &&& forall|n: int|
            graph_nodes(self.dynamic_graph).contains(n) ==> 0 <= n < self.dynamic_nodes@.len() && (
            #[trigger] self.dynamic_nodes@[n]) is Some
        &&& forall|k: int|
            0 <= k < self.exposed().len() ==> graph_nodes(self.dynamic_graph).contains(
                (#[trigger] self.exposed()[k]).node,
            ) && self.exposed()[k].meta.default is Some && self.exposed()[k].meta.name == Some(
                self.exposed()[k].name,
            )
        &&& forall|n: int| #[trigger]
            self.constants().contains_key(n) ==> n < self.dynamic_nodes@.len()
                && self.dynamic_nodes@[n] is None
        &&& forall|k: int| 0 <= k < self.outputs@.len() ==> self.wire_typed(#[trigger] self.outputs@[k])
    }

    /// The wire has the type that its source gives at its port: if the
    /// source is a dynamic node, the type of that output socket of the node;
    /// if the constants hold something for the source, the type of the value
    /// they hold for the port.
    pub open spec fn wire_typed(&self, wire: Wire) -> bool {
        let n = wire.0.0 as int;
        let port = wire.1 as int;
        &&& 0 <= n < self.dynamic_slots().len()
        &&& self.dynamic_slots()[n] is Some ==> port
            < self.dynamic_slots()[n]->Some_0.output_sockets().len()
            && self.dynamic_slots()[n]->Some_0.output_sockets()[port] == wire.2
        &&& self.constants().contains_key(n) ==> self.dynamic_slots()[n] is None && port
            < self.constants()[n].len() && self.constants()[n][port].data_type() == wire.2
    }

    /// Every wire of a compiled graph has the type that its source gives at
    /// its port.
    pub proof fn lemma_wire_typed(&self, k: int)
        requires
            self.wf(),
            0 <= k < self.wires().len(),
        ensures
            self.wire_typed(self.wires()[k]),
    {
        assert(self.wire_typed(self.outputs@[k]));
    }

    /// This is what compiling the graph `a` at that generation gives: the
    /// constants, the exposed properties, the outputs and the dynamic part
    /// of `a`. The constants are held for nodes that are computed once.
    pub open spec fn compiled_from(&self, a: Authored, generation: u16) -> bool {
        &&& self.wf()
        &&& a.constants() == Ok::<Map<int, Seq<ValueView>>, CompileError>(self.constants())
        &&& a.exposed() == Ok::<Seq<ExposedView>, CompileError>(self.exposed())
        &&& a.outputs() == Ok::<Seq<Wire>, CompileError>(self.wires())
        &&& a.dynamic_part_is(self.dynamic_topology(), self.dynamic_slots())
        &&& self.spec_generation() == generation
        &&& forall|n: int| #[trigger] self.constants().contains_key(n) ==> a.evaluable(n)
    }

    /// Compiles the graph of an asset. Nodes that hold an exposed property,
    /// or a property that follows one, are dynamic: they are copied into the
    /// dynamic part and computed by each instance. Of the others, all but
    /// outputs are computed here, once, in topological order, each from the
    /// first outputs of the nodes before it. The exposed properties are
    /// looked up at their nodes, and the connections into the outputs give
    /// what the graph hands out.
    pub fn generate(asset: &Asset) -> (r: Result<Self, CompileError>)
        requires
            asset.wf(),
        ensures
            match r {
                Ok(template) => asset.authored().failure() is None && template.compiled_from(
                    asset.authored(),
                    asset.spec_generation(),
                ),
                Err(e) => asset.authored().failure() == Some(e),
            },
    {
        let ghost a = asset.authored();
        let classes = classify(asset);
        let constant_cache = match evaluate_constants(asset, &classes) {
            Ok(cache) => cache,
            Err(e) => {
                return Err(e);
            },
        };
        let (dynamic_graph, dynamic_nodes) = dynamic_part(asset, &classes);
        let (exposed_property_meta, exposed_property_index_name) = match collect_exposed(asset) {
            Ok(exposed) => exposed,
            Err(e) => {
                return Err(e);
            },
        };
        let outputs = match collect_outputs(asset) {
            Ok(outputs) => outputs,
            Err(e) => {
                return Err(e);
            },
        };
        let template = AssetTemplate {
            dynamic_graph,
            dynamic_nodes,
            constant_cache,
            exposed_property_meta,
            exposed_property_index_name,
            outputs,
            inputs: Vec::new(),
            generation: asset.generation(),
        };
        proof {
            let edges = a.incoming(SENTINEL as int);
            assert forall|k: int| 0 <= k < template.exposed().len() implies graph_nodes(
                template.dynamic_graph,
            ).contains((#[trigger] template.exposed()[k]).node)
                && template.exposed()[k].meta.default is Some && template.exposed()[k].meta.name
                == Some(template.exposed()[k].name) by {
                lemma_exposures_entry(a, edges, k);
                let e = edges[k];
                let g = topology_view(a.graph);
                assert(g.edges.contains_key(g.incoming[SENTINEL as int][k]));
                assert(a.exposes(a.source_of(e)));
                lemma_described_has_default(
                    a.node_of(a.source_of(e)),
                    a.dependency_of(e).target_property(),
                    0,
                );
            }
            asset.lemma_authored_wf();
            assert forall|n: int| #[trigger] template.constants().contains_key(n) implies n
                < template.dynamic_nodes@.len() && template.dynamic_nodes@[n] is None by {
                assert(a.evaluable(n));
            }
            assert forall|k: int| 0 <= k < template.outputs@.len() implies template.wire_typed(
                #[trigger] template.outputs@[k],
            ) by {
                lemma_wires_sound(a, a.slots.len() as int, k);
                let wire = template.outputs@[k];
                let n = wire.0.0 as int;
                assert(a.wire_sound(wire));
                if template.dynamic_slots()[n] is Some {
                    crate::operations::lemma_same_sockets(
                        template.dynamic_slots()[n]->Some_0,
                        a.node_of(n),
                    );
                }
                if template.constants().contains_key(n) {
                    assert(a.evaluable(n));
                    assert(types_of(template.constants()[n]) == a.node_of(n).output_sockets());
                    assert(types_of(template.constants()[n])[wire.1 as int]
                        == template.constants()[n][wire.1 as int].data_type());
                }
            }
        }
        Ok(template)
    }

    /// Whether the graph was compiled at another generation than the given one.
    pub fn is_recomputation_needed(&self, generation: u16) -> (needed: bool)
        ensures
            needed == (self.spec_generation() != generation),
    {
        self.generation != generation
    }

    /// The generation of the asset that the graph was compiled from.
    pub fn get_generation(&self) -> (generation: u16)
        ensures
            generation == self.spec_generation(),
    {
        self.generation
    }

    /// Stamps the compiled graph with a generation.
    pub(crate) fn set_generation(&mut self, generation: u16)
        ensures
            final(self).spec_generation() == generation,
            old(self).wf() ==> final(self).wf(),
            final(self).constants() == old(self).constants(),
            final(self).exposed() == old(self).exposed(),
            final(self).wires() == old(self).wires(),
            final(self).dynamic_topology() == old(self).dynamic_topology(),
            final(self).dynamic_slots() == old(self).dynamic_slots(),
    {
        self.generation = generation;
        proof {
            if old(self).wf() {
                assert forall|k: int| 0 <= k < self.outputs@.len() implies self.wire_typed(
                    #[trigger] self.outputs@[k],
                ) by {
                    assert(old(self).wire_typed(old(self).outputs@[k]));
                }
                assert forall|n: int| #[trigger] self.constants().contains_key(n) implies n
                    < self.dynamic_nodes@.len() && self.dynamic_nodes@[n] is None by {
                    assert(old(self).constants().contains_key(n));
                }
            }
        }
    }

    /// What the graph hands out, in order.
    pub fn outputs(&self) -> (wires: Vec<Wire>)
        ensures
            wires@ == self.wires(),
    {
        let mut wires: Vec<Wire> = Vec::new();
        let mut k: usize = 0;
        while k < self.outputs.len()
            invariant
                k <= self.outputs.len(),
                wires@ == self.outputs@.take(k as int),
            decreases self.outputs.len() - k,
        {
            let wire = self.outputs[k];
            wires.push(wire);
            proof {
                assert(self.outputs@.take(k + 1) == self.outputs@.take(k as int).push(
                    self.outputs@[k as int],
                ));
            }
            k += 1;
        }
        proof {
            assert(self.outputs@.take(k as int) == self.outputs@);
        }
        wires
    }

    /// The value that a constant node gave at a port.
    pub fn get_constant(&self, id: (NodeIndex, u8)) -> (value: Option<DataTypeInstance>)
        ensures
            match value {
                Some(v) => constant_at(self.constants(), id.0.0 as int, id.1 as int) == Some(v@),
                None => constant_at(self.constants(), id.0.0 as int, id.1 as int) is None,
            },
    {
        let n: usize = id.0.0 as usize;
        if n >= self.constant_cache.len() {
            return None;
        }
        match &self.constant_cache[n] {
            Some(values) => {
                if (id.1 as usize) < values.len() {
                    Some(values[id.1 as usize].clone())
                } else {
                    None
                }
            },
            None => None,
        }
    }

    /// The descriptions of the exposed properties, each under the name it is
    /// exposed by, in order.
    pub fn get_properties(&self) -> (descriptions: Vec<PropertyMetadata>)
        requires
            self.wf(),
        ensures
            descriptions.len() == self.exposed().len(),
            forall|k: int|
                0 <= k < descriptions.len() ==> (#[trigger] descriptions[k])@
                    == self.exposed()[k].meta,
    {
        let mut descriptions: Vec<PropertyMetadata> = Vec::new();
        let mut k: usize = 0;
        while k < self.exposed_property_meta.len()
            invariant
                k <= self.exposed_property_meta.len(),
                self.wf(),
                descriptions.len() == k,
                forall|j: int|
                    0 <= j < k ==> (#[trigger] descriptions[j])@ == self.exposed()[j].meta,
            decreases self.exposed_property_meta.len() - k,
        {
            descriptions.push(self.exposed_property_meta[k].clone());
            k += 1;
        }
        descriptions
    }

    /// The place of the last exposed property of that name.
    pub open spec fn place_of(&self, name: Seq<char>) -> Option<int> {
        last_named(self.exposed(), name, self.exposed().len() as int)
    }

    /// Where an exposed property is found: the node that holds it and the
    /// property's name at that node. Of several properties exposed by one
    /// name, the last counts.
    pub fn get_property_index_name(&self, property_name: &str) -> (found: Option<
        (NodeIndex, String),
    >)
        requires
            self.wf(),
        ensures
            match found {
                Some((node, property)) => self.place_of(property_name@) is Some && node.0
                    == self.exposed()[self.place_of(property_name@)->Some_0].node && property@
                    == self.exposed()[self.place_of(property_name@)->Some_0].property,
                None => self.place_of(property_name@) is None,
            },
    {
        match self.find_exposed(property_name) {
            Some(k) => Some(
                (
                    self.exposed_property_index_name[k].1,
                    self.exposed_property_index_name[k].2.clone(),
                ),
            ),
            None => None,
        }
    }

    /// The place of the last exposed property of that name.
    pub(crate) fn find_exposed(&self, property_name: &str) -> (found: Option<usize>)
        requires
            self.wf(),
        ensures
            match found {
                Some(k) => self.place_of(property_name@) == Some(k as int) && k
                    < self.exposed().len() && self.exposed()[k as int].name == property_name@,
                None => self.place_of(property_name@) is None,
            },
    {
        let mut k: usize = self.exposed_property_index_name.len();
        while k > 0
            invariant
                k <= self.exposed_property_index_name.len(),
                self.wf(),
                self.place_of(property_name@) == last_named(
                    self.exposed(),
                    property_name@,
                    k as int,
                ),
            decreases k,
        {
            k -= 1;
            if same_text(self.exposed_property_index_name[k].0.as_str(), property_name) {
                return Some(k);
            }
        }
        None
    }

    /// The node that holds the exposed property at place `k`.
    pub(crate) fn exposed_node(&self, k: usize) -> (node: NodeIndex)
        requires
            self.wf(),
            k < self.exposed().len(),
        ensures
            node.0 == self.exposed()[k as int].node,
    {
        self.exposed_property_index_name[k].1
    }

    /// An exposed property belongs to a dynamic node, which has its place
    /// among the operations, and it has a name and a default value.
    pub proof fn lemma_exposed_entry(&self, k: int)
        requires
            self.wf(),
            0 <= k < self.exposed().len(),
        ensures
            graph_nodes(self.dynamic_topology()).contains(self.exposed()[k].node),
            0 <= self.exposed()[k].node < self.dynamic_slots().len(),
            self.dynamic_slots()[self.exposed()[k].node] is Some,
            self.exposed()[k].meta.default is Some,
            self.exposed()[k].meta.name == Some(self.exposed()[k].name),
    {
        assert(graph_nodes(self.dynamic_graph).contains(self.exposed()[k].node));
    }

    /// Every dynamic node has its place among the operations.
    pub proof fn lemma_dynamic_nodes_have_slots(&self)
        requires
            self.wf(),
        ensures
            self.dynamic_slots().len() <= GRAPH_LIMIT,
            forall|n: int|
                graph_nodes(self.dynamic_topology()).contains(n) ==> 0 <= n
                    < self.dynamic_slots().len() && (#[trigger] self.dynamic_slots()[n]) is Some,
    {
    }

    /// A copy of the dynamic part: the graph of the dynamic nodes, and the
    /// operation of each under the node's index.
    pub fn get_dynamic_graph(&self) -> (part: (Topology, Vec<Option<Nodes>>))
        requires
            self.wf(),
        ensures
            topology_view(part.0) == topology_view(self.dynamic_topology()),
            part.1.len() == self.dynamic_slots().len(),
            forall|n: int|
                0 <= n < part.1.len() ==> ((#[trigger] part.1[n]) is Some
                    <==> self.dynamic_slots()[n] is Some) && (part.1[n] is Some
                    ==> part.1[n]->Some_0.same_as(self.dynamic_slots()[n]->Some_0)),
    {
        let graph = crate::graph::topology_clone(&self.dynamic_graph);
        let mut nodes: Vec<Option<Nodes>> = Vec::new();
        let mut n: usize = 0;
        while n < self.dynamic_nodes.len()
            invariant
                n <= self.dynamic_nodes.len(),
                nodes.len() == n,
                forall|m: int|
                    0 <= m < n ==> ((#[trigger] nodes[m]) is Some
                        <==> self.dynamic_slots()[m] is Some) && (nodes[m] is Some
                        ==> nodes[m]->Some_0.same_as(self.dynamic_slots()[m]->Some_0)),
            decreases self.dynamic_nodes.len() - n,
        {
            match &self.dynamic_nodes[n] {
                Some(node) => {
                    nodes.push(Some(node.clone()));
                },
                None => {
                    nodes.push(None);
                },
            }
            n += 1;
        }
        (graph, nodes)
    }
}

/// The value that the constants hold for a node at a port.
pub open spec fn constant_at(constants: Map<int, Seq<ValueView>>, node: int, port: int) -> Option<
    ValueView,
> {
    if constants.contains_key(node) && 0 <= port < constants[node].len() {
        Some(constants[node][port])
    } else {
        None
    }
}

/// The place of the last of the first `upto` exposed properties that has the name.
pub open spec fn last_named(exposed: Seq<ExposedView>, name: Seq<char>, upto: int) -> Option<int>
    decreases upto,
{
    if upto <= 0 || upto > exposed.len() {
        None
    } else if exposed[upto - 1].name == name {
        Some(upto - 1)
    } else {
        last_named(exposed, name, upto - 1)
    }
}

/// The entry at place `k` is what the edge at place `k` exposes.
pub proof fn lemma_exposures_entry(a: Authored, edges: Seq<int>, k: int)
    requires
        a.exposures(edges) is Ok,
        0 <= k < a.exposures(edges)->Ok_0.len(),
    ensures
        a.exposures(edges)->Ok_0.len() == edges.len(),
        a.exposure(edges[k]) == Ok::<ExposedView, CompileError>(a.exposures(edges)->Ok_0[k]),
    decreases edges.len(),
{
    lemma_exposures_len(a, edges);
    if edges.len() > 0 {
        lemma_exposures_len(a, edges.drop_last());
        if k < edges.len() - 1 {
            lemma_exposures_entry(a, edges.drop_last(), k);
        }
    }
}

/// There is one entry for each edge.
pub proof fn lemma_exposures_len(a: Authored, edges: Seq<int>)
    requires
        a.exposures(edges) is Ok,
    ensures
        a.exposures(edges)->Ok_0.len() == edges.len(),
    decreases edges.len(),
{
    if edges.len() > 0 {
        lemma_exposures_len(a, edges.drop_last());
    }
}

/// Every property that a node describes has a name and a default value.
pub proof fn lemma_described_has_default(node: Nodes, name: Seq<char>, from: int)
    requires
        0 <= from,
    ensures
        described_as(node.described(), name, from) is Some ==> described_as(
            node.described(),
            name,
            from,
        )->Some_0.default is Some && described_as(node.described(), name, from)->Some_0.name
            == Some(name),
    decreases node.described().len() - from,
{
    let d = node.described();
    assert forall|i: int| 0 <= i < d.len() implies (#[trigger] d[i]).default is Some by {
        match node {
            Nodes::Box(n) => {
                assert(d == n.described());
                if i == 0 {
                } else {
                    assert(i == 1);
                }
            },
            Nodes::Cylinder(n) => {
                assert(d == n.described());
                if i == 0 {
                } else if i == 1 {
                } else if i == 2 {
                } else {
                    assert(i == 3);
                }
            },
            Nodes::Extrude(n) => {
                assert(d == n.described());
                if i == 0 {
                } else {
                    assert(i == 1);
                }
            },
            _ => {},
        }
    }
    if from < d.len() {
        if d[from].name != Some(name) {
            lemma_described_has_default(node, name, from + 1);
        }
    }
}

/// A node holds an exposed property exactly when some edge of the graph
/// runs from the node into the sentinel.
pub proof fn law_exposing_is_an_edge_into_the_sentinel(a: Authored, n: int)
    requires
        a.wf(),
    ensures
        a.exposes(n) <==> exists|e: int| #[trigger]
            graph_edges(a.graph).contains_key(e) && graph_edges(a.graph)[e] == (n, SENTINEL as int),
{
    let g = topology_view(a.graph);
    let list = g.incoming[SENTINEL as int];
    if a.exposes(n) {
        let k = choose|k: int| 0 <= k < list.len() && a.source_of(#[trigger] list[k]) == n;
        assert(g.edges.contains_key(list[k]) && g.edges[list[k]].1 == SENTINEL);
        assert(g.edges[list[k]] == (n, SENTINEL as int));
        assert(graph_edges(a.graph).contains_key(list[k]) && graph_edges(a.graph)[list[k]] == (
            n,
            SENTINEL as int,
        ));
    }
    if exists|e: int| #[trigger] g.edges.contains_key(e) && g.edges[e] == (n, SENTINEL as int) {
        let e = choose|e: int| #[trigger]
            g.edges.contains_key(e) && g.edges[e] == (n, SENTINEL as int);
        assert(g.lists_complete());
        assert(list.contains(e));
        let k = choose|k: int| 0 <= k < list.len() && list[k] == e;
        assert(a.incoming(SENTINEL as int) == list);
        assert(0 <= k < a.incoming(SENTINEL as int).len() && a.source_of(
            a.incoming(SENTINEL as int)[k],
        ) == n);
    }
}

impl Authored {
    /// The graph holds the sentinel, an output at index 1 and, at index 2,
    /// one node that is no output; its one edge is a connection from port 0
    /// of that node to port 0 of the output.
    pub open spec fn is_single_producer(self) -> bool {
        &&& topology_view(self.graph) == seed_graph()
        &&& self.dependencies == seq![Some(DependencyView::Connection(0, 0))]
        &&& self.slots.len() == 3
        &&& self.slots[0] is Some
        &&& self.node_of(0) is Expose
        &&& self.slots[1] is Some
        &&& self.node_of(1) is SocketOutput
        &&& self.slots[2] is Some
        &&& !(self.node_of(2) is SocketOutput)
    }
}

/// A graph of one node wired to one output, once compiled: nothing is
/// exposed, the one wire starts at port 0 of the node and has the type of
/// that port, and the constants hold for the node, and for no other, what
/// the node computes without inputs.
pub proof fn law_single_producer_compiles_to_its_outputs(
    a: Authored,
    generation: u16,
    t: AssetTemplate,
)
    requires
        a.is_single_producer(),
        t.compiled_from(a, generation),
    ensures
        t.exposed().len() == 0,
        a.node_of(2).output_sockets().len() > 0,
        t.wires() == seq![(NodeIndex(2), 0u8, a.node_of(2).output_sockets()[0])],
        t.constants().dom() == set![2int],
        a.node_of(2).computed(Seq::empty()) == Ok::<Seq<ValueView>, OperationError>(
            t.constants()[2],
        ),
{
    let g = topology_view(a.graph);
    assert(g == seed_graph());
    assert(a.incoming(0) =~= Seq::<int>::empty());
    assert(a.incoming(1) =~= seq![0int]);
    assert(a.incoming(2) =~= Seq::<int>::empty());
    assert(a.outgoing(1) =~= Seq::<int>::empty());
    assert(a.source_of(0) == 2);
    // nothing is exposed, so no node is dynamic
    assert forall|n: int| !a.dynamic(n) by {
        assert forall|m: int| !a.exposes(m) by {}
    }
    assert(a.exposures(a.incoming(SENTINEL as int)) == Ok::<Seq<ExposedView>, CompileError>(
        Seq::empty(),
    ));
    // the one wire
    assert(a.wires_of_sinks(0) == Ok::<Seq<Wire>, CompileError>(Seq::empty()));
    assert(!a.is_sink(0));
    assert(a.wires_of_sinks(1) == Ok::<Seq<Wire>, CompileError>(Seq::empty()));
    assert(a.is_sink(1));
    assert(seq![0int].drop_last() =~= Seq::<int>::empty());
    assert(a.wires_into(Seq::<int>::empty()) == Ok::<Seq<Wire>, CompileError>(Seq::empty()));
    let sockets = a.node_of(2).output_sockets();
    assert(a.dependency_of(0) == DependencyView::Connection(0, 0));
    assert(a.wires_into(seq![0int]) == (if 0 < sockets.len() {
        Ok::<Seq<Wire>, CompileError>(Seq::<Wire>::empty().push((NodeIndex(2), 0u8, sockets[0])))
    } else {
        Err::<Seq<Wire>, CompileError>(CompileError::UnknownPort(NodeIndex(2)))
    }));
    assert(!a.is_sink(2));
    assert(a.wires_of_sinks(3) == a.wires_of_sinks(2));
    assert(a.outputs() is Ok);
    assert(sockets.len() > 0);
    assert(t.wires() =~= seq![(NodeIndex(2), 0u8, sockets[0])]);
    // the one constant
    let mask = a.evaluation_mask();
    assert(a.evaluable(2));
    assert(mask =~= seq![false, false, true]);
    assert(count_marked(mask) == 1) by {
        assert(mask.drop_last() =~= seq![false, false]);
        assert(mask.drop_last().drop_last() =~= seq![false]);
        assert(mask.drop_last().drop_last().drop_last() =~= Seq::<bool>::empty());
        reveal_with_fuel(count_marked, 4);
    }
    let order = a.evaluation_order();
    assert(order.len() == 1);
    assert(order.drop_last() =~= Seq::<int>::empty());
    assert(a.folded(order.drop_last()) == Ok::<Map<int, Seq<ValueView>>, CompileError>(
        Map::empty(),
    ));
    let n = order.last();
    assert(a.folded(order) is Ok);
    assert(t.constants().contains_key(n));
    assert(a.evaluable(n));
    assert(n == 2);
    assert(a.gathered(Map::empty(), a.incoming(2)) == Some(Seq::<ValueView>::empty()));
    assert(t.constants().dom() =~= set![2int]);
}

/// Compiling a graph twice gives the same constants, the same exposed
/// properties and the same outputs.
pub proof fn law_compiling_twice_gives_the_same(
    a: Authored,
    generation: u16,
    first: AssetTemplate,
    second: AssetTemplate,
)
    requires
        first.compiled_from(a, generation),
        second.compiled_from(a, generation),
    ensures
        first.constants() == second.constants(),
        first.wires() == second.wires(),
        first.exposed() == second.exposed(),
        graph_nodes(first.dynamic_topology()) == graph_nodes(second.dynamic_topology()),
        graph_edges(first.dynamic_topology()) == graph_edges(second.dynamic_topology()),
{
}

} // verus!
