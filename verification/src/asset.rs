//! The authoring graph: nodes that hold operations, and the dependencies
//! between them.

use vstd::prelude::*;
use vstd::string::StringExecFns;
use crate::data_types::{same_text, DataTypeInstance, DataTypeType, PropertyError, ValueView};
use crate::graph::{
    graph_edges, graph_incoming, graph_nodes, graph_outgoing, index_numbers,
    lemma_with_edge_wf, lemma_with_node_wf, lemma_without_edges_wf, lemma_without_node_wf,
    topology_add_edge, topology_add_node, topology_contains_node, topology_edge_count,
    topology_edge_endpoints, topology_edge_indices, topology_incoming, topology_new,
    topology_node_count, topology_node_indices,
    topology_remove_edge, topology_remove_node, topology_view, EdgeIndex, GraphView, NodeIndex,
    Topology, GRAPH_LIMIT,
};
use crate::asset::instance::{
    law_box_graph_hands_out_the_box, law_single_producer_hands_out_what_it_computes,
    AssetInstance, EvaluationError,
};
use crate::asset::template::{AssetTemplate, CompileError};
use crate::operations::embedded::EmbeddedV1;
use crate::operations::producers::cuboid::{box_faces, lemma_box_mesh_is_ok};
use crate::operations::{kind_of_alias, NodeKind, Nodes, Operation, OperationError, PropertyInterface};
use crate::vector::{plane_from_ints, vec2_from_ints};

verus! {

/// Why one node depends on another.
pub enum Dependency {
    /// A wire from an output socket to an input socket: the two port numbers.
    Connection([u8; 2]),
    /// The node refers to its own property.
    This,
    /// The node refers to the same property of the other node.
    Same,
    /// A property of the target follows a property of the source.
    Node { target_property: String, source_property: String },
    /// A property is a parameter of the graph for those who design with it.
    Expose { name: String, target_property: String },
    /// A property is a parameter that the user of an instance can set.
    Runtime { name: String, target_property: String },
}

/// What a dependency holds.
pub enum DependencyView {
    Connection(u8, u8),
    This,
    Same,
    Node { target_property: Seq<char>, source_property: Seq<char> },
    Expose { name: Seq<char>, target_property: Seq<char> },
    Runtime { name: Seq<char>, target_property: Seq<char> },
}

impl DependencyView {
    /// The dependency marks a parameter of the graph.
    pub open spec fn is_exposed(self) -> bool {
        self is Expose || self is Runtime
    }

    /// The name under which the parameter is exposed.
    pub open spec fn exposed_name(self) -> Seq<char> {
        match self {
            DependencyView::Expose { name, .. } => name,
            DependencyView::Runtime { name, .. } => name,
            _ => Seq::empty(),
        }
    }

    /// The property that the dependency is about.
    pub open spec fn target_property(self) -> Seq<char> {
        match self {
            DependencyView::Node { target_property, .. } => target_property,
            DependencyView::Expose { target_property, .. } => target_property,
            DependencyView::Runtime { target_property, .. } => target_property,
            _ => Seq::empty(),
        }
    }
}

impl View for Dependency {
    type V = DependencyView;

    open spec fn view(&self) -> DependencyView {
        match self {
            Dependency::Connection(ports) => DependencyView::Connection(ports[0], ports[1]),
            Dependency::This => DependencyView::This,
            Dependency::Same => DependencyView::Same,
            Dependency::Node { target_property, source_property } => DependencyView::Node {
                target_property: target_property@,
                source_property: source_property@,
            },
            Dependency::Expose { name, target_property } => DependencyView::Expose {
                name: name@,
                target_property: target_property@,
            },
            Dependency::Runtime { name, target_property } => DependencyView::Runtime {
                name: name@,
                target_property: target_property@,
            },
        }
    }
}

impl Clone for Dependency {
    /// A copy of the dependency.
    fn clone(&self) -> (copy: Self)
        ensures
            copy@ == self@,
    {
        match self {
            Dependency::Connection(ports) => Dependency::Connection([ports[0], ports[1]]),
            Dependency::This => Dependency::This,
            Dependency::Same => Dependency::Same,
            Dependency::Node { target_property, source_property } => Dependency::Node {
                target_property: target_property.clone(),
                source_property: source_property.clone(),
            },
            Dependency::Expose { name, target_property } => Dependency::Expose {
                name: name.clone(),
                target_property: target_property.clone(),
            },
            Dependency::Runtime { name, target_property } => Dependency::Runtime {
                name: name.clone(),
                target_property: target_property.clone(),
            },
        }
    }
}

impl Dependency {
    /// The port at which a connection starts.
    pub fn port_from(&self) -> (port: u8)
        requires
            self@ is Connection,
        ensures
            port == self@->Connection_0,
    {
        match self {
            Dependency::Connection(ports) => ports[0],
            _ => 0,
        }
    }

    /// The port at which a connection ends.
    pub fn port_to(&self) -> (port: u8)
        requires
            self@ is Connection,
        ensures
            port == self@->Connection_1,
    {
        match self {
            Dependency::Connection(ports) => ports[1],
            _ => 0,
        }
    }

    /// Whether the dependency marks a parameter of the graph.
    pub fn is_exposed(&self) -> (r: bool)
        ensures
            r == self@.is_exposed(),
    {
        match self {
            Dependency::Expose { .. } => true,
            Dependency::Runtime { .. } => true,
            _ => false,
        }
    }

    /// The name under which the parameter is exposed.
    pub fn get_exposed_name(&self) -> (name: &str)
        requires
            self@.is_exposed(),
        ensures
            name@ == self@.exposed_name(),
    {
        match self {
            Dependency::Expose { name, .. } => name.as_str(),
            Dependency::Runtime { name, .. } => name.as_str(),
            _ => "",
        }
    }

    /// Whether a property of the target follows a property of the source.
    pub fn is_node(&self) -> (r: bool)
        ensures
            r == (self@ is Node),
    {
        match self {
            Dependency::Node { .. } => true,
            _ => false,
        }
    }

    /// Whether the dependency is a wire between two sockets.
    pub fn is_connection(&self) -> (r: bool)
        ensures
            r == (self@ is Connection),
    {
        match self {
            Dependency::Connection(_) => true,
            _ => false,
        }
    }

    /// The property that the dependency is about.
    pub fn get_target_property(&self) -> (property: &str)
        requires
            self@ is Node || self@.is_exposed(),
        ensures
            property@ == self@.target_property(),
    {
        match self {
            Dependency::Node { target_property, .. } => target_property.as_str(),
            Dependency::Expose { target_property, .. } => target_property.as_str(),
            Dependency::Runtime { target_property, .. } => target_property.as_str(),
            _ => "",
        }
    }
}

/// What the editor keeps for a node: its name, where it is drawn, and whether
/// its properties changed since the graph was last compiled.
pub struct NodeMetadata {
    name: String,
    postition: glam::Vec2,
    dirty: bool,
}

/// What the editor's record of a node holds.
pub struct NodeMetadataView {
    pub name: Seq<char>,
    pub position: glam::Vec2,
    pub dirty: bool,
}

impl View for NodeMetadata {
    type V = NodeMetadataView;

    closed spec fn view(&self) -> NodeMetadataView {
        NodeMetadataView { name: self.name@, position: self.postition, dirty: self.dirty }
    }
}

impl Clone for NodeMetadata {
    /// A copy of the record.
    fn clone(&self) -> (copy: Self)
        ensures
            copy@ == self@,
    {
        NodeMetadata { name: self.name.clone(), postition: self.postition, dirty: self.dirty }
    }
}

impl NodeMetadata {
    /// The record of a node without a name at the given position.
    pub fn new(position: glam::Vec2) -> (r: NodeMetadata)
        ensures
            r@ == (NodeMetadataView { name: Seq::empty(), position, dirty: false }),
    {
        NodeMetadata { name: String::new(), postition: position, dirty: false }
    }

    /// The record of a node without a name at the origin.
    pub fn empty() -> (r: NodeMetadata)
        ensures
            r@ == (NodeMetadataView {
                name: Seq::empty(),
                position: vec2_from_ints(0, 0),
                dirty: false,
            }),
    {
        NodeMetadata { name: String::new(), postition: plane_from_ints(0, 0), dirty: false }
    }

    /// Notes that the node's properties changed.
    pub fn set_dirty(&mut self)
        ensures
            final(self)@ == (NodeMetadataView { dirty: true, ..old(self)@ }),
    {
        self.dirty = true;
    }

    /// The node's name.
    pub fn get_name(&self) -> (name: String)
        ensures
            name@ == self@.name,
    {
        self.name.clone()
    }

    /// Names the node.
    pub fn set_name(&mut self, name: String)
        ensures
            final(self)@ == (NodeMetadataView { name: name@, ..old(self)@ }),
    {
        self.name = name;
    }

    /// Where the node is drawn.
    pub fn get_position(&self) -> (position: glam::Vec2)
        ensures
            position == self@.position,
    {
        self.postition
    }

    /// Moves the node in the editor.
    pub fn set_position(&mut self, position: glam::Vec2)
        ensures
            final(self)@ == (NodeMetadataView { position, ..old(self)@ }),
    {
        self.postition = position;
    }

    /// Whether the node's properties changed since the graph was last compiled.
    pub fn is_dirty(&self) -> (dirty: bool)
        ensures
            dirty == self@.dirty,
    {
        self.dirty
    }

    /// Notes that the graph was compiled with the node as it is.
    pub fn clear_dirty(&mut self)
        ensures
            final(self)@ == (NodeMetadataView { dirty: false, ..old(self)@ }),
    {
        self.dirty = false;
    }
}

/// Names an asset that is kept elsewhere.
#[derive(Debug)]
pub struct AssetReference {
    path: String,
    uid: Option<String>,
}

impl AssetReference {
    /// The reference to the asset at that path.
    pub fn new(path: String, uid: Option<String>) -> (r: Self)
        ensures
            r.spec_path() == path@,
            r.spec_uid() == uid,
    {
        AssetReference { path, uid }
    }

    /// The identifier of the asset, if it has one.
    pub closed spec fn spec_uid(&self) -> Option<String> {
        self.uid
    }

    /// Where the asset is kept.
    pub closed spec fn spec_path(&self) -> Seq<char> {
        self.path@
    }

    /// Where the asset is kept.
    pub fn path(&self) -> (path: &str)
        ensures
            path@ == self.spec_path(),
    {
        self.path.as_str()
    }

    /// The identifier of the asset, if it has one.
    pub fn uid(&self) -> (uid: Option<&String>)
        ensures
            match uid {
                Some(held) => self.spec_uid() == Some(*held),
                None => self.spec_uid() is None,
            },
    {
        self.uid.as_ref()
    }
}

/// An asset that is used as a node of another: the asset, or where it is
/// kept, and the nodes that stand for it.
pub enum EmbeddedAsset {
    Internal(Asset, Vec<NodeIndex>),
    External(AssetReference, Vec<NodeIndex>),
}

impl EmbeddedAsset {
    /// The nodes that stand for the embedded asset.
    pub fn graph_nodes(&self) -> (nodes: Vec<NodeIndex>)
        ensures
            nodes@ == self.spec_nodes(),
    {
        let items = match self {
            EmbeddedAsset::Internal(_, items) => items,
            EmbeddedAsset::External(_, items) => items,
        };
        let mut nodes: Vec<NodeIndex> = Vec::new();
        let mut k: usize = 0;
        while k < items.len()
            invariant
                k <= items.len(),
                items@ == self.spec_nodes(),
                nodes@ == items@.take(k as int),
            decreases items.len() - k,
        {
            nodes.push(items[k]);
            proof {
                assert(items@.take(k + 1) == items@.take(k as int).push(items@[k as int]));
            }
            k += 1;
        }
        proof {
            assert(items@.take(k as int) == items@);
        }
        nodes
    }

    /// The nodes that stand for the embedded asset.
    pub open spec fn spec_nodes(&self) -> Seq<NodeIndex> {
        match self {
            EmbeddedAsset::Internal(_, items) => items@,
            EmbeddedAsset::External(_, items) => items@,
        }
    }
}

/// Where the asset is drawn when it is embedded in another.
pub struct AssetMetadata {
    position: glam::Vec2,
}

impl AssetMetadata {
    /// The record of an asset at the given position.
    pub fn new(position: glam::Vec2) -> (r: Self)
        ensures
            r.spec_position() == position,
    {
        AssetMetadata { position }
    }

    /// Where the asset is drawn.
    pub closed spec fn spec_position(&self) -> glam::Vec2 {
        self.position
    }

    /// Where the asset is drawn.
    pub fn position(&self) -> (position: glam::Vec2)
        ensures
            position == self.spec_position(),
    {
        self.position
    }
}

/// What a node of the authoring graph holds: the editor's record and the operation.
pub struct NodeSlot {
    pub metadata: NodeMetadata,
    pub node: Nodes,
}

/// Why the graph turned an edit down.
#[derive(Clone, Copy, PartialEq, Eq, Debug, Structural)]
pub enum AssetError {
    /// The alias names no kind of node.
    UnknownAlias,
    /// The graph holds as many nodes, or edges, as it can.
    GraphFull,
    /// The index names no node of the graph.
    MissingNode,
    /// The index names no edge of the graph, or no connection ends at the port.
    MissingEdge,
    /// The node at which exposed properties end cannot be removed.
    SentinelProtected,
    /// A dependency that exposes a property must end at the sentinel.
    ExposeTarget,
    /// The node turned the property down.
    Property(PropertyError),
    /// The asset to embed cannot be compiled.
    Compile(CompileError),
    /// An instance of the asset to embed hands nothing out.
    Evaluate(EvaluationError),
}

/// The index of the node at which exposed properties end.
pub const SENTINEL: u16 = 0;

/// The authoring graph of an asset.
pub struct Asset {
    metadata: AssetMetadata,
    graph: Topology,
    nodes: Vec<Option<NodeSlot>>,
    edges: Vec<Option<Dependency>>,
    exposed_property_order: Vec<String>,
    sub_assets: Vec<EmbeddedAsset>,
    template: Option<AssetTemplate>,
    generation: u16,
}

/// The views of the dependencies that are there.
pub open spec fn dependency_views(edges: Seq<Option<Dependency>>) -> Seq<Option<DependencyView>> {
    Seq::new(
        edges.len(),
        |i: int|
            match edges[i] {
                Some(d) => Some(d@),
                None => None,
            },
    )
}

impl Asset {
    /// The graph's nodes and edges, without what they hold.
    pub closed spec fn topology(&self) -> Topology {
        self.graph
    }

    /// What each node holds, under the node's index.
    pub closed spec fn slots(&self) -> Seq<Option<NodeSlot>> {
        self.nodes@
    }

    /// What each edge holds, under the edge's index.
    pub closed spec fn dependencies(&self) -> Seq<Option<DependencyView>> {
        dependency_views(self.edges@)
    }

    /// How often the graph was compiled anew.
    pub closed spec fn spec_generation(&self) -> u16 {
        self.generation
    }

    /// What the graph was last compiled to, if it was compiled.
    pub closed spec fn compiled(&self) -> Option<AssetTemplate> {
        self.template
    }

    /// Where the asset is drawn when it is embedded in another.
    pub closed spec fn spec_position(&self) -> glam::Vec2 {
        self.metadata.spec_position()
    }

    /// The assets that are embedded in this one, in the order they were added.
    pub closed spec fn embedded(&self) -> Seq<EmbeddedAsset> {
        self.sub_assets@
    }

    /// The names of the exposed properties, in the order the editor shows them.
    pub closed spec fn exposed_order(&self) -> Seq<String> {
        self.exposed_property_order@
    }

    /// The graph's nodes and edges are in order, every node and every edge
    /// has what belongs to it under its index, the sentinel is there, it is
    /// the only node of its kind, and it is where every dependency that
    /// exposes a property ends.
    pub open spec fn wf(&self) -> bool {
        let g = topology_view(self.topology());
        &&& g.wf()
        &&& self.slots().len() <= GRAPH_LIMIT
        &&& self.dependencies().len() <= GRAPH_LIMIT
        &&& forall|n: int| g.nodes.contains(n) ==> n < self.slots().len()
        &&& forall|n: int|
            0 <= n < self.slots().len() ==> (g.nodes.contains(n) <==> (#[trigger] self.slots()[n]) is Some)
        &&& forall|e: int| g.edges.contains_key(e) ==> e < self.dependencies().len()
        &&& forall|e: int|
            0 <= e < self.dependencies().len() ==> (g.edges.contains_key(e) <==> (
            #[trigger] self.dependencies()[e]) is Some)
        &&& g.nodes.contains(SENTINEL as int)
        &&& forall|n: int|
            0 <= n < self.slots().len() && (#[trigger] self.slots()[n]) is Some ==> (
            self.slots()[n]->Some_0.node is Expose <==> n == SENTINEL)
        &&& forall|e: int|
            0 <= e < self.dependencies().len() && (#[trigger] self.dependencies()[e]) is Some
                && self.dependencies()[e]->Some_0.is_exposed() ==> g.edges[e].1 == SENTINEL
        &&& self.compiled() is Some ==> self.compiled()->Some_0.wf()
    }

    /// The index names a node of the graph.
    pub open spec fn has_node(&self, n: NodeIndex) -> bool {
        graph_nodes(self.topology()).contains(n.0 as int)
    }

    /// The index names an edge of the graph.
    pub open spec fn has_edge(&self, e: EdgeIndex) -> bool {
        graph_edges(self.topology()).contains_key(e.0 as int)
    }

    /// The edge is a connection that ends at the port.
    pub open spec fn ends_at_port(&self, e: int, port: u8) -> bool {
        &&& 0 <= e < self.dependencies().len()
        &&& self.dependencies()[e] is Some
        &&& self.dependencies()[e]->Some_0 is Connection
        &&& self.dependencies()[e]->Some_0->Connection_1 == port
    }

    /// A connection already ends at that port of the node.
    pub open spec fn port_taken(&self, to: NodeIndex, port: u8) -> bool {
        self.has_node(to) && exists|k: int|
            0 <= k < graph_incoming(self.topology())[to.0 as int].len() && self.ends_at_port(
                #[trigger] graph_incoming(self.topology())[to.0 as int][k],
                port,
            )
    }
}


impl Asset {
    /// Everything but what the node at `n` holds is as it was in `before`.
    pub open spec fn same_but_slot(&self, before: &Asset, n: int) -> bool {
        &&& self.topology() == before.topology()
        &&& self.dependencies() == before.dependencies()
        &&& self.spec_generation() == before.spec_generation()
        &&& self.exposed_order() == before.exposed_order()
        &&& self.compiled() == before.compiled()
        &&& self.embedded() == before.embedded()
        &&& self.slots().len() == before.slots().len()
        &&& forall|m: int|
            0 <= m < self.slots().len() && m != n ==> self.slots()[m] == before.slots()[m]
    }

    /// Everything but what the graph was last compiled to is as it was in `before`.
    pub open spec fn same_but_compiled(&self, before: &Asset) -> bool {
        &&& self.topology() == before.topology()
        &&& self.slots() == before.slots()
        &&& self.dependencies() == before.dependencies()
        &&& self.spec_generation() == before.spec_generation()
        &&& self.exposed_order() == before.exposed_order()
        &&& self.embedded() == before.embedded()
    }

    /// Nothing but the graph's nodes and what they hold differs from `before`,
    /// and of the nodes only the one at `n`.
    pub open spec fn same_but_node(&self, before: &Asset, n: int) -> bool {
        &&& self.dependencies() == before.dependencies()
        &&& self.spec_generation() == before.spec_generation()
        &&& self.exposed_order() == before.exposed_order()
        &&& self.compiled() == before.compiled()
        &&& self.embedded() == before.embedded()
        &&& forall|m: int|
            0 <= m < before.slots().len() && m != n ==> m < self.slots().len()
                && self.slots()[m] == before.slots()[m]
    }

    /// Nothing but the graph's edges and what they hold differs from `before`,
    /// and of the edges only the one at `e`.
    pub open spec fn same_but_edge(&self, before: &Asset, e: int) -> bool {
        &&& self.slots() == before.slots()
        &&& self.spec_generation() == before.spec_generation()
        &&& self.exposed_order() == before.exposed_order()
        &&& self.compiled() == before.compiled()
        &&& self.embedded() == before.embedded()
        &&& forall|d: int|
            0 <= d < before.dependencies().len() && d != e ==> d < self.dependencies().len()
                && self.dependencies()[d] == before.dependencies()[d]
    }

    /// The graph with nothing in it but the sentinel.
    pub fn new() -> (asset: Self)
        ensures
            asset.wf(),
            topology_view(asset.topology()) == GraphView::empty().with_node(SENTINEL as int),
            asset.dependencies().len() == 0,
            asset.spec_generation() == 0,
            asset.compiled() is None,
            asset.embedded().len() == 0,
            asset.slots().len() == 1,
    {
        let mut graph = topology_new();
        let mut nodes: Vec<Option<NodeSlot>> = Vec::new();
        proof {
            assert(Set::<int>::empty().len() == 0);
        }
        let added = topology_add_node(&mut graph);
        nodes.push(Some(NodeSlot { metadata: NodeMetadata::empty(), node: Nodes::Expose }));
        let asset = Asset {
            metadata: AssetMetadata { position: plane_from_ints(0, 0) },
            graph,
            nodes,
            edges: Vec::new(),
            exposed_property_order: Vec::new(),
            sub_assets: Vec::new(),
            template: None,
            generation: 0,
        };
        proof {
            lemma_with_node_wf(GraphView::empty(), 0);
            assert(asset.dependencies() =~= Seq::empty());
        }
        asset
    }

    /// Puts what a node holds under its index, growing the array as needed.
    fn place_slot(nodes: &mut Vec<Option<NodeSlot>>, n: usize, slot: NodeSlot)
        requires
            n < GRAPH_LIMIT,
            old(nodes).len() <= GRAPH_LIMIT,
        ensures
            final(nodes).len() <= GRAPH_LIMIT,
            final(nodes).len() == (if n >= old(nodes).len() {
                n + 1
            } else {
                old(nodes).len() as int
            }),
            final(nodes)[n as int] == Some(slot),
            forall|m: int|
                0 <= m < old(nodes).len() && m != n ==> final(nodes)[m] == old(nodes)[m],
            forall|m: int|
                old(nodes).len() <= m < final(nodes).len() && m != n ==> final(nodes)[m] is None,
    {
        while nodes.len() <= n
            invariant
                n < GRAPH_LIMIT,
                old(nodes).len() <= nodes.len() <= GRAPH_LIMIT,
                nodes.len() <= n + 1 || nodes.len() == old(nodes).len(),
                forall|m: int| 0 <= m < old(nodes).len() ==> nodes[m] == old(nodes)[m],
                forall|m: int| old(nodes).len() <= m < nodes.len() ==> nodes[m] is None,
            decreases n + 1 - nodes.len(),
        {
            nodes.push(None);
        }
        nodes.set(n, Some(slot));
    }

    /// Puts what an edge holds under its index, growing the array as needed.
    fn place_dependency(edges: &mut Vec<Option<Dependency>>, e: usize, dependency: Dependency)
        requires
            e < GRAPH_LIMIT,
            old(edges).len() <= GRAPH_LIMIT,
        ensures
            final(edges).len() <= GRAPH_LIMIT,
            final(edges).len() == (if e >= old(edges).len() {
                e + 1
            } else {
                old(edges).len() as int
            }),
            final(edges)[e as int] == Some(dependency),
            forall|d: int|
                0 <= d < old(edges).len() && d != e ==> final(edges)[d] == old(edges)[d],
            forall|d: int|
                old(edges).len() <= d < final(edges).len() && d != e ==> final(edges)[d] is None,
    {
        while edges.len() <= e
            invariant
                e < GRAPH_LIMIT,
                old(edges).len() <= edges.len() <= GRAPH_LIMIT,
                edges.len() <= e + 1 || edges.len() == old(edges).len(),
                forall|d: int| 0 <= d < old(edges).len() ==> edges[d] == old(edges)[d],
                forall|d: int| old(edges).len() <= d < edges.len() ==> edges[d] is None,
            decreases e + 1 - edges.len(),
        {
            edges.push(None);
        }
        edges.set(e, Some(dependency));
    }

    /// Adds a node. The alias `EmbeddedAsset` embeds a new asset, as
    /// `add_subgraph` does; every other alias names a kind of node, and the
    /// node gets the default properties of its kind. It fails when the alias
    /// names nothing and when the graph is full; the graph is then as it was.
    pub fn add_node(&mut self, alias: &str) -> (r: Result<NodeIndex, AssetError>)
        requires
            old(self).wf(),
        ensures
            final(self).wf(),
            if alias@ == "EmbeddedAsset"@ {
                old(self).embedded_added(final(self), r)
            } else {
                old(self).node_added(final(self), alias@, r)
            },
    {
        if same_text(alias, "EmbeddedAsset") {
            self.add_subgraph()
        } else {
            self.add_plain_node(alias)
        }
    }

    /// `after` and `r` are what adding a node of the kind that the alias
    /// names gives.
    pub open spec fn node_added(&self, after: &Asset, alias: Seq<char>, r: Result<NodeIndex, AssetError>) -> bool {
        match r {
            Ok(n) => {
                &&& kind_of_alias(alias) is Some
                &&& graph_nodes(self.topology()).len() < GRAPH_LIMIT
                &&& !self.has_node(n)
                &&& n.0 <= topology_view(self.topology()).node_slots
                &&& topology_view(after.topology()) == topology_view(self.topology()).with_node(
                    n.0 as int,
                )
                &&& after.same_but_node(self, n.0 as int)
                &&& after.slots().len() == (if n.0 >= self.slots().len() {
                    n.0 + 1
                } else {
                    self.slots().len() as int
                })
                &&& after.slots()[n.0 as int] is Some
                &&& after.slots()[n.0 as int]->Some_0.node.kind() == kind_of_alias(alias)->Some_0
                &&& after.slots()[n.0 as int]->Some_0.node.is_default()
                &&& after.slots()[n.0 as int]->Some_0.metadata@ == (NodeMetadataView {
                    name: Seq::empty(),
                    position: vec2_from_ints(0, 0),
                    dirty: false,
                })
            },
            Err(e) => {
                &&& *after == *self
                &&& e == (if kind_of_alias(alias) is None {
                    AssetError::UnknownAlias
                } else {
                    AssetError::GraphFull
                })
                &&& kind_of_alias(alias) is Some ==> graph_nodes(self.topology()).len()
                    >= GRAPH_LIMIT
            },
        }
    }

    /// `after` and `r` are what embedding a new asset gives. A new asset is
    /// made and compiled, and a new instance of it is computed. The asset is
    /// kept with this one, and a node named `EmbeddedAsset` that holds what
    /// the instance handed out, the mesh of the new asset's box, is added to
    /// stand for it. It fails when the graph is full, and with the compile
    /// error of the new asset when that cannot be compiled; this asset is
    /// then as it was. Once compiled, a new asset always hands its mesh out.
    pub open spec fn embedded_added(&self, after: &Asset, r: Result<NodeIndex, AssetError>) -> bool {
        match r {
            Ok(n) => {
                &&& graph_nodes(self.topology()).len() < GRAPH_LIMIT
                &&& !self.has_node(n)
                &&& topology_view(after.topology()) == topology_view(self.topology()).with_node(
                    n.0 as int,
                )
                &&& after.dependencies() == self.dependencies()
                &&& after.spec_generation() == self.spec_generation()
                &&& after.exposed_order() == self.exposed_order()
                &&& after.compiled() == self.compiled()
                &&& forall|m: int|
                    0 <= m < self.slots().len() && m != n.0 ==> m < after.slots().len()
                        && after.slots()[m] == self.slots()[m]
                &&& n.0 < after.slots().len()
                &&& after.slots()[n.0 as int] is Some
                &&& after.slots()[n.0 as int]->Some_0.node is EmbeddedAsset
                &&& after.slots()[n.0 as int]->Some_0.metadata@ == (NodeMetadataView {
                    name: "EmbeddedAsset"@,
                    position: vec2_from_ints(0, 0),
                    dirty: false,
                })
                &&& after.embedded().len() == self.embedded().len() + 1
                &&& after.embedded().take(self.embedded().len() as int) == self.embedded()
                &&& after.embedded().last() is Internal
                &&& after.embedded().last().spec_nodes() == seq![n]
                &&& after.embedded().last()->Internal_0.wf()
                &&& after.embedded().last()->Internal_0.is_compiled_seed()
                &&& after.embedded().last()->Internal_0.first_outcome(
                    Ok(after.slots()[n.0 as int]->Some_0.node->EmbeddedAsset_0@),
                )
                &&& after.embedded().last()->Internal_0.authored().node_of(2).computed(
                    Seq::empty(),
                ) == Ok::<Seq<ValueView>, OperationError>(
                    after.slots()[n.0 as int]->Some_0.node->EmbeddedAsset_0@,
                )
            },
            Err(e) => {
                &&& *after == *self
                &&& match e {
                    AssetError::GraphFull => graph_nodes(self.topology()).len() >= GRAPH_LIMIT,
                    AssetError::Compile(c) => graph_nodes(self.topology()).len() < GRAPH_LIMIT
                        && exists|seed: Asset|
                        seed.wf() && seed.is_seed() && #[trigger] seed.authored().failure() == Some(
                            c,
                        ),
                    _ => false,
                }
            },
        }
    }

    /// Embeds a new asset: a node that stands for it is added, and the asset
    /// is kept with this one. The node hands out what an instance of the new
    /// asset hands out.
    pub fn add_subgraph(&mut self) -> (r: Result<NodeIndex, AssetError>)
        requires
            old(self).wf(),
        ensures
            final(self).wf(),
            old(self).embedded_added(final(self), r),
    {
        if topology_node_count(&self.graph) >= GRAPH_LIMIT {
            return Err(AssetError::GraphFull);
        }
        let mut asset = Asset::default();
        let ghost seed = asset;
        let mut instance = match asset.get_instance() {
            Ok(instance) => instance,
            Err(e) => {
                return Err(AssetError::Compile(e));
            },
        };
        let ghost kept = asset;
        let ghost fresh = instance;
        let outputs = match asset.template() {
            Some(template) => match instance.compute(template) {
                Ok(outputs) => outputs,
                Err(e) => {
                    proof {
                        law_single_producer_hands_out_what_it_computes(
                            kept.authored(),
                            0,
                            kept.compiled()->Some_0,
                            fresh,
                            instance,
                            Err::<Seq<ValueView>, EvaluationError>(e),
                        );
                        assert(false);
                    }
                    return Err(AssetError::Evaluate(e));
                },
            },
            None => {
                proof {
                    assert(false);
                }
                return Err(AssetError::GraphFull);
            },
        };
        proof {
            assert(fresh.evaluated(
                &kept.compiled()->Some_0,
                &instance,
                Ok::<Seq<ValueView>, EvaluationError>(crate::data_types::value_views(outputs@)),
            ));
            assert(kept.first_outcome(
                Ok::<Seq<ValueView>, EvaluationError>(crate::data_types::value_views(outputs@)),
            ));
            law_single_producer_hands_out_what_it_computes(
                kept.authored(),
                0,
                kept.compiled()->Some_0,
                fresh,
                instance,
                Ok::<Seq<ValueView>, EvaluationError>(crate::data_types::value_views(outputs@)),
            );
            lemma_box_mesh_is_ok(kept.authored().node_of(2)->Box_0@.size.value);
            assert(kept.authored().node_of(2).computed(Seq::empty())->Ok_0
                =~= crate::data_types::value_views(outputs@));
        }
        let n = topology_add_node(&mut self.graph);
        let mut metadata = NodeMetadata::empty();
        metadata.set_name(String::from_str("EmbeddedAsset"));
        let slot = NodeSlot { metadata, node: Nodes::EmbeddedAsset(EmbeddedV1::new(outputs)) };
        Self::place_slot(&mut self.nodes, n as usize, slot);
        let mut nodes: Vec<NodeIndex> = Vec::new();
        nodes.push(NodeIndex(n));
        let ghost before = self.sub_assets@;
        self.sub_assets.push(EmbeddedAsset::Internal(asset, nodes));
        proof {
            lemma_with_node_wf(topology_view(old(self).topology()), n as int);
            assert(self.dependencies() == old(self).dependencies());
            let g = topology_view(self.topology());
            assert forall|e: int|
                0 <= e < self.dependencies().len() && (#[trigger] self.dependencies()[e]) is Some
                    && self.dependencies()[e]->Some_0.is_exposed() implies g.edges[e].1
                == SENTINEL by {
                assert(old(self).dependencies()[e] is Some);
            }
            assert(self.embedded().take(old(self).embedded().len() as int) =~= old(
                self,
            ).embedded());
            assert(self.embedded().last().spec_nodes() =~= seq![NodeIndex(n)]);
        }
        Ok(NodeIndex(n))
    }

    /// Adds a node of the kind that the alias names, with the default
    /// properties of its kind. It fails when the alias names no kind and when
    /// the graph is full; the graph is then as it was.
    pub fn add_plain_node(&mut self, alias: &str) -> (r: Result<NodeIndex, AssetError>)
        requires
            old(self).wf(),
        ensures
            final(self).wf(),
            old(self).node_added(final(self), alias@, r),
    {
        let node = match Nodes::from_alias(alias) {
            Some(node) => node,
            None => {
                return Err(AssetError::UnknownAlias);
            },
        };
        if topology_node_count(&self.graph) >= GRAPH_LIMIT {
            return Err(AssetError::GraphFull);
        }
        let n = topology_add_node(&mut self.graph);
        let slot = NodeSlot { metadata: NodeMetadata::empty(), node };
        Self::place_slot(&mut self.nodes, n as usize, slot);
        proof {
            lemma_with_node_wf(topology_view(old(self).topology()), n as int);
            assert(self.dependencies() == old(self).dependencies());
            let g = topology_view(self.topology());
            assert forall|e: int|
                0 <= e < self.dependencies().len() && (#[trigger] self.dependencies()[e]) is Some
                    && self.dependencies()[e]->Some_0.is_exposed() implies g.edges[e].1
                == SENTINEL by {
                assert(old(self).dependencies()[e] is Some);
            }
        }
        Ok(NodeIndex(n))
    }

    /// Wires an output socket of one node to an input socket of another.
    /// Nothing is asked of the ports: whether the wire makes sense is what
    /// `allow_connection` tells. It fails when one of the nodes is missing
    /// and when the graph is full; the graph is then as it was.
    pub fn add_node_connection(
        &mut self,
        from: NodeIndex,
        from_port: u8,
        to: NodeIndex,
        to_port: u8,
    ) -> (r: Result<(), AssetError>)
        requires
            old(self).wf(),
        ensures
            final(self).wf(),
            match r {
                Ok(_) => old(self).has_node(from) && old(self).has_node(to) && exists|e: int|
                    final(self).added_edge(
                        old(self),
                        e,
                        from,
                        to,
                        DependencyView::Connection(from_port, to_port),
                    ),
                Err(e) => *final(self) == *old(self) && old(self).edge_refusal(
                    from,
                    to,
                    DependencyView::Connection(from_port, to_port),
                ) == Some(e),
            },
    {
        self.add_edge(from, to, Dependency::Connection([from_port, to_port]))
    }

    /// Why an edge from `from` to `to` with that dependency cannot be added,
    /// if it cannot: a node is missing, a dependency that exposes a property
    /// does not end at the sentinel, or the graph is full.
    pub open spec fn edge_refusal(&self, from: NodeIndex, to: NodeIndex, d: DependencyView) -> Option<
        AssetError,
    > {
        if !self.has_node(from) || !self.has_node(to) {
            Some(AssetError::MissingNode)
        } else if d.is_exposed() && to.0 != SENTINEL {
            Some(AssetError::ExposeTarget)
        } else if graph_edges(self.topology()).dom().len() >= GRAPH_LIMIT {
            Some(AssetError::GraphFull)
        } else {
            None
        }
    }

    /// This graph is `before` with one more edge `e` from `from` to `to`
    /// that holds `d`. The edge comes first among those that start at `from`
    /// and first among those that end at `to`.
    pub open spec fn added_edge(
        &self,
        before: &Asset,
        e: int,
        from: NodeIndex,
        to: NodeIndex,
        d: DependencyView,
    ) -> bool {
        &&& 0 <= e
        &&& self.dependencies().len() == (if e >= before.dependencies().len() {
            e + 1
        } else {
            before.dependencies().len() as int
        })
        &&& !graph_edges(before.topology()).contains_key(e)
        &&& e <= topology_view(before.topology()).edge_slots
        &&& topology_view(self.topology()) == topology_view(before.topology()).with_edge(
            e,
            from.0 as int,
            to.0 as int,
        )
        &&& self.dependencies()[e] == Some(d)
        &&& self.same_but_edge(before, e)
    }

    /// Adds an edge that holds the dependency.
    fn add_edge(&mut self, from: NodeIndex, to: NodeIndex, dependency: Dependency) -> (r: Result<
        (),
        AssetError,
    >)
        requires
            old(self).wf(),
        ensures
            final(self).wf(),
            match r {
                Ok(_) => old(self).has_node(from) && old(self).has_node(to) && exists|e: int|
                    final(self).added_edge(old(self), e, from, to, dependency@),
                Err(e) => *final(self) == *old(self) && old(self).edge_refusal(
                    from,
                    to,
                    dependency@,
                ) == Some(e),
            },
    {
        if !topology_contains_node(&self.graph, from.0) || !topology_contains_node(
            &self.graph,
            to.0,
        ) {
            return Err(AssetError::MissingNode);
        }
        if dependency.is_exposed() && to.0 != SENTINEL {
            return Err(AssetError::ExposeTarget);
        }
        if topology_edge_count(&self.graph) >= GRAPH_LIMIT {
            return Err(AssetError::GraphFull);
        }
        let e = match topology_add_edge(&mut self.graph, from.0, to.0) {
            Some(e) => e,
            None => {
                proof {
                    assert(false);
                }
                return Err(AssetError::GraphFull);
            },
        };
        let ghost d = dependency@;
        Self::place_dependency(&mut self.edges, e as usize, dependency);
        proof {
            let before = topology_view(old(self).topology());
            lemma_with_edge_wf(before, e as int, from.0 as int, to.0 as int);
            let g = topology_view(self.topology());
            assert(self.dependencies()[e as int] == Some(d));
            assert forall|x: int| g.edges.contains_key(x) implies x < self.dependencies().len() by {
                if x != e {
                    assert(before.edges.contains_key(x));
                }
            }
            assert forall|x: int| 0 <= x < self.dependencies().len() implies (g.edges.contains_key(
                x,
            ) <==> (#[trigger] self.dependencies()[x]) is Some) by {
                if x != e {
                    if x < old(self).dependencies().len() {
                        assert(self.dependencies()[x] == old(self).dependencies()[x]);
                    }
                }
            }
            assert forall|x: int|
                0 <= x < self.dependencies().len() && (#[trigger] self.dependencies()[x]) is Some
                    && self.dependencies()[x]->Some_0.is_exposed() implies g.edges[x].1
                == SENTINEL by {
                if x != e {
                    if x < old(self).dependencies().len() {
                        assert(self.dependencies()[x] == old(self).dependencies()[x]);
                    }
                }
            }
            assert(self.added_edge(old(self), e as int, from, to, d));
        }
        Ok(())
    }

    /// Whether an input port is still free: no connection ends at it yet.
    pub fn allow_connection(&self, from: NodeIndex, from_port: u8, to: NodeIndex, to_port: u8) -> (r:
        bool)
        requires
            self.wf(),
        ensures
            r == !self.port_taken(to, to_port),
    {
        self.connection_into(to, to_port).is_none()
    }

    /// The first connection, in the graph's order, that ends at the port.
    fn connection_into(&self, to: NodeIndex, to_port: u8) -> (found: Option<u16>)
        requires
            self.wf(),
        ensures
            found is Some <==> self.port_taken(to, to_port),
            found is Some ==> self.first_into(to, to_port) == found->Some_0,
            found is Some ==> graph_edges(self.topology()).contains_key(found->Some_0 as int)
                && found->Some_0 < self.dependencies().len(),
    {
        if !topology_contains_node(&self.graph, to.0) {
            return None;
        }
        let incoming = topology_incoming(&self.graph, to.0);
        let ghost list = graph_incoming(self.topology())[to.0 as int];
        let mut k: usize = 0;
        while k < incoming.len()
            invariant
                k <= incoming.len(),
                self.wf(),
                self.has_node(to),
                list == graph_incoming(self.topology())[to.0 as int],
                index_numbers(incoming@) == list,
                forall|j: int| 0 <= j < k ==> !self.ends_at_port(#[trigger] list[j], to_port),
            decreases incoming.len() - k,
        {
            let e: usize = incoming[k] as usize;
            proof {
                assert(index_numbers(incoming@)[k as int] == e);
                assert(list[k as int] == e);
                let g = topology_view(self.topology());
                assert(g.nodes.contains(to.0 as int));
                assert(g.edges.contains_key(g.incoming[to.0 as int][k as int]));
                assert(self.dependencies()[e as int] is Some);
            }
            match &self.edges[e] {
                Some(dependency) => {
                    proof {
                        assert(self.dependencies()[e as int] == Some(dependency@));
                    }
                    if dependency.is_connection() && dependency.port_to() == to_port {
                        proof {
                            assert(self.ends_at_port(list[k as int], to_port));
                            self.lemma_first_into(to, to_port, k as int);
                        }
                        return Some(incoming[k]);
                    }
                },
                None => {},
            }
            k += 1;
        }
        None
    }

    /// The place, in the list of the edges that end at `to`, of the first
    /// connection that ends at the port.
    pub open spec fn first_place(&self, to: NodeIndex, port: u8) -> int {
        choose|k: int|
            0 <= k < graph_incoming(self.topology())[to.0 as int].len() && self.ends_at_port(
                #[trigger] graph_incoming(self.topology())[to.0 as int][k],
                port,
            ) && forall|j: int|
                0 <= j < k ==> !self.ends_at_port(
                    #[trigger] graph_incoming(self.topology())[to.0 as int][j],
                    port,
                )
    }

    /// The first connection, in the graph's order, that ends at the port.
    pub open spec fn first_into(&self, to: NodeIndex, port: u8) -> int {
        graph_incoming(self.topology())[to.0 as int][self.first_place(to, port)]
    }

    /// The first connection into a port is the one before which no other
    /// connection into the port stands.
    proof fn lemma_first_into(&self, to: NodeIndex, port: u8, k: int)
        requires
            0 <= k < graph_incoming(self.topology())[to.0 as int].len(),
            self.ends_at_port(graph_incoming(self.topology())[to.0 as int][k], port),
            forall|j: int|
                0 <= j < k ==> !self.ends_at_port(
                    #[trigger] graph_incoming(self.topology())[to.0 as int][j],
                    port,
                ),
        ensures
            self.first_place(to, port) == k,
    {
        let c = self.first_place(to, port);
        if c < k {
            assert(!self.ends_at_port(graph_incoming(self.topology())[to.0 as int][c], port));
        } else if c > k {
            assert(self.ends_at_port(graph_incoming(self.topology())[to.0 as int][k], port));
        }
    }

    /// Adds a dependency of any kind. One that exposes a property has to end
    /// at the sentinel. It fails when it does not, when one of the nodes is
    /// missing and when the graph is full; the graph is then as it was.
    pub fn try_add_dependency(&mut self, from: NodeIndex, to: NodeIndex, dependency: Dependency) -> (r:
        Result<(), AssetError>)
        requires
            old(self).wf(),
        ensures
            final(self).wf(),
            match r {
                Ok(_) => old(self).has_node(from) && old(self).has_node(to) && exists|e: int|
                    final(self).added_edge(old(self), e, from, to, dependency@),
                Err(e) => *final(self) == *old(self) && old(self).edge_refusal(
                    from,
                    to,
                    dependency@,
                ) == Some(e),
            },
    {
        self.add_edge(from, to, dependency)
    }

    /// The nodes of the graph but for the sentinel, in ascending order.
    pub fn get_nodes(&self) -> (nodes: Vec<NodeIndex>)
        requires
            self.wf(),
        ensures
            forall|i: int, j: int| 0 <= i < j < nodes.len() ==> nodes[i].0 < nodes[j].0,
            forall|i: int| 0 <= i < nodes.len() ==> self.has_node(#[trigger] nodes[i]) && nodes[i].0
                != SENTINEL,
            forall|n: NodeIndex|
                self.has_node(n) && n.0 != SENTINEL ==> exists|i: int|
                    0 <= i < nodes.len() && #[trigger] nodes[i] == n,
    {
        let all = topology_node_indices(&self.graph);
        let mut nodes: Vec<NodeIndex> = Vec::new();
        let mut k: usize = 0;
        proof {
            assert(index_numbers(all@).contains(0));
            let z = choose|z: int| 0 <= z < all.len() && index_numbers(all@)[z] == 0;
            assert(all[z] == 0);
            assert(z == 0) by {
                if z > 0 {
                    assert(all[0] < all[z]);
                }
            }
        }
        if all.len() > 0 {
            k = 1;
        }
        while k < all.len()
            invariant
                1 <= k <= all.len(),
                all.len() > 0,
                all[0] == 0,
                nodes.len() == k - 1,
                forall|i: int, j: int| 0 <= i < j < all.len() ==> all[i] < all[j],
                forall|i: int| 0 <= i < nodes.len() ==> (#[trigger] nodes[i]).0 == all[i + 1],
            decreases all.len() - k,
        {
            nodes.push(NodeIndex(all[k]));
            k += 1;
        }
        proof {
            assert forall|i: int| 0 <= i < nodes.len() implies self.has_node(#[trigger] nodes[i])
                && nodes[i].0 != SENTINEL by {
                assert(index_numbers(all@)[i + 1] == all[i + 1]);
                assert(index_numbers(all@).contains(all[i + 1] as int));
                assert(all[0] < all[i + 1]);
            }
            assert forall|n: NodeIndex| self.has_node(n) && n.0 != SENTINEL implies exists|i: int|
                0 <= i < nodes.len() && #[trigger] nodes[i] == n by {
                assert(index_numbers(all@).contains(n.0 as int));
                let z = choose|z: int| 0 <= z < all.len() && index_numbers(all@)[z] == n.0;
                assert(z != 0);
                assert(nodes[z - 1].0 == all[z]);
                assert(nodes[z - 1] == n);
            }
        }
        nodes
    }

    /// What the node holds.
    pub fn get_node(&self, index: NodeIndex) -> (slot: Option<&NodeSlot>)
        requires
            self.wf(),
        ensures
            match slot {
                Some(s) => self.has_node(index) && self.slots()[index.0 as int] == Some(*s),
                None => !self.has_node(index),
            },
    {
        let n: usize = index.0 as usize;
        if n < self.nodes.len() {
            match &self.nodes[n] {
                Some(slot) => Some(slot),
                None => None,
            }
        } else {
            None
        }
    }

    /// The connections of the graph, in ascending order of their indices.
    /// Dependencies of other kinds are left out.
    pub fn get_node_connections(&self) -> (connections: Vec<EdgeIndex>)
        requires
            self.wf(),
        ensures
            forall|i: int, j: int|
                0 <= i < j < connections.len() ==> connections[i].0 < connections[j].0,
            forall|i: int|
                0 <= i < connections.len() ==> self.is_connection_edge(
                    (#[trigger] connections[i]).0 as int,
                ),
            forall|e: EdgeIndex|
                self.is_connection_edge(e.0 as int) ==> exists|i: int|
                    0 <= i < connections.len() && #[trigger] connections[i] == e,
    {
        let all = topology_edge_indices(&self.graph);
        let mut connections: Vec<EdgeIndex> = Vec::new();
        let ghost mut places: Seq<int> = Seq::empty();
        let mut k: usize = 0;
        while k < all.len()
            invariant
                k <= all.len(),
                self.wf(),
                forall|i: int, j: int| 0 <= i < j < all.len() ==> all[i] < all[j],
                forall|e: int|
                    graph_edges(self.topology()).contains_key(e) <==> index_numbers(all@).contains(
                        e,
                    ),
                places.len() == connections.len(),
                forall|i: int|
                    0 <= i < connections.len() ==> 0 <= #[trigger] places[i] < k
                        && connections[i].0 == all[places[i]] && self.is_connection_edge(
                        connections[i].0 as int,
                    ),
                forall|i: int, j: int| 0 <= i < j < places.len() ==> places[i] < places[j],
                forall|z: int|
                    0 <= z < k && self.is_connection_edge(all[z] as int) ==> exists|i: int|
                        0 <= i < connections.len() && #[trigger] places[i] == z,
            decreases all.len() - k,
        {
            let e: usize = all[k] as usize;
            proof {
                assert(index_numbers(all@)[k as int] == e);
                assert(index_numbers(all@).contains(e as int));
                assert(graph_edges(self.topology()).contains_key(e as int));
                assert(topology_view(self.topology()).edges.contains_key(e as int));
                assert(self.dependencies()[e as int] is Some);
            }
            let is_connection = match &self.edges[e] {
                Some(dependency) => {
                    proof {
                        assert(self.dependencies()[e as int] == Some(dependency@));
                    }
                    dependency.is_connection()
                },
                None => false,
            };
            if is_connection {
                connections.push(EdgeIndex(all[k]));
                proof {
                    let earlier = places;
                    places = places.push(k as int);
                    assert forall|z: int|
                        0 <= z < k + 1 && self.is_connection_edge(all[z] as int) implies exists|
                        i: int,
                    |
                        0 <= i < connections.len() && #[trigger] places[i] == z by {
                        if z < k {
                            let i = choose|i: int| 0 <= i < earlier.len() && earlier[i] == z;
                            assert(places[i] == z);
                        } else {
                            assert(places[places.len() - 1] == z);
                        }
                    }
                }
            }
            k += 1;
        }
        proof {
            assert forall|i: int| 0 <= i < connections.len() implies self.is_connection_edge(
                (#[trigger] connections[i]).0 as int,
            ) by {
                assert(0 <= places[i]);
            }
            assert forall|i: int, j: int| 0 <= i < j < connections.len() implies connections[i].0
                < connections[j].0 by {
                assert(places[i] < places[j]);
            }
            assert forall|e: EdgeIndex| self.is_connection_edge(e.0 as int) implies exists|i: int|
                0 <= i < connections.len() && #[trigger] connections[i] == e by {
                assert(index_numbers(all@).contains(e.0 as int));
                let z = choose|z: int| 0 <= z < all.len() && index_numbers(all@)[z] == e.0;
                let i = choose|i: int| 0 <= i < connections.len() && #[trigger] places[i] == z;
                assert(connections[i].0 == all[z]);
                assert(connections[i] == e);
            }
        }
        connections
    }

    /// The edge is there and holds a connection.
    pub open spec fn is_connection_edge(&self, e: int) -> bool {
        &&& graph_edges(self.topology()).contains_key(e)
        &&& 0 <= e < self.dependencies().len()
        &&& self.dependencies()[e] is Some
        &&& self.dependencies()[e]->Some_0 is Connection
    }

    /// A copy of what the edge holds.
    pub fn get_connection(&self, index: EdgeIndex) -> (dependency: Option<Dependency>)
        requires
            self.wf(),
        ensures
            match dependency {
                Some(d) => self.has_edge(index) && self.dependencies()[index.0 as int] == Some(d@),
                None => !self.has_edge(index),
            },
    {
        let e: usize = index.0 as usize;
        proof {
            let g = topology_view(self.topology());
            if g.edges.contains_key(e as int) {
                assert(e < self.dependencies().len());
            }
        }
        if e < self.edges.len() {
            proof {
                assert(self.dependencies()[e as int] is Some <==> self.edges[e as int] is Some);
            }
            match &self.edges[e] {
                Some(dependency) => {
                    proof {
                        assert(self.dependencies()[e as int] == Some(dependency@));
                    }
                    Some(dependency.clone())
                },
                None => None,
            }
        } else {
            None
        }
    }

    /// The node at which the edge starts and the node at which it ends.
    pub fn get_edge_endpoints(&self, index: EdgeIndex) -> (ends: Option<(NodeIndex, NodeIndex)>)
        ensures
            match ends {
                Some((from, to)) => self.has_edge(index) && graph_edges(
                    self.topology(),
                )[index.0 as int] == (from.0 as int, to.0 as int),
                None => !self.has_edge(index),
            },
    {
        match topology_edge_endpoints(&self.graph, index.0) {
            Some((a, b)) => Some((NodeIndex(a), NodeIndex(b))),
            None => None,
        }
    }

    /// The names of the exposed properties, in the order the editor shows them.
    pub fn exposed_property_order(&self) -> (names: Vec<String>)
        ensures
            names@ == self.exposed_order(),
    {
        let mut names: Vec<String> = Vec::new();
        let mut k: usize = 0;
        while k < self.exposed_property_order.len()
            invariant
                k <= self.exposed_property_order.len(),
                names@ == self.exposed_property_order@.take(k as int),
            decreases self.exposed_property_order.len() - k,
        {
            names.push(self.exposed_property_order[k].clone());
            proof {
                assert(self.exposed_property_order@.take(k + 1)
                    == self.exposed_property_order@.take(k as int).push(
                    self.exposed_property_order@[k as int],
                ));
            }
            k += 1;
        }
        proof {
            assert(self.exposed_property_order@.take(k as int) == self.exposed_property_order@);
        }
        names
    }

    /// Sets the order in which the editor shows the exposed properties.
    pub fn set_exposed_property_order(&mut self, names: Vec<String>)
        ensures
            final(self).exposed_order() == names@,
            final(self).topology() == old(self).topology(),
            final(self).slots() == old(self).slots(),
            final(self).dependencies() == old(self).dependencies(),
            final(self).spec_generation() == old(self).spec_generation(),
            final(self).compiled() == old(self).compiled(),
            final(self).embedded() == old(self).embedded(),
            final(self).wf() == old(self).wf(),
    {
        self.exposed_property_order = names;
    }

    /// The assets that are embedded in this one, in the order they were added.
    pub fn sub_assets(&self) -> (embedded: &Vec<EmbeddedAsset>)
        ensures
            embedded@ == self.embedded(),
    {
        &self.sub_assets
    }

    /// Where the asset is drawn when it is embedded in another.
    pub fn metadata(&self) -> (metadata: &AssetMetadata)
        ensures
            metadata.spec_position() == self.spec_position(),
    {
        &self.metadata
    }

    /// How often the graph was compiled anew.
    pub fn generation(&self) -> (generation: u16)
        ensures
            generation == self.spec_generation(),
    {
        self.generation
    }
}


impl Asset {
    /// Replaces the editor's record of a node. It fails for an index that
    /// names no node, and the graph is then as it was.
    pub fn set_node_metadata(&mut self, index: NodeIndex, metadata: NodeMetadata) -> (r: Result<
        (),
        AssetError,
    >)
        requires
            old(self).wf(),
        ensures
            final(self).wf(),
            match r {
                Ok(_) => {
                    &&& old(self).has_node(index)
                    &&& final(self).same_but_slot(old(self), index.0 as int)
                    &&& final(self).slots()[index.0 as int] is Some
                    &&& final(self).slots()[index.0 as int]->Some_0.node == old(
                        self,
                    ).slots()[index.0 as int]->Some_0.node
                    &&& final(self).slots()[index.0 as int]->Some_0.metadata == metadata
                },
                Err(e) => *final(self) == *old(self) && !old(self).has_node(index) && e
                    == AssetError::MissingNode,
            },
    {
        let n: usize = index.0 as usize;
        if n >= self.nodes.len() || self.nodes[n].is_none() {
            return Err(AssetError::MissingNode);
        }
        self.nodes.push(None);
        let taken = self.nodes.swap_remove(n);
        match taken {
            Some(slot) => {
                self.nodes.set(n, Some(NodeSlot { metadata, node: slot.node }));
            },
            None => {
                proof {
                    assert(false);
                }
            },
        }
        Ok(())
    }

    /// Sets where the asset is drawn when it is embedded in another.
    pub fn set_metadata(&mut self, metadata: AssetMetadata)
        ensures
            final(self).spec_position() == metadata.spec_position(),
            final(self).exposed_order() == old(self).exposed_order(),
            final(self).topology() == old(self).topology(),
            final(self).slots() == old(self).slots(),
            final(self).dependencies() == old(self).dependencies(),
            final(self).spec_generation() == old(self).spec_generation(),
            final(self).compiled() == old(self).compiled(),
            final(self).embedded() == old(self).embedded(),
            final(self).wf() == old(self).wf(),
    {
        self.metadata = metadata;
    }

    /// Why the property of the node does not take the value, if it does not.
    pub open spec fn property_refusal(&self, index: NodeIndex, name: Seq<char>, value: ValueView) -> Option<
        AssetError,
    > {
        if !self.has_node(index) {
            Some(AssetError::MissingNode)
        } else {
            match self.slots()[index.0 as int]->Some_0.node.refusal(name, value) {
                Some(e) => Some(AssetError::Property(e)),
                None => None,
            }
        }
    }

    /// Sets a property of a node and notes that the node changed. When the
    /// node is missing or turns the value down, the graph is as it was.
    pub fn set_node_property(&mut self, index: NodeIndex, property: &str, value: DataTypeInstance) -> (r:
        Result<(), AssetError>)
        requires
            old(self).wf(),
        ensures
            final(self).wf(),
            match r {
                Ok(_) => {
                    &&& old(self).property_refusal(index, property@, value@) is None
                    &&& final(self).same_but_slot(old(self), index.0 as int)
                    &&& final(self).slots()[index.0 as int] is Some
                    &&& old(self).slots()[index.0 as int]->Some_0.node.property_set(
                        property@,
                        value@,
                        &final(self).slots()[index.0 as int]->Some_0.node,
                    )
                    &&& final(self).slots()[index.0 as int]->Some_0.metadata@ == (NodeMetadataView {
                        dirty: true,
                        ..old(self).slots()[index.0 as int]->Some_0.metadata@
                    })
                },
                Err(e) => *final(self) == *old(self) && old(self).property_refusal(
                    index,
                    property@,
                    value@,
                ) == Some(e),
            },
    {
        let n: usize = index.0 as usize;
        if n >= self.nodes.len() {
            return Err(AssetError::MissingNode);
        }
        let (mut node, mut metadata) = match &self.nodes[n] {
            Some(slot) => (slot.node.clone(), slot.metadata.clone()),
            None => {
                return Err(AssetError::MissingNode);
            },
        };
        let ghost before = old(self).slots()[n as int]->Some_0.node;
        let ghost copy = node;
        match node.try_set_property(property, value) {
            Ok(_) => {},
            Err(e) => {
                proof {
                    lemma_same_refusal(copy, before, property@, value@);
                }
                return Err(AssetError::Property(e));
            },
        }
        metadata.set_dirty();
        proof {
            lemma_same_refusal(copy, before, property@, value@);
            lemma_same_property_set(copy, before, property@, value@, node);
        }
        self.nodes.set(n, Some(NodeSlot { metadata, node }));
        Ok(())
    }
}

impl Asset {
    /// Forgets what is kept for edges that the graph no longer has.
    fn drop_dependencies_of_missing_edges(&mut self)
        requires
            topology_view(old(self).topology()).wf(),
            old(self).dependencies().len() <= GRAPH_LIMIT,
            forall|e: int|
                graph_edges(old(self).topology()).contains_key(e) ==> 0 <= e < old(
                    self,
                ).dependencies().len() && (#[trigger] old(self).dependencies()[e]) is Some,
        ensures
            final(self).topology() == old(self).topology(),
            final(self).slots() == old(self).slots(),
            final(self).spec_generation() == old(self).spec_generation(),
            final(self).exposed_order() == old(self).exposed_order(),
            final(self).compiled() == old(self).compiled(),
            final(self).embedded() == old(self).embedded(),
            final(self).dependencies().len() == old(self).dependencies().len(),
            forall|e: int|
                0 <= e < final(self).dependencies().len() ==> (
                #[trigger] final(self).dependencies()[e]) == (if graph_edges(
                    old(self).topology(),
                ).contains_key(e) {
                    old(self).dependencies()[e]
                } else {
                    None
                }),
    {
        let mut e: usize = 0;
        while e < self.edges.len()
            invariant
                e <= self.edges.len(),
                self.edges.len() == old(self).edges.len(),
                self.edges.len() <= GRAPH_LIMIT,
                self.topology() == old(self).topology(),
                self.slots() == old(self).slots(),
                self.spec_generation() == old(self).spec_generation(),
                self.exposed_order() == old(self).exposed_order(),
                self.compiled() == old(self).compiled(),
                self.embedded() == old(self).embedded(),
                forall|d: int|
                    0 <= d < e ==> (#[trigger] self.dependencies()[d]) == (if graph_edges(
                        old(self).topology(),
                    ).contains_key(d) {
                        old(self).dependencies()[d]
                    } else {
                        None
                    }),
                forall|d: int|
                    e <= d < self.edges.len() ==> (#[trigger] self.dependencies()[d]) == old(
                        self,
                    ).dependencies()[d],
            decreases self.edges.len() - e,
        {
            let ghost earlier = self.dependencies();
            if topology_edge_endpoints(&self.graph, e as u16).is_none() {
                self.edges.set(e, None);
            }
            proof {
                assert forall|d: int| 0 <= d < self.edges.len() && d != e implies (
                #[trigger] self.dependencies()[d]) == earlier[d] by {}
            }
            e += 1;
        }
    }

    /// Why the node cannot be removed, if it cannot.
    pub open spec fn removal_refusal(&self, index: NodeIndex) -> Option<AssetError> {
        if index.0 == SENTINEL {
            Some(AssetError::SentinelProtected)
        } else if !self.has_node(index) {
            Some(AssetError::MissingNode)
        } else {
            None
        }
    }

    /// Removes a node together with every edge that starts or ends at it,
    /// and hands out what the node held. The other nodes and edges keep their
    /// indices. The sentinel stays; it fails for the sentinel and for an
    /// index that names no node, and the graph is then as it was.
    pub fn delete_node(&mut self, index: NodeIndex) -> (r: Result<NodeSlot, AssetError>)
        requires
            old(self).wf(),
        ensures
            final(self).wf(),
            match r {
                Ok(slot) => {
                    &&& old(self).removal_refusal(index) is None
                    &&& old(self).slots()[index.0 as int] == Some(slot)
                    &&& topology_view(final(self).topology()) == topology_view(
                        old(self).topology(),
                    ).without_node(index.0 as int)
                    &&& final(self).slots() == old(self).slots().update(index.0 as int, None)
                    &&& final(self).dependencies().len() == old(self).dependencies().len()
                    &&& forall|e: int|
                        0 <= e < final(self).dependencies().len() ==> (
                        #[trigger] final(self).dependencies()[e]) == (if graph_edges(
                            final(self).topology(),
                        ).contains_key(
                            e,
                        ) {
                            old(self).dependencies()[e]
                        } else {
                            None
                        })
                    &&& final(self).spec_generation() == old(self).spec_generation()
                    &&& final(self).exposed_order() == old(self).exposed_order()
                    &&& final(self).compiled() == old(self).compiled()
                    &&& final(self).embedded() == old(self).embedded()
                },
                Err(e) => *final(self) == *old(self) && old(self).removal_refusal(index) == Some(
                    e,
                ),
            },
    {
        if index.0 == SENTINEL {
            return Err(AssetError::SentinelProtected);
        }
        if !topology_contains_node(&self.graph, index.0) {
            return Err(AssetError::MissingNode);
        }
        let n: usize = index.0 as usize;
        let removed = topology_remove_node(&mut self.graph, index.0);
        self.nodes.push(None);
        let slot = self.nodes.swap_remove(n);
        proof {
            let before = topology_view(old(self).topology());
            lemma_without_node_wf(before, n as int);
            assert(self.slots() =~= old(self).slots().update(n as int, None));
            let g = topology_view(self.topology());
            assert forall|e: int| graph_edges(self.topology()).contains_key(e) implies 0 <= e
                < self.dependencies().len() && (#[trigger] self.dependencies()[e]) is Some by {
                assert(before.edges.contains_key(e));
            }
        }
        let ghost middle = *self;
        self.drop_dependencies_of_missing_edges();
        proof {
            let before = topology_view(old(self).topology());
            let g = topology_view(self.topology());
            assert forall|e: int| 0 <= e < self.dependencies().len() implies (g.edges.contains_key(
                e,
            ) <==> (#[trigger] self.dependencies()[e]) is Some) by {
                if g.edges.contains_key(e) {
                    assert(before.edges.contains_key(e));
                }
            }
            assert forall|e: int|
                0 <= e < self.dependencies().len() && (#[trigger] self.dependencies()[e]) is Some
                    && self.dependencies()[e]->Some_0.is_exposed() implies g.edges[e].1
                == SENTINEL by {
                assert(g.edges.contains_key(e));
                assert(before.edges.contains_key(e));
                assert(old(self).dependencies()[e] is Some);
            }
            assert forall|m: int| 0 <= m < self.slots().len() implies (g.nodes.contains(m) <==> (
            #[trigger] self.slots()[m]) is Some) by {
                if m != n {
                    assert(self.slots()[m] == old(self).slots()[m]);
                }
            }
            assert forall|m: int|
                0 <= m < self.slots().len() && (#[trigger] self.slots()[m]) is Some implies (
            self.slots()[m]->Some_0.node is Expose <==> m == SENTINEL) by {
                assert(self.slots()[m] == old(self).slots()[m]);
            }
        }
        match slot {
            Some(slot) => Ok(slot),
            None => {
                proof {
                    assert(false);
                }
                Err(AssetError::MissingNode)
            },
        }
    }

    /// Removes the first connection, in the graph's order, that ends at the
    /// port `to_port` of `to`. Where the connection starts is not asked. It
    /// fails when no connection ends there, and the graph is then as it was.
    pub fn delete_connection(&mut self, from: NodeIndex, from_port: u8, to: NodeIndex, to_port: u8) -> (r:
        Result<(), AssetError>)
        requires
            old(self).wf(),
        ensures
            final(self).wf(),
            match r {
                Ok(_) => {
                    let e = old(self).first_into(to, to_port);
                    &&& old(self).port_taken(to, to_port)
                    &&& topology_view(final(self).topology()) == topology_view(
                        old(self).topology(),
                    ).without_edges(set![e])
                    &&& final(self).dependencies() == old(self).dependencies().update(e, None)
                    &&& final(self).slots() == old(self).slots()
                    &&& final(self).spec_generation() == old(self).spec_generation()
                    &&& final(self).exposed_order() == old(self).exposed_order()
                    &&& final(self).compiled() == old(self).compiled()
                    &&& final(self).embedded() == old(self).embedded()
                },
                Err(e) => *final(self) == *old(self) && !old(self).port_taken(to, to_port) && e
                    == AssetError::MissingEdge,
            },
    {
        let e = match self.connection_into(to, to_port) {
            Some(e) => e,
            None => {
                return Err(AssetError::MissingEdge);
            },
        };
        self.take_edge_out(e);
        Ok(())
    }

    /// Removes the edge at `e` from the graph and from the array of the edges.
    fn take_edge_out(&mut self, e: u16)
        requires
            old(self).wf(),
            graph_edges(old(self).topology()).contains_key(e as int),
        ensures
            final(self).wf(),
            topology_view(final(self).topology()) == topology_view(
                old(self).topology(),
            ).without_edges(set![e as int]),
            final(self).dependencies() == old(self).dependencies().update(e as int, None),
            final(self).slots() == old(self).slots(),
            final(self).spec_generation() == old(self).spec_generation(),
            final(self).exposed_order() == old(self).exposed_order(),
            final(self).compiled() == old(self).compiled(),
            final(self).embedded() == old(self).embedded(),
    {
        let removed = topology_remove_edge(&mut self.graph, e);
        self.edges.set(e as usize, None);
        proof {
            assert(self.dependencies() =~= old(self).dependencies().update(e as int, None));
            lemma_edge_taken_out(old(self), self, e as int);
        }
    }

    /// Whether the properties of a node changed since the graph was last compiled.
    pub fn has_changed(&self) -> (changed: bool)
        ensures
            changed == self.some_node_dirty(),
    {
        let mut n: usize = 0;
        while n < self.nodes.len()
            invariant
                n <= self.nodes.len(),
                forall|m: int| 0 <= m < n ==> !self.node_dirty(m),
            decreases self.nodes.len() - n,
        {
            match &self.nodes[n] {
                Some(slot) => {
                    if slot.metadata.is_dirty() {
                        proof {
                            assert(self.node_dirty(n as int));
                        }
                        return true;
                    }
                },
                None => {},
            }
            n += 1;
        }
        false
    }

    /// The node is there and its properties changed since the graph was last compiled.
    pub open spec fn node_dirty(&self, n: int) -> bool {
        0 <= n < self.slots().len() && self.slots()[n] is Some
            && self.slots()[n]->Some_0.metadata@.dirty
    }

    /// The properties of some node changed since the graph was last compiled.
    pub open spec fn some_node_dirty(&self) -> bool {
        exists|n: int| self.node_dirty(n)
    }
}

impl Asset {
    /// What the graph was last compiled to, if it was compiled.
    pub fn template(&self) -> (template: Option<&AssetTemplate>)
        requires
            self.wf(),
        ensures
            match template {
                Some(t) => self.compiled() == Some(*t) && t.wf(),
                None => self.compiled() is None,
            },
    {
        match &self.template {
            Some(t) => Some(t),
            None => None,
        }
    }

    /// Hands out a new instance of the compiled graph. The graph is compiled
    /// first if it never was. If it cannot be compiled, the asset is as it was.
    pub fn get_instance(&mut self) -> (r: Result<AssetInstance, CompileError>)
        requires
            old(self).wf(),
        ensures
            final(self).wf(),
            final(self).same_but_compiled(old(self)),
            match r {
                Ok(instance) => {
                    &&& final(self).compiled() is Some
                    &&& old(self).compiled() is Some ==> final(self).compiled() == old(
                        self,
                    ).compiled()
                    &&& old(self).compiled() is None ==> final(self).compiled()->Some_0.compiled_from(
                        old(self).authored(),
                        old(self).spec_generation(),
                    )
                    &&& instance.made_from(&final(self).compiled()->Some_0)
                    &&& instance.bound_to(&final(self).compiled()->Some_0)
                },
                Err(e) => old(self).compiled() is None && old(self).authored().failure() == Some(e)
                    && *final(self) == *old(self),
            },
    {
        if self.template.is_none() {
            match AssetTemplate::generate(self) {
                Ok(template) => {
                    self.template = Some(template);
                },
                Err(e) => {
                    return Err(e);
                },
            }
        }
        match &self.template {
            Some(template) => Ok(AssetInstance::new(template)),
            None => {
                proof {
                    assert(false);
                }
                Err(CompileError::Cycle)
            },
        }
    }

    /// `after` is this asset once it was compiled anew: the compiled graph
    /// is that of this asset's graph at the next generation, no node is
    /// marked as changed any more, and the rest is as it was.
    pub open spec fn recompiled(&self, after: &Asset) -> bool {
        &&& after.topology() == self.topology()
        &&& after.dependencies() == self.dependencies()
        &&& after.exposed_order() == self.exposed_order()
        &&& after.embedded() == self.embedded()
        &&& after.spec_generation() == next_generation(self.spec_generation())
        &&& after.compiled() is Some
        &&& after.compiled()->Some_0.compiled_from(self.authored(), after.spec_generation())
        &&& after.slots().len() == self.slots().len()
        &&& forall|n: int|
            0 <= n < self.slots().len() ==> match (#[trigger] self.slots()[n]) {
                None => after.slots()[n] is None,
                Some(slot) => after.slots()[n] is Some && after.slots()[n]->Some_0.node
                    == slot.node && after.slots()[n]->Some_0.metadata@ == (NodeMetadataView {
                    dirty: false,
                    ..slot.metadata@
                }),
            }
    }

    /// Compiles the graph anew if the properties of a node changed since it
    /// was last compiled: the compiled graph is replaced as a whole, the
    /// marks on the nodes are cleared, and the generation goes up by one, so
    /// that instances can tell that they are out of date. Without a change
    /// nothing happens. If the graph cannot be compiled, the asset is as it was.
    pub fn recompute(&mut self) -> (r: Result<(), CompileError>)
        requires
            old(self).wf(),
        ensures
            final(self).wf(),
            match r {
                Ok(_) => if old(self).some_node_dirty() {
                    old(self).authored().failure() is None && old(self).recompiled(final(self))
                } else {
                    *final(self) == *old(self)
                },
                Err(e) => old(self).some_node_dirty() && old(self).authored().failure() == Some(e)
                    && *final(self) == *old(self),
            },
    {
        if !self.has_changed() {
            return Ok(());
        }
        let mut template = match AssetTemplate::generate(self) {
            Ok(template) => template,
            Err(e) => {
                return Err(e);
            },
        };
        let generation: u16 = if self.generation == u16::MAX {
            0
        } else {
            self.generation + 1
        };
        template.set_generation(generation);
        self.template = Some(template);
        self.generation = generation;
        let mut n: usize = 0;
        while n < self.nodes.len()
            invariant
                n <= self.nodes.len(),
                self.topology() == old(self).topology(),
                self.dependencies() == old(self).dependencies(),
                self.exposed_order() == old(self).exposed_order(),
                self.embedded() == old(self).embedded(),
                self.spec_generation() == generation,
                self.compiled() == Some(template),
                self.slots().len() == old(self).slots().len(),
                forall|m: int|
                    n <= m < self.slots().len() ==> (#[trigger] self.slots()[m]) == old(
                        self,
                    ).slots()[m],
                forall|m: int|
                    0 <= m < n ==> match (#[trigger] old(self).slots()[m]) {
                        None => self.slots()[m] is None,
                        Some(slot) => self.slots()[m] is Some && self.slots()[m]->Some_0.node
                            == slot.node && self.slots()[m]->Some_0.metadata@ == (NodeMetadataView {
                            dirty: false,
                            ..slot.metadata@
                        }),
                    },
            decreases self.nodes.len() - n,
        {
            self.nodes.push(None);
            let taken = self.nodes.swap_remove(n);
            match taken {
                Some(slot) => {
                    let mut metadata = slot.metadata;
                    metadata.clear_dirty();
                    self.nodes.set(n, Some(NodeSlot { metadata, node: slot.node }));
                },
                None => {},
            }
            n += 1;
        }
        proof {
            let g = topology_view(self.topology());
            assert forall|m: int| 0 <= m < self.slots().len() implies (g.nodes.contains(m) <==> (
            #[trigger] self.slots()[m]) is Some) by {
                assert(old(self).slots()[m] is Some <==> self.slots()[m] is Some);
            }
            assert forall|m: int|
                0 <= m < self.slots().len() && (#[trigger] self.slots()[m]) is Some implies (
            self.slots()[m]->Some_0.node is Expose <==> m == SENTINEL) by {
                assert(old(self).slots()[m] is Some);
            }
        }
        Ok(())
    }
}

/// The generation after the given one. After the largest comes zero.
pub open spec fn next_generation(generation: u16) -> u16 {
    if generation == u16::MAX {
        0
    } else {
        (generation + 1) as u16
    }
}

impl Default for Asset {
    /// The asset that every new graph starts as: the sentinel, an output at
    /// index 1, a box at index 2, and a connection from port 0 of the box to
    /// port 0 of the output.
    fn default() -> (asset: Self)
        ensures
            asset.wf(),
            asset.is_seed(),
    {
        let mut asset = Asset::new();
        proof {
            reveal_strlit("Box");
            reveal_strlit("Cylinder");
            reveal_strlit("Extrude");
            reveal_strlit("Output");
            reveal_strlit("Input");
            assert("Output"@.len() == 6);
            assert("Box"@.len() == 3);
            assert(kind_of_alias("Output"@) == Some(NodeKind::SocketOutput));
            assert(kind_of_alias("Box"@) == Some(NodeKind::Box));
            let one = Set::<int>::empty().insert(0);
            assert(one.len() == 1);
            assert(one.insert(1).len() == 2);
            assert(Map::<int, (int, int)>::empty().dom().len() == 0);
        }
        let ghost start = asset;
        let output = asset.add_plain_node("Output");
        let ghost middle = asset;
        let cube = asset.add_plain_node("Box");
        let ghost last = asset;
        match (output, cube) {
            (Ok(n1), Ok(n2)) => {
                let wired = asset.add_node_connection(n2, 0, n1, 0);
                proof {
                    assert(n1.0 == 1);
                    assert(n2.0 == 2);
                    assert(wired is Ok);
                    let e = choose|e: int|
                        asset.added_edge(
                            &last,
                            e,
                            n2,
                            n1,
                            DependencyView::Connection(0, 0),
                        );
                    let g0 = GraphView::empty().with_node(0);
                    let g1 = g0.with_node(1);
                    let g2 = g1.with_node(2);
                    assert(topology_view(start.topology()) == g0);
                    assert(topology_view(middle.topology()) == g1);
                    assert(topology_view(last.topology()) == g2);
                    assert(e == 0);
                    assert(topology_view(asset.topology()) == seed_graph());
                    assert(start.slots().len() == 1);
                    assert(middle.slots().len() == 2);
                    assert(last.slots().len() == 3);
                    assert(last.slots()[1] == middle.slots()[1]);
                    assert(last.slots()[0] == start.slots()[0]);
                    assert(asset.slots() == last.slots());
                    assert(last.dependencies().len() == 0);
                    assert(asset.dependencies().len() == 1);
                    assert(asset.dependencies() =~= seq![Some(DependencyView::Connection(0, 0))]);
                }
            },
            _ => {
                proof {
                    assert(false);
                }
            },
        }
        asset
    }
}

/// The graph of a new asset: the sentinel at index 0, a node at index 1 and a
/// node at index 2, and the edge 0 from node 2 to node 1.
pub open spec fn seed_graph() -> GraphView {
    GraphView::empty().with_node(0).with_node(1).with_node(2).with_edge(0, 2, 1)
}

impl Asset {
    /// The asset holds what a new asset holds: the sentinel, an output at
    /// index 1 and a box with its default properties at index 2, and as its
    /// one edge, at index 0, a connection from port 0 of the box to port 0 of
    /// the output. Nothing is embedded, and the generation is 0.
    pub open spec fn has_seed_graph(&self) -> bool {
        &&& topology_view(self.topology()) == seed_graph()
        &&& self.dependencies() == seq![Some(DependencyView::Connection(0, 0))]
        &&& self.slots().len() == 3
        &&& self.slots()[0] is Some
        &&& self.slots()[0]->Some_0.node is Expose
        &&& self.slots()[1] is Some
        &&& self.slots()[1]->Some_0.node is SocketOutput
        &&& self.slots()[2] is Some
        &&& self.slots()[2]->Some_0.node is Box
        &&& self.slots()[2]->Some_0.node.is_default()
        &&& self.spec_generation() == 0
        &&& self.embedded().len() == 0
    }

    /// The asset is as a new asset: it holds what a new asset holds, and was
    /// never compiled.
    pub open spec fn is_seed(&self) -> bool {
        self.has_seed_graph() && self.compiled() is None
    }

    /// The asset holds what a new asset holds, and was compiled as it is.
    pub open spec fn is_compiled_seed(&self) -> bool {
        &&& self.has_seed_graph()
        &&& self.compiled() is Some
        &&& self.compiled()->Some_0.compiled_from(self.authored(), 0)
    }

    /// `outcome` is what a new instance of the compiled graph gives when it
    /// is computed for the first time.
    pub open spec fn first_outcome(&self, outcome: Result<Seq<ValueView>, EvaluationError>) -> bool {
        self.compiled() is Some && exists|fresh: AssetInstance, done: AssetInstance|
            fresh.made_from(&self.compiled()->Some_0) && #[trigger] fresh.evaluated(
                &self.compiled()->Some_0,
                &done,
                outcome,
            )
    }
}

/// A graph as it was authored: its nodes and edges, and what each holds.
pub struct Authored {
    pub graph: Topology,
    pub slots: Seq<Option<NodeSlot>>,
    pub dependencies: Seq<Option<DependencyView>>,
}

impl Authored {
    /// The node at which the edge starts.
    pub open spec fn source_of(self, e: int) -> int {
        graph_edges(self.graph)[e].0
    }

    /// The node at which the edge ends.
    pub open spec fn target_of(self, e: int) -> int {
        graph_edges(self.graph)[e].1
    }

    /// What the edge holds.
    pub open spec fn dependency_of(self, e: int) -> DependencyView {
        self.dependencies[e]->Some_0
    }

    /// The operation of the node.
    pub open spec fn node_of(self, n: int) -> Nodes {
        self.slots[n]->Some_0.node
    }

    /// The index names a node.
    pub open spec fn has_node(self, n: int) -> bool {
        graph_nodes(self.graph).contains(n)
    }

    /// The edges that end at the node, in the graph's order.
    pub open spec fn incoming(self, n: int) -> Seq<int> {
        graph_incoming(self.graph)[n]
    }

    /// The edges that start at the node, in the graph's order.
    pub open spec fn outgoing(self, n: int) -> Seq<int> {
        graph_outgoing(self.graph)[n]
    }

    /// What holds of the graph of every asset: see `Asset::wf`.
    pub open spec fn wf(self) -> bool {
        let g = topology_view(self.graph);
        &&& g.wf()
        &&& self.slots.len() <= GRAPH_LIMIT
        &&& self.dependencies.len() <= GRAPH_LIMIT
        &&& forall|n: int| g.nodes.contains(n) ==> n < self.slots.len()
        &&& forall|n: int|
            0 <= n < self.slots.len() ==> (g.nodes.contains(n) <==> (#[trigger] self.slots[n]) is Some)
        &&& forall|e: int| g.edges.contains_key(e) ==> e < self.dependencies.len()
        &&& forall|e: int|
            0 <= e < self.dependencies.len() ==> (g.edges.contains_key(e) <==> (
            #[trigger] self.dependencies[e]) is Some)
        &&& g.nodes.contains(SENTINEL as int)
    }
}

impl Asset {
    /// The graph as it was authored.
    pub open spec fn authored(&self) -> Authored {
        Authored {
            graph: self.topology(),
            slots: self.slots(),
            dependencies: self.dependencies(),
        }
    }

    /// The graph of an asset is in order.
    pub proof fn lemma_authored_wf(&self)
        requires
            self.wf(),
        ensures
            self.authored().wf(),
    {
    }

    /// The graph's nodes and edges.
    pub(crate) fn graph_ref(&self) -> (g: &Topology)
        ensures
            *g == self.topology(),
    {
        &self.graph
    }

    /// How many places for nodes the graph has.
    pub(crate) fn slot_count(&self) -> (count: usize)
        ensures
            count == self.slots().len(),
    {
        self.nodes.len()
    }

    /// What the node at `n` holds, if there is such a node.
    pub(crate) fn slot_at(&self, n: usize) -> (slot: Option<&NodeSlot>)
        ensures
            match slot {
                Some(s) => n < self.slots().len() && self.slots()[n as int] == Some(*s),
                None => n >= self.slots().len() || self.slots()[n as int] is None,
            },
    {
        if n < self.nodes.len() {
            match &self.nodes[n] {
                Some(slot) => Some(slot),
                None => None,
            }
        } else {
            None
        }
    }

    /// What the edge at `e` holds, if there is such an edge.
    pub(crate) fn dependency_at(&self, e: usize) -> (dependency: Option<&Dependency>)
        ensures
            match dependency {
                Some(d) => e < self.dependencies().len() && self.dependencies()[e as int] == Some(
                    d@,
                ),
                None => e >= self.dependencies().len() || self.dependencies()[e as int] is None,
            },
    {
        if e < self.edges.len() {
            match &self.edges[e] {
                Some(dependency) => Some(dependency),
                None => None,
            }
        } else {
            None
        }
    }
}

/// A new asset, once compiled, hands out the mesh of its box: the one wire
/// starts at port 0 of the box and carries a mesh, and a new instance hands
/// out, when first computed, one mesh with the eight corners and the twelve
/// triangles of the box.
pub proof fn law_new_asset_hands_out_its_box(
    asset: Asset,
    outcome: Result<Seq<ValueView>, EvaluationError>,
)
    requires
        asset.is_compiled_seed(),
        asset.first_outcome(outcome),
    ensures
        asset.compiled()->Some_0.wires() == seq![(NodeIndex(2), 0u8, DataTypeType::Mesh)],
        outcome is Ok,
        outcome->Ok_0.len() == 1,
        outcome->Ok_0[0] is Mesh,
        outcome->Ok_0[0]->Mesh_0.value.positions.len() == 8,
        outcome->Ok_0[0]->Mesh_0.value.face_points == box_faces(),
        outcome->Ok_0[0]->Mesh_0.value.face_points.len() == 12,
{
    let template = asset.compiled()->Some_0;
    let (fresh, done) = choose|fresh: AssetInstance, done: AssetInstance|
        fresh.made_from(&template) && #[trigger] fresh.evaluated(&template, &done, outcome);
    law_box_graph_hands_out_the_box(asset.authored(), 0, template, fresh, done, outcome);
}

/// A port of a node is taken exactly when some edge of the graph ends at the
/// node and is a connection into that port.
pub proof fn law_port_is_taken_by_an_edge_into_it(asset: Asset, to: NodeIndex, port: u8)
    requires
        asset.wf(),
        asset.has_node(to),
    ensures
        asset.port_taken(to, port) <==> exists|e: int| #[trigger]
            graph_edges(asset.topology()).contains_key(e) && graph_edges(asset.topology())[e].1
                == to.0 && asset.ends_at_port(e, port),
{
    let g = topology_view(asset.topology());
    let list = g.incoming[to.0 as int];
    if asset.port_taken(to, port) {
        let k = choose|k: int| 0 <= k < list.len() && asset.ends_at_port(#[trigger] list[k], port);
        assert(g.edges.contains_key(list[k]) && g.edges[list[k]].1 == to.0);
    }
    if exists|e: int| #[trigger]
        g.edges.contains_key(e) && g.edges[e].1 == to.0 && asset.ends_at_port(e, port) {
        let e = choose|e: int| #[trigger]
            g.edges.contains_key(e) && g.edges[e].1 == to.0 && asset.ends_at_port(e, port);
        assert(g.lists_complete());
        assert(list.contains(e));
        let k = choose|k: int| 0 <= k < list.len() && list[k] == e;
        assert(asset.ends_at_port(list[k], port));
    }
}

/// An asset whose graph lost one edge, and that is otherwise as it was, is in
/// order if it was before.
proof fn lemma_edge_taken_out(before: &Asset, after: &Asset, e: int)
    requires
        before.wf(),
        0 <= e < before.dependencies().len(),
        topology_view(after.topology()) == topology_view(before.topology()).without_edges(
            set![e],
        ),
        after.dependencies() == before.dependencies().update(e, None),
        after.slots() == before.slots(),
        after.compiled() == before.compiled(),
    ensures
        after.wf(),
{
    let v = topology_view(before.topology());
    let g = topology_view(after.topology());
    lemma_without_edges_wf(v, set![e]);
    assert forall|x: int| g.edges.contains_key(x) implies x < after.dependencies().len() by {
        assert(v.edges.contains_key(x));
    }
    assert forall|x: int| 0 <= x < after.dependencies().len() implies (g.edges.contains_key(x)
        <==> (#[trigger] after.dependencies()[x]) is Some) by {
        if x != e {
            assert(after.dependencies()[x] == before.dependencies()[x]);
            assert(v.edges.contains_key(x) <==> g.edges.contains_key(x));
        }
    }
    assert forall|x: int|
        0 <= x < after.dependencies().len() && (#[trigger] after.dependencies()[x]) is Some
            && after.dependencies()[x]->Some_0.is_exposed() implies g.edges[x].1 == SENTINEL by {
        assert(after.dependencies()[x] == before.dependencies()[x]);
        assert(v.edges.contains_key(x));
    }
}

/// Two nodes that hold the same turn the same values down.
pub proof fn lemma_same_refusal(a: Nodes, b: Nodes, name: Seq<char>, value: ValueView)
    requires
        a.same_as(b),
    ensures
        a.refusal(name, value) == b.refusal(name, value),
{
}

/// What is one node with a property set is also the other with the property
/// set, if the two hold the same.
pub proof fn lemma_same_property_set(a: Nodes, b: Nodes, name: Seq<char>, value: ValueView, after: Nodes)
    requires
        a.same_as(b),
        a.property_set(name, value, &after),
    ensures
        b.property_set(name, value, &after),
{
}

} // verus!

pub mod instance;
pub mod snapshot;
pub mod template;
