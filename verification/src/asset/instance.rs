//! An instance of a compiled graph: the values of its exposed properties,
//! which of its nodes wait to be computed, and what each node last computed.

use vstd::prelude::*;
use vstd::string::StringExecFns;
use crate::asset::template::{
    cache_view, constant_at, last_named, law_single_producer_compiles_to_its_outputs,
    AssetTemplate, Wire,
};
use crate::asset::Authored;
use crate::operations::producers::cuboid::{box_corners, box_faces, lemma_box_mesh_is_ok};
use crate::operations::producers::cylinder::{cylinder_faces, lemma_cylinder_fits, MAX_SEGMENTS};
use crate::data_types::{
    same_text, types_of, value_views, DataTypeInstance, DataTypeType, PropertyError, PropertyMetadata,
    ValueView,
};
use crate::graph::{
    graph_nodes, index_numbers, lemma_filter_holds, topo_walk_from, topology_contains_node, topology_topo_from,
    topology_view,
    NodeIndex, Topology, GRAPH_LIMIT,
};
use crate::operations::{Nodes, Operation, OperationError, PropertyInterface, StaticNodeMetadata};

verus! {

/// Why an instance handed nothing out.
#[derive(Clone, Copy, PartialEq, Eq, Debug, Structural)]
pub enum EvaluationError {
    /// The node's operation computed nothing; the second field says why.
    Operation(NodeIndex, OperationError),
    /// Neither the instance nor the compiled graph holds a value for that
    /// port of that node.
    MissingOutput(NodeIndex, u8),
}

/// A place where a compiled graph is used. It holds the values of the exposed
/// properties and a copy of the dynamic part of the graph, and computes the
/// dynamic nodes anew when a property was written.
pub struct AssetInstance {
    graph: Topology,
    nodes: Vec<Option<Nodes>>,
    properties: Vec<(String, DataTypeInstance)>,
    dirty_nodes: Vec<bool>,
    generation: u16,
    graph_node_cache: Vec<Option<Vec<DataTypeInstance>>>,
}

/// The names and values of the properties of an instance.
pub open spec fn property_views(properties: Seq<(String, DataTypeInstance)>) -> Seq<
    (Seq<char>, ValueView),
> {
    Seq::new(properties.len(), |k: int| (properties[k].0@, properties[k].1@))
}

/// The place of the last of the first `upto` properties that has the name.
pub open spec fn last_property(
    properties: Seq<(Seq<char>, ValueView)>,
    name: Seq<char>,
    upto: int,
) -> Option<int>
    decreases upto,
{
    if upto <= 0 || upto > properties.len() {
        None
    } else if properties[upto - 1].0 == name {
        Some(upto - 1)
    } else {
        last_property(properties, name, upto - 1)
    }
}

/// The cache after the nodes were computed in the given order, each from its
/// own properties alone; or the reason why the first node that computed
/// nothing did not.
pub open spec fn recomputed(
    nodes: Seq<Option<Nodes>>,
    cache: Map<int, Seq<ValueView>>,
    order: Seq<int>,
) -> Result<Map<int, Seq<ValueView>>, EvaluationError>
    decreases order.len(),
{
    if order.len() == 0 {
        Ok(cache)
    } else {
        match recomputed(nodes, cache, order.drop_last()) {
            Err(e) => Err(e),
            Ok(before) => {
                let n = order.last();
                match nodes[n]->Some_0.computed(Seq::empty()) {
                    Err(e) => Err(EvaluationError::Operation(NodeIndex(n as u16), e)),
                    Ok(outputs) => Ok(before.insert(n, outputs)),
                }
            },
        }
    }
}

/// The value for one wire: what the instance's cache holds for that port of
/// the node, if the cache holds anything for the node, and else what the
/// compiled graph's constants hold for it.
pub open spec fn resolved_wire(
    cache: Map<int, Seq<ValueView>>,
    constants: Map<int, Seq<ValueView>>,
    wire: Wire,
) -> Option<ValueView> {
    if cache.contains_key(wire.0.0 as int) {
        constant_at(cache, wire.0.0 as int, wire.1 as int)
    } else {
        constant_at(constants, wire.0.0 as int, wire.1 as int)
    }
}

/// The values for the wires, in their order, or the first wire for which
/// there is none.
pub open spec fn resolved(
    cache: Map<int, Seq<ValueView>>,
    constants: Map<int, Seq<ValueView>>,
    wires: Seq<Wire>,
) -> Result<Seq<ValueView>, EvaluationError>
    decreases wires.len(),
{
    if wires.len() == 0 {
        Ok(Seq::empty())
    } else {
        match resolved(cache, constants, wires.drop_last()) {
            Err(e) => Err(e),
            Ok(front) => match resolved_wire(cache, constants, wires.last()) {
                None => Err(EvaluationError::MissingOutput(wires.last().0, wires.last().1)),
                Some(value) => Ok(front.push(value)),
            },
        }
    }
}

/// The indices that the flags mark, in ascending order, among the first `upto`.
pub open spec fn flagged(flags: Seq<bool>, upto: int) -> Seq<u16>
    decreases upto,
{
    if upto <= 0 || upto > flags.len() {
        Seq::empty()
    } else if flags[upto - 1] {
        flagged(flags, upto - 1).push((upto - 1) as u16)
    } else {
        flagged(flags, upto - 1)
    }
}

/// If the nodes up to some place do not all compute, neither do all of them.
pub proof fn lemma_recomputed_fails_on(
    nodes: Seq<Option<Nodes>>,
    cache: Map<int, Seq<ValueView>>,
    order: Seq<int>,
    k: int,
    e: EvaluationError,
)
    requires
        0 <= k <= order.len(),
        recomputed(nodes, cache, order.take(k)) == Err::<Map<int, Seq<ValueView>>, EvaluationError>(
            e,
        ),
    ensures
        recomputed(nodes, cache, order) == Err::<Map<int, Seq<ValueView>>, EvaluationError>(e),
    decreases order.len() - k,
{
    if k == order.len() {
        assert(order.take(k) == order);
    } else {
        assert(order.take(k + 1).drop_last() == order.take(k));
        lemma_recomputed_fails_on(nodes, cache, order, k + 1, e);
    }
}

/// If there is no value for one of the first wires, there are no values for all.
pub proof fn lemma_resolved_fails_on(
    cache: Map<int, Seq<ValueView>>,
    constants: Map<int, Seq<ValueView>>,
    wires: Seq<Wire>,
    k: int,
    e: EvaluationError,
)
    requires
        0 <= k <= wires.len(),
        resolved(cache, constants, wires.take(k)) == Err::<Seq<ValueView>, EvaluationError>(e),
    ensures
        resolved(cache, constants, wires) == Err::<Seq<ValueView>, EvaluationError>(e),
    decreases wires.len() - k,
{
    if k == wires.len() {
        assert(wires.take(k) == wires);
    } else {
        assert(wires.take(k + 1).drop_last() == wires.take(k));
        lemma_resolved_fails_on(cache, constants, wires, k + 1, e);
    }
}

impl AssetInstance {
    /// The dynamic nodes and the edges between them.
    pub closed spec fn topology(&self) -> Topology {
        self.graph
    }

    /// The operation of each dynamic node, under the node's index.
    pub closed spec fn slots(&self) -> Seq<Option<Nodes>> {
        self.nodes@
    }

    /// The names and values of the exposed properties.
    pub closed spec fn properties(&self) -> Seq<(Seq<char>, ValueView)> {
        property_views(self.properties@)
    }

    /// For each place of the graph, whether its node waits to be computed.
    pub closed spec fn dirty(&self) -> Seq<bool> {
        self.dirty_nodes@
    }

    /// What each node last computed.
    pub closed spec fn cache(&self) -> Map<int, Seq<ValueView>> {
        cache_view(self.graph_node_cache@)
    }

    /// The generation of the compiled graph that the instance last saw.
    pub closed spec fn spec_generation(&self) -> u16 {
        self.generation
    }

    /// Every node of the graph has its operation, and only nodes of the graph wait.
    pub closed spec fn wf(&self) -> bool {
        &&& self.nodes@.len() <= GRAPH_LIMIT
        &&& self.dirty_nodes@.len() == self.nodes@.len()
        &&& self.graph_node_cache@.len() == self.nodes@.len()
        &&& forall|n: int|
            graph_nodes(self.graph).contains(n) ==> 0 <= n < self.nodes@.len() && (
            #[trigger] self.nodes@[n]) is Some
        &&& forall|n: int|
            0 <= n < self.dirty_nodes@.len() && (#[trigger] self.dirty_nodes@[n])
                ==> graph_nodes(self.graph).contains(n)
        &&& forall|n: int| #[trigger]
            cache_view(self.graph_node_cache@).contains_key(n) ==> self.nodes@[n] is Some
                && types_of(cache_view(self.graph_node_cache@)[n])
                == self.nodes@[n]->Some_0.output_sockets()
    }

    /// What the cache holds for a node are values of the types of the node's
    /// output sockets.
    pub proof fn lemma_cache_typed(&self, n: int)
        requires
            self.wf(),
            self.cache().contains_key(n),
        ensures
            0 <= n < self.slots().len(),
            self.slots()[n] is Some,
            types_of(self.cache()[n]) == self.slots()[n]->Some_0.output_sockets(),
    {
    }

    /// The instance has the nodes of the compiled graph's dynamic part, each
    /// with the output sockets it has there.
    pub open spec fn bound_to(&self, template: &AssetTemplate) -> bool {
        &&& self.slots().len() == template.dynamic_slots().len()
        &&& forall|n: int|
            0 <= n < self.slots().len() ==> ((#[trigger] self.slots()[n]) is Some
                <==> template.dynamic_slots()[n] is Some) && (self.slots()[n] is Some
                ==> self.slots()[n]->Some_0.output_sockets()
                == template.dynamic_slots()[n]->Some_0.output_sockets())
    }

    /// No node waits to be computed.
    pub open spec fn clean(&self) -> bool {
        forall|n: int| 0 <= n < self.dirty().len() ==> !(#[trigger] self.dirty()[n])
    }

    /// The place of the last property of that name.
    pub open spec fn place_of(&self, name: Seq<char>) -> Option<int> {
        last_property(self.properties(), name, self.properties().len() as int)
    }

    /// This is a new instance of the compiled graph: a copy of the graph's
    /// dynamic part, with the same nodes and edges listed in the same order,
    /// nothing computed yet, every exposed property at its default, and the
    /// node of every exposed property waiting to be computed.
    pub open spec fn made_from(&self, template: &AssetTemplate) -> bool {
        &&& self.wf()
        &&& self.cache() == Map::<int, Seq<ValueView>>::empty()
        &&& self.spec_generation() == template.spec_generation()
        &&& topology_view(self.topology()) == topology_view(template.dynamic_topology())
        &&& self.slots().len() == template.dynamic_slots().len()
        &&& self.dirty().len() == self.slots().len()
        &&& forall|n: int|
            0 <= n < self.slots().len() ==> ((#[trigger] self.slots()[n]) is Some
                <==> template.dynamic_slots()[n] is Some) && (self.slots()[n] is Some
                ==> self.slots()[n]->Some_0.same_as(template.dynamic_slots()[n]->Some_0))
        &&& self.properties().len() == template.exposed().len()
        &&& forall|k: int|
            0 <= k < self.properties().len() ==> (#[trigger] self.properties()[k]) == (
                template.exposed()[k].name,
                template.exposed()[k].meta.default->Some_0,
            )
        &&& forall|n: int|
            0 <= n < self.dirty().len() ==> ((#[trigger] self.dirty()[n]) <==> exists|k: int|
                0 <= k < template.exposed().len() && template.place_of(
                    #[trigger] template.exposed()[k].name,
                ) is Some && template.exposed()[template.place_of(
                    template.exposed()[k].name,
                )->Some_0].node == n)
    }

    /// An instance of a compiled graph: a copy of the graph's dynamic part,
    /// nothing computed yet, every exposed property at its default, and the
    /// node of every exposed property waiting to be computed.
    pub fn new(template: &AssetTemplate) -> (instance: Self)
        requires
            template.wf(),
        ensures
            instance.made_from(template),
            instance.bound_to(template),
    {
        let (graph, nodes) = template.get_dynamic_graph();
        let count: usize = nodes.len();
        let mut graph_node_cache: Vec<Option<Vec<DataTypeInstance>>> = Vec::new();
        let mut dirty_nodes: Vec<bool> = Vec::new();
        while dirty_nodes.len() < count
            invariant
                dirty_nodes.len() <= count,
                graph_node_cache.len() == dirty_nodes.len(),
                forall|n: int| 0 <= n < dirty_nodes.len() ==> !(#[trigger] dirty_nodes[n]),
                forall|n: int| 0 <= n < graph_node_cache.len() ==> (#[trigger] graph_node_cache[n])
                    is None,
            decreases count - dirty_nodes.len(),
        {
            dirty_nodes.push(false);
            graph_node_cache.push(None);
        }
        let descriptions = template.get_properties();
        let mut properties: Vec<(String, DataTypeInstance)> = Vec::new();
        let mut k: usize = 0;
        while k < descriptions.len()
            invariant
                k <= descriptions.len(),
                template.wf(),
                descriptions.len() == template.exposed().len(),
                forall|j: int|
                    0 <= j < descriptions.len() ==> (#[trigger] descriptions[j])@
                        == template.exposed()[j].meta,
                graph_nodes(graph) == graph_nodes(template.dynamic_topology()),
                count == template.dynamic_slots().len(),
                dirty_nodes.len() == count,
                properties.len() == k,
                forall|j: int|
                    0 <= j < k ==> (#[trigger] property_views(properties@)[j]) == (
                        template.exposed()[j].name,
                        template.exposed()[j].meta.default->Some_0,
                    ),
                forall|n: int|
                    0 <= n < dirty_nodes.len() ==> ((#[trigger] dirty_nodes[n]) <==> exists|j: int|
                        0 <= j < k && template.place_of(#[trigger] template.exposed()[j].name)
                            is Some && template.exposed()[template.place_of(
                            template.exposed()[j].name,
                        )->Some_0].node == n),
                forall|n: int|
                    0 <= n < dirty_nodes.len() && (#[trigger] dirty_nodes[n]) ==> graph_nodes(
                        graph,
                    ).contains(n),
            decreases descriptions.len() - k,
        {
            let description = &descriptions[k];
            proof {
                template.lemma_exposed_entry(k as int);
            }
            let name = description.name();
            let value = description.get_default().clone();
            let ghost earlier = dirty_nodes@;
            let mut marked_node: Option<usize> = None;
            match template.find_exposed(name) {
                Some(place) => {
                    proof {
                        template.lemma_exposed_entry(place as int);
                    }
                    let node: usize = template.exposed_node(place).0 as usize;
                    dirty_nodes.set(node, true);
                    marked_node = Some(node);
                },
                None => {},
            }
            let ghost before = property_views(properties@);
            properties.push((String::from_str(name), value));
            proof {
                assert(property_views(properties@)[k as int] == (
                    template.exposed()[k as int].name,
                    template.exposed()[k as int].meta.default->Some_0,
                ));
                assert forall|j: int| 0 <= j < k + 1 implies (#[trigger] property_views(
                    properties@,
                )[j]) == (
                    template.exposed()[j].name,
                    template.exposed()[j].meta.default->Some_0,
                ) by {
                    if j < k {
                        assert(property_views(properties@)[j] == before[j]);
                    }
                }
                assert forall|n: int| 0 <= n < dirty_nodes.len() implies ((
                #[trigger] dirty_nodes[n]) <==> exists|j: int|
                    0 <= j < k + 1 && template.place_of(#[trigger] template.exposed()[j].name)
                        is Some && template.exposed()[template.place_of(
                        template.exposed()[j].name,
                    )->Some_0].node == n) by {
                    let here = template.place_of(template.exposed()[k as int].name);
                    if marked_node == Some(n as usize) {
                        assert(0 <= k < k + 1 && template.place_of(
                            template.exposed()[k as int].name,
                        ) is Some);
                    } else {
                        assert(dirty_nodes[n] == earlier[n]);
                        if exists|j: int|
                            0 <= j < k + 1 && template.place_of(
                                #[trigger] template.exposed()[j].name,
                            ) is Some && template.exposed()[template.place_of(
                                template.exposed()[j].name,
                            )->Some_0].node == n {
                            let j = choose|j: int|
                                0 <= j < k + 1 && template.place_of(
                                    #[trigger] template.exposed()[j].name,
                                ) is Some && template.exposed()[template.place_of(
                                    template.exposed()[j].name,
                                )->Some_0].node == n;
                            assert(j < k);
                        }
                    }
                }
            }
            k += 1;
        }
        let instance = AssetInstance {
            graph,
            nodes,
            properties,
            dirty_nodes,
            generation: template.get_generation(),
            graph_node_cache,
        };
        proof {
            assert(instance.cache() =~= Map::<int, Seq<ValueView>>::empty());
            template.lemma_dynamic_nodes_have_slots();
            instance.lemma_made_is_bound(template);
        }
        instance
    }

    /// Whether the compiled graph is of another generation than the one the
    /// instance last saw. If it is, the instance takes note of the new one,
    /// and it is for the caller to compute anew.
    pub fn is_dirty(&mut self, template: &AssetTemplate) -> (stale: bool)
        ensures
            stale == (old(self).spec_generation() != template.spec_generation()),
            final(self).spec_generation() == template.spec_generation(),
            final(self).wf() == old(self).wf(),
            final(self).topology() == old(self).topology(),
            final(self).slots() == old(self).slots(),
            final(self).properties() == old(self).properties(),
            final(self).dirty() == old(self).dirty(),
            final(self).cache() == old(self).cache(),
    {
        if template.is_recomputation_needed(self.generation) {
            self.generation = template.get_generation();
            true
        } else {
            false
        }
    }

    /// The place of the last property of that name.
    fn find_property(&self, name: &str) -> (found: Option<usize>)
        ensures
            match found {
                Some(k) => self.place_of(name@) == Some(k as int) && k < self.properties().len()
                    && self.properties()[k as int].0 == name@,
                None => self.place_of(name@) is None,
            },
    {
        let mut k: usize = self.properties.len();
        while k > 0
            invariant
                k <= self.properties.len(),
                self.place_of(name@) == last_property(self.properties(), name@, k as int),
            decreases k,
        {
            k -= 1;
            if same_text(self.properties[k].0.as_str(), name) {
                return Some(k);
            }
        }
        None
    }

    /// Whether the node waits to be computed.
    pub fn is_waiting(&self, node: NodeIndex) -> (waiting: bool)
        ensures
            waiting == (node.0 < self.dirty().len() && self.dirty()[node.0 as int]),
    {
        let n: usize = node.0 as usize;
        n < self.dirty_nodes.len() && self.dirty_nodes[n]
    }

    /// The value of an exposed property.
    pub fn try_get_property(&self, property: &str) -> (r: Result<DataTypeInstance, PropertyError>)
        ensures
            match r {
                Ok(value) => self.place_of(property@) is Some && value@
                    == self.properties()[self.place_of(property@)->Some_0].1,
                Err(e) => self.place_of(property@) is None && e == PropertyError::UnknownProperty,
            },
    {
        match self.find_property(property) {
            Some(k) => Ok(self.properties[k].1.clone()),
            None => Err(PropertyError::UnknownProperty),
        }
    }

    /// The descriptions of the exposed properties.
    pub fn get_properties(&self, template: &AssetTemplate) -> (descriptions: Vec<PropertyMetadata>)
        requires
            template.wf(),
        ensures
            descriptions.len() == template.exposed().len(),
            forall|k: int|
                0 <= k < descriptions.len() ==> (#[trigger] descriptions[k])@
                    == template.exposed()[k].meta,
    {
        template.get_properties()
    }

    /// What the editor draws an embedded instance with.
    pub fn static_metadata(&self) -> (metadata: StaticNodeMetadata)
        ensures
            metadata.color@ == "#b45309"@,
    {
        StaticNodeMetadata { color: "#b45309" }
    }

    /// An instance takes no inputs.
    pub fn get_input_sockets(&self) -> (sockets: Vec<DataTypeType>)
        ensures
            sockets.len() == 0,
    {
        Vec::new()
    }

    /// The types of what the instance hands out, in order.
    pub fn get_output_sockets(&self, template: &AssetTemplate) -> (sockets: Vec<DataTypeType>)
        ensures
            sockets.len() == template.wires().len(),
            forall|k: int| 0 <= k < sockets.len() ==> sockets[k] == template.wires()[k].2,
    {
        let wires = template.outputs();
        let mut sockets: Vec<DataTypeType> = Vec::new();
        let mut k: usize = 0;
        while k < wires.len()
            invariant
                k <= wires.len(),
                sockets.len() == k,
                forall|j: int| 0 <= j < k ==> sockets[j] == wires[j].2,
            decreases wires.len() - k,
        {
            sockets.push(wires[k].2);
            k += 1;
        }
        sockets
    }
}


/// A copy of the values.
pub fn clone_values(values: &Vec<DataTypeInstance>) -> (copy: Vec<DataTypeInstance>)
    ensures
        value_views(copy@) == value_views(values@),
{
    let mut copy: Vec<DataTypeInstance> = Vec::new();
    let mut k: usize = 0;
    while k < values.len()
        invariant
            k <= values.len(),
            copy.len() == k,
            forall|j: int| 0 <= j < k ==> (#[trigger] copy[j])@ == values[j]@,
        decreases values.len() - k,
    {
        copy.push(values[k].clone());
        k += 1;
    }
    proof {
        assert(value_views(copy@) =~= value_views(values@));
    }
    copy
}

impl AssetInstance {
    /// The nodes that wait to be computed, in ascending order.
    pub open spec fn entry_points(&self) -> Seq<u16> {
        flagged(self.dirty(), self.dirty().len() as int)
    }

    /// The topological walk of the dynamic part from the nodes that wait.
    pub open spec fn walk(&self) -> Seq<int> {
        topo_walk_from(topology_view(self.topology()), self.entry_points())
    }

    /// The order in which the nodes are computed anew: first those that the
    /// walk from the waiting nodes visits, in the walk's order, then the
    /// waiting nodes that the walk left out, in ascending order. Every
    /// waiting node is among them, and none comes twice.
    pub open spec fn evaluation_order(&self) -> Seq<int> {
        self.walk() + left_over(self.entry_points(), self.walk())
    }

    /// What each node has computed once the nodes that wait, and those the
    /// walk reaches from them, were computed anew.
    pub open spec fn evaluation(&self) -> Result<Map<int, Seq<ValueView>>, EvaluationError> {
        recomputed(self.slots(), self.cache(), self.evaluation_order())
    }

    /// Everything but the cache and the waiting nodes is as in `before`.
    pub open spec fn same_setup(&self, before: &AssetInstance) -> bool {
        &&& self.topology() == before.topology()
        &&& self.slots() == before.slots()
        &&& self.properties() == before.properties()
        &&& self.spec_generation() == before.spec_generation()
        &&& self.dirty().len() == before.dirty().len()
    }

    /// The cache holds for the node what the node computes from its
    /// properties as they are.
    pub open spec fn has_result(&self, cache: Map<int, Seq<ValueView>>, n: int) -> bool {
        &&& 0 <= n < self.slots().len()
        &&& self.slots()[n] is Some
        &&& cache.contains_key(n)
        &&& self.slots()[n]->Some_0.computed(Seq::empty()) == Ok::<Seq<ValueView>, OperationError>(
            cache[n],
        )
    }

    /// `after` and `outcome` are what computing this instance gives. If a
    /// node computes nothing, that is the outcome, and the instance is as it
    /// was. Else every node that was computed has its new outputs in the
    /// cache, and every node that waited is among them; no node waits any
    /// more, and the outcome is the value for each wire of the compiled
    /// graph, or the first wire without one. In an instance in which no node
    /// waits, nothing is computed anew.
    pub open spec fn evaluated(
        &self,
        template: &AssetTemplate,
        after: &AssetInstance,
        outcome: Result<Seq<ValueView>, EvaluationError>,
    ) -> bool {
        &&& after.same_setup(self)
        &&& match self.evaluation() {
            Err(e) => outcome == Err::<Seq<ValueView>, EvaluationError>(e) && after.cache()
                == self.cache() && after.dirty() == self.dirty(),
            Ok(cache) => after.cache() == cache && after.clean() && outcome == resolved(
                cache,
                template.constants(),
                template.wires(),
            ) && forall|n: int|
                0 <= n < self.dirty().len() && #[trigger] self.dirty()[n] ==> self.has_result(
                    cache,
                    n,
                ),
        }
        &&& self.clean() ==> self.evaluation() == Ok::<Map<int, Seq<ValueView>>, EvaluationError>(
            self.cache(),
        )
    }

    /// The indices of the nodes that wait, in ascending order.
    fn waiting(&self) -> (entries: Vec<u16>)
        requires
            self.wf(),
        ensures
            entries@ == self.entry_points(),
            forall|i: int|
                0 <= i < entries.len() ==> graph_nodes(self.topology()).contains(
                    #[trigger] entries[i] as int,
                ),
            self.clean() ==> entries.len() == 0,
    {
        let mut entries: Vec<u16> = Vec::new();
        let mut n: usize = 0;
        while n < self.dirty_nodes.len()
            invariant
                n <= self.dirty_nodes.len(),
                self.wf(),
                entries@ == flagged(self.dirty(), n as int),
                forall|i: int|
                    0 <= i < entries.len() ==> graph_nodes(self.topology()).contains(
                        #[trigger] entries[i] as int,
                    ),
                (forall|m: int| 0 <= m < n ==> !(#[trigger] self.dirty()[m])) ==> entries.len() == 0,
            decreases self.dirty_nodes.len() - n,
        {
            if self.dirty_nodes[n] {
                entries.push(n as u16);
            }
            n += 1;
        }
        entries
    }

    /// The nodes to compute anew, in order: those that the walk from the
    /// waiting nodes visits, then the waiting nodes that it left out.
    fn evaluation_plan(&self) -> (plan: Vec<u16>)
        requires
            self.wf(),
        ensures
            index_numbers(plan@) == self.evaluation_order(),
            forall|i: int|
                0 <= i < plan.len() ==> graph_nodes(self.topology()).contains(
                    #[trigger] plan[i] as int,
                ),
            self.clean() ==> plan.len() == 0,
    {
        let entries = self.waiting();
        let mut plan = topology_topo_from(&self.graph, &entries);
        let ghost walk = index_numbers(plan@);
        let visits: usize = plan.len();
        let mut visited: Vec<bool> = Vec::new();
        while visited.len() < self.nodes.len()
            invariant
                visited.len() <= self.nodes.len(),
                forall|n: int| 0 <= n < visited.len() ==> !(#[trigger] visited[n]),
            decreases self.nodes.len() - visited.len(),
        {
            visited.push(false);
        }
        let mut i: usize = 0;
        while i < visits
            invariant
                i <= visits,
                visits == plan.len(),
                self.wf(),
                walk == index_numbers(plan@),
                visited.len() == self.nodes.len(),
                forall|j: int|
                    0 <= j < plan.len() ==> graph_nodes(self.topology()).contains(
                        #[trigger] plan[j] as int,
                    ),
                forall|n: int|
                    0 <= n < visited.len() ==> ((#[trigger] visited[n]) <==> exists|j: int|
                        0 <= j < i && walk[j] == n),
            decreases visits - i,
        {
            let n: usize = plan[i] as usize;
            proof {
                assert(graph_nodes(self.topology()).contains(plan[i as int] as int));
                assert(n < self.nodes@.len() && self.nodes@[n as int] is Some);
                assert(walk[i as int] == n);
            }
            let ghost earlier = visited@;
            visited.set(n, true);
            proof {
                assert forall|m: int| 0 <= m < visited.len() implies ((#[trigger] visited[m])
                    <==> exists|j: int| 0 <= j < i + 1 && walk[j] == m) by {
                    if m != n {
                        assert(visited[m] == earlier[m]);
                        if exists|j: int| 0 <= j < i + 1 && walk[j] == m {
                            let j = choose|j: int| 0 <= j < i + 1 && walk[j] == m;
                            assert(j < i);
                        }
                    }
                }
            }
            i += 1;
        }
        let ghost keep = |n: int| !walk.contains(n);
        let mut k: usize = 0;
        proof {
            reveal(Seq::filter);
            assert(index_numbers(entries@.take(0)) =~= Seq::<int>::empty());
            assert(index_numbers(plan@) =~= walk + Seq::<int>::empty().filter(keep));
        }
        while k < entries.len()
            invariant
                k <= entries.len(),
                self.wf(),
                entries@ == self.entry_points(),
                walk == self.walk(),
                keep == (|n: int| !walk.contains(n)),
                visited.len() == self.nodes.len(),
                forall|j: int|
                    0 <= j < entries.len() ==> graph_nodes(self.topology()).contains(
                        #[trigger] entries[j] as int,
                    ),
                forall|j: int|
                    0 <= j < plan.len() ==> graph_nodes(self.topology()).contains(
                        #[trigger] plan[j] as int,
                    ),
                forall|n: int|
                    0 <= n < visited.len() ==> ((#[trigger] visited[n]) <==> walk.contains(n)),
                index_numbers(plan@) == walk + index_numbers(entries@.take(k as int)).filter(keep),
                entries.len() == 0 && walk.len() == 0 ==> plan.len() == 0,
            decreases entries.len() - k,
        {
            let n: usize = entries[k] as usize;
            proof {
                reveal(Seq::filter);
                assert(graph_nodes(self.topology()).contains(entries[k as int] as int));
                assert(n < self.nodes@.len() && self.nodes@[n as int] is Some);
                let upto = index_numbers(entries@.take(k + 1));
                assert(upto.drop_last() =~= index_numbers(entries@.take(k as int)));
                assert(upto.last() == n);
            }
            let ghost before = index_numbers(plan@);
            if !visited[n] {
                plan.push(entries[k]);
                proof {
                    assert(index_numbers(plan@) =~= before.push(n as int));
                    assert(index_numbers(plan@) =~= walk + index_numbers(
                        entries@.take(k + 1),
                    ).filter(keep));
                }
            } else {
                proof {
                    assert(index_numbers(plan@) =~= walk + index_numbers(
                        entries@.take(k + 1),
                    ).filter(keep));
                }
            }
            k += 1;
        }
        proof {
            assert(entries@.take(k as int) == entries@);
        }
        plan
    }

    /// Once the instance is computed, every node that waited has its result.
    pub proof fn lemma_waiting_have_results(&self)
        requires
            self.wf(),
            self.evaluation() is Ok,
        ensures
            forall|n: int|
                0 <= n < self.dirty().len() && #[trigger] self.dirty()[n] ==> self.has_result(
                    self.evaluation()->Ok_0,
                    n,
                ),
    {
        let order = self.evaluation_order();
        let walk = self.walk();
        let entries = index_numbers(self.entry_points());
        let keep = |n: int| !walk.contains(n);
        assert forall|n: int| 0 <= n < self.dirty().len() && #[trigger] self.dirty()[n]
            implies self.has_result(self.evaluation()->Ok_0, n) by {
            lemma_flagged_holds(self.dirty(), self.dirty().len() as int, n);
            let at = choose|at: int| 0 <= at < entries.len() && entries[at] == n;
            assert(graph_nodes(self.graph).contains(n));
            assert(self.nodes@[n] is Some);
            if walk.contains(n) {
                let j = choose|j: int| 0 <= j < walk.len() && walk[j] == n;
                assert(order[j] == n);
                lemma_recomputed_holds(self.slots(), self.cache(), order, j);
            } else {
                lemma_filter_holds(entries, keep, at);
                let rest = entries.filter(keep);
                let j = choose|j: int| 0 <= j < rest.len() && rest[j] == n;
                assert(order[walk.len() + j] == n);
                lemma_recomputed_holds(self.slots(), self.cache(), order, walk.len() + j);
            }
        }
    }

    /// Computes the instance: the nodes that wait, and those that a
    /// topological walk of the dynamic part reaches from them, are computed
    /// anew, each from its own properties; then the value for each wire of
    /// the compiled graph is looked up, in the instance's cache if the cache
    /// holds anything for the wire's node, and else among the constants of
    /// the compiled graph.
    pub fn compute(&mut self, template: &AssetTemplate) -> (r: Result<
        Vec<DataTypeInstance>,
        EvaluationError,
    >)
        requires
            old(self).wf(),
        ensures
            final(self).wf(),
            old(self).evaluated(
                template,
                final(self),
                match r {
                    Ok(outputs) => Ok(value_views(outputs@)),
                    Err(e) => Err(e),
                },
            ),
    {
        let order = self.evaluation_plan();
        let ghost numbers = index_numbers(order@);
        let ghost started = self.cache();
        let mut fresh: Vec<Vec<DataTypeInstance>> = Vec::new();
        let mut i: usize = 0;
        while i < order.len()
            invariant
                i <= order.len(),
                self.wf(),
                *self == *old(self),
                numbers == index_numbers(order@),
                numbers == old(self).evaluation_order(),
                old(self).clean() ==> numbers.len() == 0,
                started == self.cache(),
                forall|j: int|
                    0 <= j < order.len() ==> graph_nodes(self.topology()).contains(
                        #[trigger] order[j] as int,
                    ),
                fresh.len() == i,
                recomputed(self.slots(), started, numbers.take(i as int)) is Ok,
                forall|j: int|
                    0 <= j < i ==> self.slots()[order[j] as int]->Some_0.computed(Seq::empty())
                        == Ok::<Seq<ValueView>, OperationError>(value_views((#[trigger] fresh[j])@)),
            decreases order.len() - i,
        {
            let n: usize = order[i] as usize;
            proof {
                assert(numbers.take(i + 1).drop_last() == numbers.take(i as int));
                assert(numbers.take(i + 1).last() == n);
                assert(graph_nodes(self.topology()).contains(order[i as int] as int));
            }
            let inputs: Vec<&DataTypeInstance> = Vec::new();
            proof {
                assert(crate::data_types::borrowed_views(inputs@) =~= Seq::empty());
                assert(n < self.nodes@.len() && self.nodes@[n as int] is Some);
            }
            let computed = match &self.nodes[n] {
                Some(node) => node.compute(inputs),
                None => {
                    proof {
                        assert(false);
                    }
                    Err(OperationError::NotComputable)
                },
            };
            match computed {
                Ok(outputs) => {
                    fresh.push(outputs);
                },
                Err(e) => {
                    proof {
                        lemma_recomputed_fails_on(
                            self.slots(),
                            started,
                            numbers,
                            i + 1,
                            EvaluationError::Operation(NodeIndex(n as u16), e),
                        );
                    }
                    return Err(EvaluationError::Operation(NodeIndex(n as u16), e));
                },
            }
            i += 1;
        }
        let mut i: usize = 0;
        while i < order.len()
            invariant
                i <= order.len(),
                self.wf(),
                self.same_setup(old(self)),
                self.dirty() == old(self).dirty(),
                numbers == index_numbers(order@),
                numbers == old(self).evaluation_order(),
                old(self).clean() ==> numbers.len() == 0,
                started == old(self).cache(),
                forall|j: int|
                    0 <= j < order.len() ==> graph_nodes(self.topology()).contains(
                        #[trigger] order[j] as int,
                    ),
                fresh.len() == order.len(),
                forall|j: int|
                    0 <= j < order.len() ==> self.slots()[order[j] as int]->Some_0.computed(
                        Seq::empty(),
                    ) == Ok::<Seq<ValueView>, OperationError>(value_views((#[trigger] fresh[j])@)),
                recomputed(self.slots(), started, numbers.take(i as int)) == Ok::<
                    Map<int, Seq<ValueView>>,
                    EvaluationError,
                >(self.cache()),
            decreases order.len() - i,
        {
            let n: usize = order[i] as usize;
            proof {
                assert(numbers.take(i + 1).drop_last() == numbers.take(i as int));
                assert(numbers.take(i + 1).last() == n);
                assert(graph_nodes(self.topology()).contains(order[i as int] as int));
            }
            proof {
                assert(n < self.nodes@.len() && self.nodes@[n as int] is Some);
            }
            let outputs = clone_values(&fresh[i]);
            let ghost before = self.cache();
            let ghost given = value_views(outputs@);
            self.graph_node_cache.set(n, Some(outputs));
            proof {
                assert(self.cache() =~= before.insert(n as int, given));
                crate::operations::lemma_computed_types(self.nodes@[n as int]->Some_0, Seq::empty());
                assert forall|m: int| #[trigger]
                    cache_view(self.graph_node_cache@).contains_key(m) implies self.nodes@[m]
                    is Some && types_of(cache_view(self.graph_node_cache@)[m])
                    == self.nodes@[m]->Some_0.output_sockets() by {
                    if m != n {
                        assert(before.contains_key(m));
                    }
                }
            }
            i += 1;
        }
        proof {
            assert(numbers.take(i as int) == numbers);
            old(self).lemma_waiting_have_results();
        }
        let mut n: usize = 0;
        while n < self.dirty_nodes.len()
            invariant
                n <= self.dirty_nodes.len(),
                self.wf(),
                self.same_setup(old(self)),
                old(self).evaluation() == Ok::<Map<int, Seq<ValueView>>, EvaluationError>(
                    self.cache(),
                ),
                forall|m: int|
                    0 <= m < old(self).dirty().len() && #[trigger] old(self).dirty()[m] ==> old(
                        self,
                    ).has_result(self.cache(), m),
                old(self).clean() ==> self.cache() == old(self).cache(),
                forall|m: int| 0 <= m < n ==> !(#[trigger] self.dirty()[m]),
            decreases self.dirty_nodes.len() - n,
        {
            self.dirty_nodes.set(n, false);
            n += 1;
        }
        self.resolve(template)
    }

    /// Looks up the value for each wire of the compiled graph.
    fn resolve(&self, template: &AssetTemplate) -> (r: Result<Vec<DataTypeInstance>, EvaluationError>)
        requires
            self.wf(),
        ensures
            resolved(self.cache(), template.constants(), template.wires()) == (match r {
                Ok(outputs) => Ok::<Seq<ValueView>, EvaluationError>(value_views(outputs@)),
                Err(e) => Err::<Seq<ValueView>, EvaluationError>(e),
            }),
    {
        let wires = template.outputs();
        let ghost cache = self.cache();
        let ghost constants = template.constants();
        let mut outputs: Vec<DataTypeInstance> = Vec::new();
        let mut k: usize = 0;
        proof {
            assert(value_views(outputs@) =~= Seq::empty());
        }
        while k < wires.len()
            invariant
                k <= wires.len(),
                self.wf(),
                cache == self.cache(),
                constants == template.constants(),
                wires@ == template.wires(),
                resolved(cache, constants, wires@.take(k as int)) == Ok::<
                    Seq<ValueView>,
                    EvaluationError,
                >(value_views(outputs@)),
            decreases wires.len() - k,
        {
            let wire = wires[k];
            proof {
                assert(wires@.take(k + 1).drop_last() == wires@.take(k as int));
                assert(wires@.take(k + 1).last() == wire);
            }
            let n: usize = wire.0.0 as usize;
            let mut value: Option<DataTypeInstance> = None;
            let mut cached = false;
            if n < self.graph_node_cache.len() {
                match &self.graph_node_cache[n] {
                    Some(values) => {
                        cached = true;
                        if (wire.1 as usize) < values.len() {
                            value = Some(values[wire.1 as usize].clone());
                        }
                    },
                    None => {},
                }
            }
            if !cached {
                value = template.get_constant((wire.0, wire.1));
            }
            match value {
                Some(v) => {
                    let ghost before = value_views(outputs@);
                    let ghost view = v@;
                    outputs.push(v);
                    proof {
                        assert(value_views(outputs@) =~= before.push(view));
                    }
                },
                None => {
                    proof {
                        lemma_resolved_fails_on(
                            cache,
                            constants,
                            wires@,
                            k + 1,
                            EvaluationError::MissingOutput(wire.0, wire.1),
                        );
                    }
                    return Err(EvaluationError::MissingOutput(wire.0, wire.1));
                },
            }
            k += 1;
        }
        proof {
            assert(wires@.take(k as int) == wires@);
        }
        Ok(outputs)
    }

    /// Why the exposed property of that name does not take the value, if it
    /// does not: there is no such property, the value is of another type
    /// than the property's current value, the compiled graph does not know
    /// the property or its node, or the node turns the value down.
    pub open spec fn refusal(&self, template: &AssetTemplate, name: Seq<char>, value: ValueView) -> Option<
        PropertyError,
    > {
        match self.place_of(name) {
            None => Some(PropertyError::UnknownProperty),
            Some(k) => if self.properties()[k].1.data_type() != value.data_type() {
                Some(PropertyError::TypeMismatch)
            } else {
                match template.place_of(name) {
                    None => Some(PropertyError::UnknownProperty),
                    Some(place) => {
                        let node = template.exposed()[place].node;
                        if !(0 <= node < self.slots().len() && self.slots()[node] is Some
                            && graph_nodes(self.topology()).contains(node)) {
                            Some(PropertyError::UnknownProperty)
                        } else {
                            self.slots()[node]->Some_0.refusal(
                                template.exposed()[place].property,
                                value,
                            )
                        }
                    },
                }
            },
        }
    }

    /// `after` is this instance with the exposed property of that name set
    /// to the value: the property holds the value, the property's node has
    /// it too and waits to be computed, and the rest is as it was.
    pub open spec fn property_written(
        &self,
        template: &AssetTemplate,
        name: Seq<char>,
        value: ValueView,
        after: &AssetInstance,
    ) -> bool {
        let k = self.place_of(name)->Some_0;
        let place = template.place_of(name)->Some_0;
        let node = template.exposed()[place].node;
        &&& after.topology() == self.topology()
        &&& after.spec_generation() == self.spec_generation()
        &&& after.cache() == self.cache()
        &&& after.properties() == self.properties().update(k, (self.properties()[k].0, value))
        &&& after.dirty() == self.dirty().update(node, true)
        &&& after.slots().len() == self.slots().len()
        &&& forall|n: int|
            0 <= n < self.slots().len() && n != node ==> after.slots()[n] == self.slots()[n]
        &&& after.slots()[node] is Some
        &&& self.slots()[node]->Some_0.property_set(
            template.exposed()[place].property,
            value,
            &after.slots()[node]->Some_0,
        )
    }

    /// Sets an exposed property. The value has to be of the type of the
    /// property's current value, and the property's node has to take it;
    /// else nothing changes. The node then waits to be computed.
    pub fn try_set_property(&mut self, template: &AssetTemplate, property_name: &str, value: DataTypeInstance) -> (r:
        Result<(), PropertyError>)
        requires
            old(self).wf(),
            template.wf(),
        ensures
            final(self).wf(),
            old(self).bound_to(template) ==> final(self).bound_to(template),
            match r {
                Ok(_) => old(self).refusal(template, property_name@, value@) is None && old(
                    self,
                ).property_written(template, property_name@, value@, final(self)),
                Err(e) => old(self).refusal(template, property_name@, value@) == Some(e)
                    && *final(self) == *old(self),
            },
    {
        let k = match self.find_property(property_name) {
            Some(k) => k,
            None => {
                return Err(PropertyError::UnknownProperty);
            },
        };
        if !same_type(self.properties[k].1.get_type(), value.get_type()) {
            return Err(PropertyError::TypeMismatch);
        }
        let place = match template.find_exposed(property_name) {
            Some(place) => place,
            None => {
                return Err(PropertyError::UnknownProperty);
            },
        };
        let (node_index, node_property) = match template.get_property_index_name(property_name) {
            Some(found) => found,
            None => {
                return Err(PropertyError::UnknownProperty);
            },
        };
        let n: usize = node_index.0 as usize;
        if n >= self.nodes.len() || !topology_contains_node(&self.graph, node_index.0) {
            return Err(PropertyError::UnknownProperty);
        }
        let mut node = match &self.nodes[n] {
            Some(node) => node.clone(),
            None => {
                return Err(PropertyError::UnknownProperty);
            },
        };
        let ghost held = old(self).slots()[n as int]->Some_0;
        let ghost copy = node;
        let stored = value.clone();
        match node.try_set_property(node_property.as_str(), value) {
            Ok(_) => {},
            Err(e) => {
                proof {
                    crate::asset::lemma_same_refusal(copy, held, node_property@, value@);
                }
                return Err(e);
            },
        }
        proof {
            crate::asset::lemma_same_refusal(copy, held, node_property@, value@);
            crate::asset::lemma_same_property_set(copy, held, node_property@, value@, node);
        }
        let name = self.properties[k].0.clone();
        let ghost before = self.properties();
        self.properties.set(k, (name, stored));
        self.dirty_nodes.set(n, true);
        self.nodes.set(n, Some(node));
        proof {
            assert(self.properties() =~= before.update(k as int, (before[k as int].0, value@)));
            assert forall|m: int| graph_nodes(self.graph).contains(m) implies 0 <= m
                < self.nodes@.len() && (#[trigger] self.nodes@[m]) is Some by {
                if m != n {
                    assert(old(self).nodes@[m] is Some);
                }
            }
            assert forall|m: int|
                0 <= m < self.dirty_nodes@.len() && (#[trigger] self.dirty_nodes@[m])
                implies graph_nodes(self.graph).contains(m) by {
                if m != n {
                    assert(old(self).dirty_nodes@[m]);
                }
            }
            crate::operations::lemma_set_keeps_sockets(held, node_property@, value@, node);
            assert forall|m: int| #[trigger]
                cache_view(self.graph_node_cache@).contains_key(m) implies self.nodes@[m] is Some
                && types_of(cache_view(self.graph_node_cache@)[m])
                == self.nodes@[m]->Some_0.output_sockets() by {
                assert(cache_view(old(self).graph_node_cache@).contains_key(m));
            }
            if old(self).bound_to(template) {
                old(self).lemma_written_is_bound(template, property_name@, value@, self);
            }
        }
        Ok(())
    }

    /// A new instance of a compiled graph is bound to it.
    pub proof fn lemma_made_is_bound(&self, template: &AssetTemplate)
        requires
            self.made_from(template),
        ensures
            self.bound_to(template),
    {
        assert forall|n: int| 0 <= n < self.slots().len() implies ((#[trigger] self.slots()[n])
            is Some <==> template.dynamic_slots()[n] is Some) && (self.slots()[n] is Some
            ==> self.slots()[n]->Some_0.output_sockets()
            == template.dynamic_slots()[n]->Some_0.output_sockets()) by {
            if self.slots()[n] is Some {
                crate::operations::lemma_same_sockets(
                    self.slots()[n]->Some_0,
                    template.dynamic_slots()[n]->Some_0,
                );
            }
        }
    }

    /// An instance stays bound to its compiled graph when a property is written.
    pub proof fn lemma_written_is_bound(
        &self,
        template: &AssetTemplate,
        name: Seq<char>,
        value: ValueView,
        after: &AssetInstance,
    )
        requires
            self.bound_to(template),
            self.refusal(template, name, value) is None,
            self.property_written(template, name, value, after),
        ensures
            after.bound_to(template),
    {
        let place = template.place_of(name)->Some_0;
        let node = template.exposed()[place].node;
        crate::operations::lemma_set_keeps_sockets(
            self.slots()[node]->Some_0,
            template.exposed()[place].property,
            value,
            after.slots()[node]->Some_0,
        );
        assert forall|n: int| 0 <= n < after.slots().len() implies ((#[trigger] after.slots()[n])
            is Some <==> template.dynamic_slots()[n] is Some) && (after.slots()[n] is Some
            ==> after.slots()[n]->Some_0.output_sockets()
            == template.dynamic_slots()[n]->Some_0.output_sockets()) by {
            if n != node {
                assert(after.slots()[n] == self.slots()[n]);
            }
            assert(self.slots()[n] is Some <==> template.dynamic_slots()[n] is Some);
        }
    }
}

/// Where there is a value for every wire, there is one for each, in the
/// order of the wires.
pub proof fn lemma_resolved_entry(
    cache: Map<int, Seq<ValueView>>,
    constants: Map<int, Seq<ValueView>>,
    wires: Seq<Wire>,
    j: int,
)
    requires
        resolved(cache, constants, wires) is Ok,
        0 <= j < wires.len(),
    ensures
        resolved(cache, constants, wires)->Ok_0.len() == wires.len(),
        resolved_wire(cache, constants, wires[j]) == Some(
            resolved(cache, constants, wires)->Ok_0[j],
        ),
    decreases wires.len(),
{
    lemma_resolved_len(cache, constants, wires);
    lemma_resolved_len(cache, constants, wires.drop_last());
    if j < wires.len() - 1 {
        lemma_resolved_entry(cache, constants, wires.drop_last(), j);
    }
}

/// Where there is a value for every wire, there are as many values as wires.
pub proof fn lemma_resolved_len(
    cache: Map<int, Seq<ValueView>>,
    constants: Map<int, Seq<ValueView>>,
    wires: Seq<Wire>,
)
    requires
        resolved(cache, constants, wires) is Ok,
    ensures
        resolved(cache, constants, wires)->Ok_0.len() == wires.len(),
    decreases wires.len(),
{
    if wires.len() > 0 {
        lemma_resolved_len(cache, constants, wires.drop_last());
    }
}

/// What an instance hands out is one value for each wire of its compiled
/// graph, in the order of the wires, each of the wire's type.
pub proof fn law_outputs_have_the_types_of_the_wires(
    template: AssetTemplate,
    before: AssetInstance,
    after: AssetInstance,
    outputs: Seq<ValueView>,
)
    requires
        template.wf(),
        after.wf(),
        before.bound_to(&template),
        before.evaluated(&template, &after, Ok(outputs)),
    ensures
        outputs.len() == template.wires().len(),
        forall|j: int| 0 <= j < outputs.len() ==> (#[trigger] outputs[j]).data_type()
            == template.wires()[j].2,
{
    let cache = after.cache();
    let constants = template.constants();
    let wires = template.wires();
    assert(before.evaluation() is Ok);
    assert(resolved(cache, constants, wires) == Ok::<Seq<ValueView>, EvaluationError>(outputs));
    lemma_resolved_len(cache, constants, wires);
    assert forall|j: int| 0 <= j < outputs.len() implies (#[trigger] outputs[j]).data_type()
        == wires[j].2 by {
        lemma_resolved_entry(cache, constants, wires, j);
        template.lemma_wire_typed(j);
        let n = wires[j].0.0 as int;
        let port = wires[j].1 as int;
        if cache.contains_key(n) {
            after.lemma_cache_typed(n);
            assert(before.slots()[n] is Some);
            assert(types_of(cache[n])[port] == cache[n][port].data_type());
        }
    }
}

/// The place of the last property of a name, if there is one, is a place
/// among the properties, and the property there has the name.
pub proof fn lemma_last_property_bound(
    properties: Seq<(Seq<char>, ValueView)>,
    name: Seq<char>,
    upto: int,
)
    requires
        upto <= properties.len(),
    ensures
        last_property(properties, name, upto) is Some ==> 0 <= last_property(
            properties,
            name,
            upto,
        )->Some_0 < upto && properties[last_property(properties, name, upto)->Some_0].0 == name,
    decreases upto,
{
    if upto > 0 {
        lemma_last_property_bound(properties, name, upto - 1);
    }
}

/// A new instance of a compiled graph of one node wired to one output
/// computes nothing itself: it hands out the first of what the node computes
/// without inputs, as the compiled graph holds it.
pub proof fn law_single_producer_hands_out_what_it_computes(
    a: Authored,
    generation: u16,
    template: AssetTemplate,
    fresh: AssetInstance,
    done: AssetInstance,
    outcome: Result<Seq<ValueView>, EvaluationError>,
)
    requires
        a.is_single_producer(),
        template.compiled_from(a, generation),
        fresh.made_from(&template),
        fresh.evaluated(&template, &done, outcome),
    ensures
        a.node_of(2).computed(Seq::empty()) is Ok,
        a.node_of(2).computed(Seq::empty())->Ok_0.len() > 0,
        constant_at(template.constants(), 2, 0) == Some(
            a.node_of(2).computed(Seq::empty())->Ok_0[0],
        ),
        outcome == Ok::<Seq<ValueView>, EvaluationError>(
            seq![a.node_of(2).computed(Seq::empty())->Ok_0[0]],
        ),
{
    law_single_producer_compiles_to_its_outputs(a, generation, template);
    let wire = template.wires()[0];
    template.lemma_wire_typed(0);
    assert(template.constants().contains_key(2));
    assert(wire.0.0 == 2 && wire.1 == 0);
    assert(template.constants()[2].len() > 0);
    assert(fresh.clean());
    let cache = Map::<int, Seq<ValueView>>::empty();
    assert(fresh.evaluation() == Ok::<Map<int, Seq<ValueView>>, EvaluationError>(cache));
    assert(template.wires().drop_last() =~= Seq::<Wire>::empty());
    assert(template.wires().last() == wire);
    assert(resolved(cache, template.constants(), template.wires().drop_last()) == Ok::<
        Seq<ValueView>,
        EvaluationError,
    >(Seq::empty()));
    assert(resolved_wire(cache, template.constants(), wire) == Some(template.constants()[2][0]));
    assert(Seq::<ValueView>::empty().push(template.constants()[2][0]) =~= seq![
        template.constants()[2][0],
    ]);
}

/// The graph of a box wired to an output hands out the mesh of the box: its
/// eight corners and its twelve triangles.
pub proof fn law_box_graph_hands_out_the_box(
    a: Authored,
    generation: u16,
    template: AssetTemplate,
    fresh: AssetInstance,
    done: AssetInstance,
    outcome: Result<Seq<ValueView>, EvaluationError>,
)
    requires
        a.is_single_producer(),
        a.node_of(2) is Box,
        template.compiled_from(a, generation),
        fresh.made_from(&template),
        fresh.evaluated(&template, &done, outcome),
    ensures
        template.wires() == seq![(NodeIndex(2), 0u8, DataTypeType::Mesh)],
        outcome is Ok,
        outcome->Ok_0.len() == 1,
        outcome->Ok_0[0] is Mesh,
        outcome->Ok_0[0]->Mesh_0.value.positions == box_corners(
            a.node_of(2)->Box_0@.size.value,
        ),
        outcome->Ok_0[0]->Mesh_0.value.positions.len() == 8,
        outcome->Ok_0[0]->Mesh_0.value.face_points == box_faces(),
        outcome->Ok_0[0]->Mesh_0.value.face_points.len() == 12,
{
    law_single_producer_compiles_to_its_outputs(a, generation, template);
    law_single_producer_hands_out_what_it_computes(a, generation, template, fresh, done, outcome);
    lemma_box_mesh_is_ok(a.node_of(2)->Box_0@.size.value);
}

/// The graph of a cylinder wired to an output compiles to the wall of the
/// cylinder: the constants hold for the cylinder a mesh with two points and
/// two triangles for each segment, and the one wire carries a mesh.
pub proof fn law_cylinder_graph_compiles_to_the_wall(
    a: Authored,
    generation: u16,
    template: AssetTemplate,
)
    requires
        a.is_single_producer(),
        a.node_of(2) is Cylinder,
        a.node_of(2)->Cylinder_0@.wf(),
        2 <= a.node_of(2)->Cylinder_0@.segments.value <= MAX_SEGMENTS,
        template.compiled_from(a, generation),
    ensures
        template.wires() == seq![(NodeIndex(2), 0u8, DataTypeType::Mesh)],
        constant_at(template.constants(), 2, 0) is Some,
        constant_at(template.constants(), 2, 0)->Some_0 is Mesh,
        constant_at(template.constants(), 2, 0)->Some_0->Mesh_0.value.positions
            == a.node_of(2)->Cylinder_0@.ring,
        constant_at(template.constants(), 2, 0)->Some_0->Mesh_0.value.positions.len() == 2
            * a.node_of(2)->Cylinder_0@.segments.value,
        constant_at(template.constants(), 2, 0)->Some_0->Mesh_0.value.face_points
            == cylinder_faces(a.node_of(2)->Cylinder_0@.segments.value as int),
        constant_at(template.constants(), 2, 0)->Some_0->Mesh_0.value.face_points.len() == 2
            * a.node_of(2)->Cylinder_0@.segments.value,
{
    law_single_producer_compiles_to_its_outputs(a, generation, template);
    let cylinder = a.node_of(2)->Cylinder_0@;
    lemma_cylinder_fits(cylinder.segments.value, cylinder.ring);
}

/// In a new instance the properties stand where the compiled graph lists
/// them: the last property of a name has the place of the last exposed
/// property of that name.
pub proof fn lemma_new_instance_places(
    template: AssetTemplate,
    fresh: AssetInstance,
    name: Seq<char>,
    upto: int,
)
    requires
        fresh.made_from(&template),
        upto <= template.exposed().len(),
    ensures
        last_property(fresh.properties(), name, upto) == last_named(
            template.exposed(),
            name,
            upto,
        ),
    decreases upto,
{
    if upto > 0 {
        assert(fresh.properties()[upto - 1].0 == template.exposed()[upto - 1].name);
        lemma_new_instance_places(template, fresh, name, upto - 1);
    }
}

/// A new instance takes a value for every property that the compiled graph
/// exposes, as long as the value has the type of the property's default and
/// the property's node does not turn it down.
pub proof fn law_new_instance_takes_a_fitting_value(
    template: AssetTemplate,
    fresh: AssetInstance,
    name: Seq<char>,
    value: ValueView,
)
    requires
        template.wf(),
        fresh.made_from(&template),
        template.place_of(name) is Some,
        value.data_type() == template.exposed()[template.place_of(
            name,
        )->Some_0].meta.default->Some_0.data_type(),
        template.dynamic_slots()[template.exposed()[template.place_of(
            name,
        )->Some_0].node]->Some_0.refusal(
            template.exposed()[template.place_of(name)->Some_0].property,
            value,
        ) is None,
    ensures
        fresh.refusal(&template, name, value) is None,
{
    let count = template.exposed().len() as int;
    lemma_new_instance_places(template, fresh, name, count);
    let k = template.place_of(name)->Some_0;
    lemma_last_property_bound(fresh.properties(), name, count);
    template.lemma_exposed_entry(k);
    let node = template.exposed()[k].node;
    assert(fresh.slots()[node] is Some);
    crate::asset::lemma_same_refusal(
        fresh.slots()[node]->Some_0,
        template.dynamic_slots()[node]->Some_0,
        template.exposed()[k].property,
        value,
    );
}

/// A property that was written is read back as written, and its node waits
/// to be computed.
pub proof fn law_written_property_is_read_back_and_its_node_waits(
    template: AssetTemplate,
    before: AssetInstance,
    after: AssetInstance,
    name: Seq<char>,
    value: ValueView,
)
    requires
        before.wf(),
        before.refusal(&template, name, value) is None,
        before.property_written(&template, name, value, &after),
    ensures
        after.place_of(name) is Some,
        after.properties()[after.place_of(name)->Some_0].1 == value,
        template.place_of(name) is Some,
        0 <= template.exposed()[template.place_of(name)->Some_0].node < after.dirty().len(),
        after.dirty()[template.exposed()[template.place_of(name)->Some_0].node],
{
    let k = before.place_of(name)->Some_0;
    lemma_last_property_bound(before.properties(), name, before.properties().len() as int);
    AssetInstance::lemma_place_kept(
        before.properties(),
        name,
        k,
        value,
        before.properties().len() as int,
    );
}

/// Computing after a write reflects the write: once the instance is
/// computed, the cache holds for the node of the written property what the
/// node computes with the property set to the written value.
pub proof fn law_compute_reflects_a_written_property(
    template: AssetTemplate,
    before: AssetInstance,
    written: AssetInstance,
    after: AssetInstance,
    name: Seq<char>,
    value: ValueView,
    outputs: Seq<ValueView>,
)
    requires
        before.wf(),
        before.refusal(&template, name, value) is None,
        before.property_written(&template, name, value, &written),
        written.evaluated(&template, &after, Ok(outputs)),
    ensures
        ({
            let node = template.exposed()[template.place_of(name)->Some_0].node;
            &&& written.slots()[node] is Some
            &&& before.slots()[node]->Some_0.property_set(
                template.exposed()[template.place_of(name)->Some_0].property,
                value,
                &written.slots()[node]->Some_0,
            )
            &&& after.cache().contains_key(node)
            &&& written.slots()[node]->Some_0.computed(Seq::empty()) == Ok::<
                Seq<ValueView>,
                OperationError,
            >(after.cache()[node])
        }),
{
    law_written_property_is_read_back_and_its_node_waits(template, before, written, name, value);
    let node = template.exposed()[template.place_of(name)->Some_0].node;
    assert(written.dirty()[node]);
    assert(written.evaluation() is Ok);
    assert(written.has_result(after.cache(), node));
}

/// A new size shows in the corners: when the size of a box is written
/// through an exposed property and the instance is then computed, the instance
/// holds for the box the mesh of a box of the written size, with the eight
/// corners at half that size from the middle.
pub proof fn law_written_size_shows_in_the_corners(
    template: AssetTemplate,
    before: AssetInstance,
    written: AssetInstance,
    after: AssetInstance,
    name: Seq<char>,
    value: ValueView,
    outputs: Seq<ValueView>,
)
    requires
        before.wf(),
        before.refusal(&template, name, value) is None,
        before.property_written(&template, name, value, &written),
        written.evaluated(&template, &after, Ok(outputs)),
        template.exposed()[template.place_of(name)->Some_0].property == "size"@,
        before.slots()[template.exposed()[template.place_of(name)->Some_0].node]->Some_0 is Box,
    ensures
        ({
            let node = template.exposed()[template.place_of(name)->Some_0].node;
            &&& value is Vec3
            &&& after.cache().contains_key(node)
            &&& after.cache()[node].len() == 1
            &&& after.cache()[node][0] is Mesh
            &&& after.cache()[node][0]->Mesh_0.value.positions == box_corners(value->Vec3_0.value)
            &&& after.cache()[node][0]->Mesh_0.value.face_points == box_faces()
        }),
{
    law_compute_reflects_a_written_property(
        template,
        before,
        written,
        after,
        name,
        value,
        outputs,
    );
    lemma_box_mesh_is_ok(value->Vec3_0.value);
}

impl AssetInstance {
    /// The place of the last property of the name stays where it is when a
    /// value is written there.
    pub proof fn lemma_place_kept(
        properties: Seq<(Seq<char>, ValueView)>,
        name: Seq<char>,
        k: int,
        value: ValueView,
        upto: int,
    )
        requires
            0 <= k < properties.len(),
            0 <= upto <= properties.len(),
        ensures
            last_property(properties.update(k, (properties[k].0, value)), name, upto)
                == last_property(properties, name, upto),
        decreases upto,
    {
        if upto > 0 {
            Self::lemma_place_kept(properties, name, k, value, upto - 1);
        }
    }
}

/// Whether two types are the same.
pub fn same_type(a: DataTypeType, b: DataTypeType) -> (same: bool)
    ensures
        same == (a == b),
{
    a == b
}

/// Computing an instance twice in a row, with no property written in
/// between, gives the same both times: the second time nothing is computed
/// anew, and the same values, or the same error, are handed out.
pub proof fn law_computing_twice_gives_the_same(
    template: AssetTemplate,
    before: AssetInstance,
    between: AssetInstance,
    after: AssetInstance,
    first: Result<Seq<ValueView>, EvaluationError>,
    second: Result<Seq<ValueView>, EvaluationError>,
)
    requires
        before.evaluated(&template, &between, first),
        between.evaluated(&template, &after, second),
    ensures
        second == first,
        after.cache() == between.cache(),
        after.dirty() == between.dirty(),
{
    if before.evaluation() is Ok {
        lemma_flagged_of_clean(between.dirty(), between.dirty().len() as int);
        assert(between.entry_points() =~= Seq::empty());
        assert(after.dirty() =~= between.dirty());
    } else {
        assert(between.entry_points() == before.entry_points());
        assert(between.evaluation() == before.evaluation());
    }
}

/// The waiting nodes that the walk did not visit, in ascending order.
pub open spec fn left_over(entries: Seq<u16>, walk: Seq<int>) -> Seq<int> {
    index_numbers(entries).filter(|n: int| !walk.contains(n))
}

/// An index that the flags mark is among the flagged.
pub proof fn lemma_flagged_holds(flags: Seq<bool>, upto: int, n: int)
    requires
        0 <= n < upto <= flags.len(),
        upto <= u16::MAX,
        flags[n],
    ensures
        index_numbers(flagged(flags, upto)).contains(n),
    decreases upto,
{
    let all = flagged(flags, upto);
    if n == upto - 1 {
        assert(index_numbers(all)[all.len() - 1] == n);
    } else {
        lemma_flagged_holds(flags, upto - 1, n);
        let rest = flagged(flags, upto - 1);
        let j = choose|j: int| 0 <= j < rest.len() && index_numbers(rest)[j] == n;
        assert(index_numbers(all)[j] == n);
    }
}

/// Once the nodes were computed in some order, the cache holds for each of
/// them what it computes.
pub proof fn lemma_recomputed_holds(
    nodes: Seq<Option<Nodes>>,
    cache: Map<int, Seq<ValueView>>,
    order: Seq<int>,
    k: int,
)
    requires
        0 <= k < order.len(),
        recomputed(nodes, cache, order) is Ok,
    ensures
        recomputed(nodes, cache, order)->Ok_0.contains_key(order[k]),
        nodes[order[k]]->Some_0.computed(Seq::empty()) == Ok::<Seq<ValueView>, OperationError>(
            recomputed(nodes, cache, order)->Ok_0[order[k]],
        ),
    decreases order.len(),
{
    if k < order.len() - 1 {
        lemma_recomputed_holds(nodes, cache, order.drop_last(), k);
    }
}

/// Flags that mark nothing give no indices.
pub proof fn lemma_flagged_of_clean(flags: Seq<bool>, upto: int)
    requires
        forall|n: int| 0 <= n < flags.len() ==> !(#[trigger] flags[n]),
    ensures
        flagged(flags, upto).len() == 0,
    decreases upto,
{
    if 0 < upto <= flags.len() {
        lemma_flagged_of_clean(flags, upto - 1);
    }
}

} // verus!
