//! The operations that nodes of the graph perform: what each kind offers as
//! properties, and what it computes from its properties and its inputs.

use vstd::prelude::*;
use crate::data_types::{
    borrowed_views, same_text, types_of, value_views, DataTypeInstance, DataTypeType, PropertyError,
    PropertyMetadata, PropertyMetadataView, ValueView,
};
use crate::mesh::MeshError;
use crate::operations::control_flow::{SocketInputV1, SocketOutputV1};
use crate::operations::embedded::EmbeddedV1;
use crate::operations::modifiers::extrude::ExtrudeV1;
use crate::operations::producers::cuboid::BoxV1;
use crate::operations::producers::cylinder::CylinderV1;

pub mod control_flow;
pub mod embedded;
pub mod modifiers;
pub mod producers;

verus! {

/// Why an operation computed nothing.
#[derive(Clone, Copy, PartialEq, Eq, Debug, Structural)]
pub enum OperationError {
    /// This kind of node computes nothing: it only marks a place in the graph.
    NotComputable,
    /// The operation needs an input that it was not given.
    MissingInput,
    /// An input is not of the type the operation takes.
    WrongInput,
    /// The selection names no face.
    InvalidSelection,
    /// A cylinder needs at least one segment.
    InvalidSegments,
    /// The mesh turned a triangle down.
    Mesh(MeshError),
}

/// What the editor draws a node with.
#[derive(Clone, Copy, Debug)]
pub struct StaticNodeMetadata {
    pub color: &'static str,
}

/// The views of a sequence of property descriptions.
pub open spec fn metadata_views(descriptions: Seq<PropertyMetadata>) -> Seq<PropertyMetadataView> {
    Seq::new(descriptions.len(), |i: int| descriptions[i]@)
}

/// Access to the properties of a node by name.
pub trait PropertyInterface: Sized {
    /// The value of the property of that name, if there is one.
    spec fn property(&self, name: Seq<char>) -> Option<ValueView>;

    /// Why the property of that name does not take the value, if it does not.
    spec fn refusal(&self, name: Seq<char>, value: ValueView) -> Option<PropertyError>;

    /// `after` is this node with the property of that name set to the value.
    spec fn property_set(&self, name: Seq<char>, value: ValueView, after: &Self) -> bool;

    /// The properties that the node describes, in order.
    spec fn described(&self) -> Seq<PropertyMetadataView>;

    /// Sets a property. A name the node does not know, a value of another
    /// type than the property's and a value bound to a script are turned
    /// down, and the node stays as it was.
    fn try_set_property(&mut self, property: &str, value: DataTypeInstance) -> (r: Result<
        (),
        PropertyError,
    >)
        ensures
            match r {
                Ok(_) => old(self).refusal(property@, value@) is None && old(self).property_set(
                    property@,
                    value@,
                    final(self),
                ),
                Err(e) => old(self).refusal(property@, value@) == Some(e) && *final(self) == *old(
                    self,
                ),
            },
    ;

    /// The value of a property.
    fn try_get_property(&self, property: &str) -> (r: Result<DataTypeInstance, PropertyError>)
        ensures
            match r {
                Ok(value) => self.property(property@) == Some(value@),
                Err(e) => self.property(property@) is None && e == PropertyError::UnknownProperty,
            },
    ;

    /// The name, type and default value of each property.
    fn get_properties(&self) -> (descriptions: Vec<PropertyMetadata>)
        ensures
            metadata_views(descriptions@) == self.described(),
    ;
}

/// What a node computes.
pub trait Operation {
    /// The outputs for the given inputs, or why there are none. Nothing but
    /// the node's properties and the inputs has a part in it.
    spec fn computed(&self, inputs: Seq<ValueView>) -> Result<Seq<ValueView>, OperationError>;

    /// The types of the input sockets, in order.
    spec fn input_sockets(&self) -> Seq<DataTypeType>;

    /// The types of the output sockets, in order.
    spec fn output_sockets(&self) -> Seq<DataTypeType>;

    /// Computes the outputs from the node's properties and the inputs. There
    /// is one output for each output socket, of the socket's type.
    fn compute(&self, inputs: Vec<&DataTypeInstance>) -> (r: Result<
        Vec<DataTypeInstance>,
        OperationError,
    >)
        ensures
            match r {
                Ok(outputs) => self.computed(borrowed_views(inputs@)) == Ok::<
                    Seq<ValueView>,
                    OperationError,
                >(value_views(outputs@)),
                Err(e) => self.computed(borrowed_views(inputs@)) == Err::<
                    Seq<ValueView>,
                    OperationError,
                >(e),
            },
            r is Ok ==> types_of(value_views(r->Ok_0@)) == self.output_sockets(),
    ;

    /// What the editor draws the node with.
    fn static_metadata(&self) -> StaticNodeMetadata;

    /// The types of the input sockets, in order.
    fn get_input_sockets(&self) -> (sockets: Vec<DataTypeType>)
        ensures
            sockets@ == self.input_sockets(),
    ;

    /// The types of the output sockets, in order.
    fn get_output_sockets(&self) -> (sockets: Vec<DataTypeType>)
        ensures
            sockets@ == self.output_sockets(),
    ;
}


/// The kinds of nodes.
#[derive(Clone, Copy, PartialEq, Eq, Debug, Structural)]
pub enum NodeKind {
    Expose,
    SocketInput,
    SocketOutput,
    Box,
    Cylinder,
    Extrude,
    EmbeddedAsset,
}

/// The kind of node that an alias names.
pub open spec fn kind_of_alias(alias: Seq<char>) -> Option<NodeKind> {
    if alias == "Box"@ {
        Some(NodeKind::Box)
    } else if alias == "Cylinder"@ {
        Some(NodeKind::Cylinder)
    } else if alias == "Extrude"@ {
        Some(NodeKind::Extrude)
    } else if alias == "Output"@ {
        Some(NodeKind::SocketOutput)
    } else if alias == "Input"@ {
        Some(NodeKind::SocketInput)
    } else {
        None
    }
}

/// A node of the graph: one of a closed set of kinds, each with its own
/// properties.
pub enum Nodes {
    /// The one node of an asset at which exposed properties end.
    Expose,
    /// Marks an input of the graph.
    SocketInput(SocketInputV1),
    /// Marks an output of the graph.
    SocketOutput(SocketOutputV1),
    Box(BoxV1),
    Cylinder(CylinderV1),
    Extrude(ExtrudeV1),
    /// Stands for an asset that is embedded in this one.
    EmbeddedAsset(EmbeddedV1),
}

impl Clone for Nodes {
    /// A copy of the node, with its properties.
    fn clone(&self) -> (copy: Self)
        ensures
            copy.same_as(*self),
    {
        match self {
            Nodes::Expose => Nodes::Expose,
            Nodes::SocketInput(_) => Nodes::SocketInput(SocketInputV1 {  }),
            Nodes::SocketOutput(_) => Nodes::SocketOutput(SocketOutputV1 {  }),
            Nodes::Box(node) => Nodes::Box(node.clone()),
            Nodes::Cylinder(node) => Nodes::Cylinder(node.clone()),
            Nodes::Extrude(node) => Nodes::Extrude(node.clone()),
            Nodes::EmbeddedAsset(node) => Nodes::EmbeddedAsset(node.clone()),
        }
    }
}

impl Nodes {
    /// The two nodes are of the same kind and hold the same properties.
    pub open spec fn same_as(self, other: Nodes) -> bool {
        match (self, other) {
            (Nodes::Expose, Nodes::Expose) => true,
            (Nodes::SocketInput(_), Nodes::SocketInput(_)) => true,
            (Nodes::SocketOutput(_), Nodes::SocketOutput(_)) => true,
            (Nodes::Box(a), Nodes::Box(b)) => a@ == b@,
            (Nodes::Cylinder(a), Nodes::Cylinder(b)) => a@ == b@,
            (Nodes::Extrude(a), Nodes::Extrude(b)) => a@ == b@,
            (Nodes::EmbeddedAsset(a), Nodes::EmbeddedAsset(b)) => a@ == b@,
            _ => false,
        }
    }

    /// The kind of the node.
    pub open spec fn kind(self) -> NodeKind {
        match self {
            Nodes::Expose => NodeKind::Expose,
            Nodes::SocketInput(_) => NodeKind::SocketInput,
            Nodes::SocketOutput(_) => NodeKind::SocketOutput,
            Nodes::Box(_) => NodeKind::Box,
            Nodes::Cylinder(_) => NodeKind::Cylinder,
            Nodes::Extrude(_) => NodeKind::Extrude,
            Nodes::EmbeddedAsset(_) => NodeKind::EmbeddedAsset,
        }
    }

    /// A new node of the kind that the alias names: `Box`, `Cylinder`,
    /// `Extrude`, `Output` or `Input`, with the default properties of its
    /// kind. Other aliases name nothing.
    pub fn from_alias(alias: &str) -> (node: Option<Nodes>)
        ensures
            match node {
                Some(n) => kind_of_alias(alias@) == Some(n.kind()) && n.is_default(),
                None => kind_of_alias(alias@) is None,
            },
    {
        if same_text(alias, "Box") {
            Some(Nodes::Box(BoxV1::default()))
        } else if same_text(alias, "Cylinder") {
            Some(Nodes::Cylinder(CylinderV1::default()))
        } else if same_text(alias, "Extrude") {
            Some(Nodes::Extrude(ExtrudeV1::default()))
        } else if same_text(alias, "Output") {
            Some(Nodes::SocketOutput(SocketOutputV1 {  }))
        } else if same_text(alias, "Input") {
            Some(Nodes::SocketInput(SocketInputV1 {  }))
        } else {
            None
        }
    }

    /// The node holds the default properties of its kind.
    pub open spec fn is_default(self) -> bool {
        match self {
            Nodes::Box(node) => node@ == BoxV1::default_view(),
            Nodes::Cylinder(node) => CylinderV1::is_default_view(node@),
            Nodes::Extrude(node) => node@ == ExtrudeV1::default_view(),
            _ => true,
        }
    }

    /// The colour that the editor draws the node with.
    pub open spec fn colour(self) -> Seq<char> {
        match self {
            Nodes::Box(_) => "#15803d"@,
            Nodes::Cylinder(_) => "#15803d"@,
            Nodes::Extrude(_) => "#4338ca"@,
            Nodes::EmbeddedAsset(_) => "#b45309"@,
            _ => "#86198f"@,
        }
    }

    /// Whether the node marks an output of the graph.
    pub fn is_output_node(&self) -> (r: bool)
        ensures
            r == (self is SocketOutput),
    {
        match self {
            Nodes::SocketOutput(_) => true,
            _ => false,
        }
    }
}

impl PropertyInterface for Nodes {
    open spec fn property(&self, name: Seq<char>) -> Option<ValueView> {
        match self {
            Nodes::Box(node) => node.property(name),
            Nodes::Cylinder(node) => node.property(name),
            Nodes::Extrude(node) => node.property(name),
            _ => None,
        }
    }

    open spec fn refusal(&self, name: Seq<char>, value: ValueView) -> Option<PropertyError> {
        match self {
            Nodes::EmbeddedAsset(node) => node.refusal(name, value),
            Nodes::Box(node) => node.refusal(name, value),
            Nodes::Cylinder(node) => node.refusal(name, value),
            Nodes::Extrude(node) => node.refusal(name, value),
            Nodes::SocketOutput(node) => node.refusal(name, value),
            _ => Some(PropertyError::UnknownProperty),
        }
    }

    open spec fn property_set(&self, name: Seq<char>, value: ValueView, after: &Self) -> bool {
        match (self, after) {
            (Nodes::Box(node), Nodes::Box(next)) => node.property_set(name, value, next),
            (Nodes::Cylinder(node), Nodes::Cylinder(next)) => node.property_set(name, value, next),
            (Nodes::Extrude(node), Nodes::Extrude(next)) => node.property_set(name, value, next),
            (Nodes::SocketOutput(_), Nodes::SocketOutput(_)) => true,
            _ => false,
        }
    }

    open spec fn described(&self) -> Seq<PropertyMetadataView> {
        match self {
            Nodes::Box(node) => node.described(),
            Nodes::Cylinder(node) => node.described(),
            Nodes::Extrude(node) => node.described(),
            _ => Seq::empty(),
        }
    }

    fn try_set_property(&mut self, property: &str, value: DataTypeInstance) -> (r: Result<
        (),
        PropertyError,
    >) {
        match self {
            Nodes::Box(node) => node.try_set_property(property, value),
            Nodes::Cylinder(node) => node.try_set_property(property, value),
            Nodes::Extrude(node) => node.try_set_property(property, value),
            Nodes::SocketOutput(node) => node.try_set_property(property, value),
            _ => Err(PropertyError::UnknownProperty),
        }
    }

    fn try_get_property(&self, property: &str) -> (r: Result<DataTypeInstance, PropertyError>) {
        match self {
            Nodes::Box(node) => node.try_get_property(property),
            Nodes::Cylinder(node) => node.try_get_property(property),
            Nodes::Extrude(node) => node.try_get_property(property),
            _ => Err(PropertyError::UnknownProperty),
        }
    }

    fn get_properties(&self) -> (descriptions: Vec<PropertyMetadata>) {
        match self {
            Nodes::Box(node) => node.get_properties(),
            Nodes::Cylinder(node) => node.get_properties(),
            Nodes::Extrude(node) => node.get_properties(),
            _ => {
                let descriptions: Vec<PropertyMetadata> = Vec::new();
                proof {
                    assert(metadata_views(descriptions@) =~= self.described());
                }
                descriptions
            },
        }
    }
}

impl Operation for Nodes {
    open spec fn computed(&self, inputs: Seq<ValueView>) -> Result<Seq<ValueView>, OperationError> {
        match self {
            Nodes::EmbeddedAsset(node) => node.computed(inputs),
            Nodes::Box(node) => node.computed(inputs),
            Nodes::Cylinder(node) => node.computed(inputs),
            Nodes::Extrude(node) => node.computed(inputs),
            _ => Err(OperationError::NotComputable),
        }
    }

    open spec fn input_sockets(&self) -> Seq<DataTypeType> {
        match self {
            Nodes::Box(node) => node.input_sockets(),
            Nodes::Cylinder(node) => node.input_sockets(),
            Nodes::Extrude(node) => node.input_sockets(),
            Nodes::SocketOutput(node) => node.input_sockets(),
            _ => Seq::empty(),
        }
    }

    open spec fn output_sockets(&self) -> Seq<DataTypeType> {
        match self {
            Nodes::EmbeddedAsset(node) => node.output_sockets(),
            Nodes::Box(node) => node.output_sockets(),
            Nodes::Cylinder(node) => node.output_sockets(),
            Nodes::Extrude(node) => node.output_sockets(),
            Nodes::SocketInput(_) => seq![DataTypeType::Omni],
            _ => Seq::empty(),
        }
    }

    fn compute(&self, inputs: Vec<&DataTypeInstance>) -> (r: Result<
        Vec<DataTypeInstance>,
        OperationError,
    >) {
        match self {
            Nodes::EmbeddedAsset(node) => node.compute(inputs),
            Nodes::Box(node) => node.compute(inputs),
            Nodes::Cylinder(node) => node.compute(inputs),
            Nodes::Extrude(node) => node.compute(inputs),
            _ => Err(OperationError::NotComputable),
        }
    }

    /// Every kind has its colour; the nodes that only mark a place in the
    /// graph share that of the output.
    fn static_metadata(&self) -> (metadata: StaticNodeMetadata)
        ensures
            metadata.color@ == self.colour(),
    {
        match self {
            Nodes::EmbeddedAsset(node) => node.static_metadata(),
            Nodes::Box(node) => node.static_metadata(),
            Nodes::Cylinder(node) => node.static_metadata(),
            Nodes::Extrude(node) => node.static_metadata(),
            _ => StaticNodeMetadata { color: "#86198f" },
        }
    }

    fn get_input_sockets(&self) -> (sockets: Vec<DataTypeType>) {
        match self {
            Nodes::Box(node) => node.get_input_sockets(),
            Nodes::Cylinder(node) => node.get_input_sockets(),
            Nodes::Extrude(node) => node.get_input_sockets(),
            Nodes::SocketOutput(node) => node.get_input_sockets(),
            _ => Vec::new(),
        }
    }

    fn get_output_sockets(&self) -> (sockets: Vec<DataTypeType>) {
        match self {
            Nodes::EmbeddedAsset(node) => node.get_output_sockets(),
            Nodes::Box(node) => node.get_output_sockets(),
            Nodes::Cylinder(node) => node.get_output_sockets(),
            Nodes::Extrude(node) => node.get_output_sockets(),
            Nodes::SocketInput(_) => {
                let mut sockets: Vec<DataTypeType> = Vec::new();
                sockets.push(DataTypeType::Omni);
                proof {
                    assert(sockets@ =~= self.output_sockets());
                }
                sockets
            },
            _ => Vec::new(),
        }
    }
}


/// What a node computes has the types of the node's output sockets.
pub proof fn lemma_computed_types(node: Nodes, inputs: Seq<ValueView>)
    requires
        node.computed(inputs) is Ok,
    ensures
        types_of(node.computed(inputs)->Ok_0) == node.output_sockets(),
{
    let outputs = node.computed(inputs)->Ok_0;
    match node {
        Nodes::Box(n) => {
            assert(types_of(outputs) =~= node.output_sockets());
        },
        Nodes::Cylinder(n) => {
            assert(types_of(outputs) =~= node.output_sockets());
        },
        Nodes::Extrude(n) => {
            assert(types_of(outputs) =~= node.output_sockets());
        },
        Nodes::EmbeddedAsset(n) => {},
        _ => {},
    }
}

/// Writing a property does not change the output sockets of a node.
pub proof fn lemma_set_keeps_sockets(node: Nodes, name: Seq<char>, value: ValueView, after: Nodes)
    requires
        node.property_set(name, value, &after),
    ensures
        after.output_sockets() == node.output_sockets(),
{
}

/// Two nodes that hold the same have the same output sockets.
pub proof fn lemma_same_sockets(a: Nodes, b: Nodes)
    requires
        a.same_as(b),
    ensures
        a.output_sockets() == b.output_sockets(),
{
}

} // verus!
