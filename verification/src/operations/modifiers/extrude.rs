//! Extrusion of selected faces. The operation checks its input and its
//! selection and hands the mesh on as it is.

use vstd::prelude::*;
use crate::data_types::{
    same_text, selected_face, value_views, DataTypeInstance, DataTypeType, Property,
    PropertyError, PropertyMetadata, PropertyMetadataView, PropertyView, Scalar, Selection,
    ValueView,
};
use crate::operations::producers::cuboid::{literal_refusal, mesh_value};
use crate::operations::{
    metadata_views, Operation, OperationError, PropertyInterface, StaticNodeMetadata,
};
use crate::vector::vec3_splat_int;

verus! {

/// Extrudes the selected faces of a mesh by `amount`.
pub struct ExtrudeV1 {
    query: Property<Selection>,
    amount: Property<Scalar>,
    merge_adjacent_normals: Property<bool>,
}

/// What an extrusion holds.
pub struct ExtrudeView {
    pub query: PropertyView<Seq<char>>,
    pub amount: PropertyView<glam::Vec3>,
    pub merge_adjacent_normals: PropertyView<bool>,
}

impl View for ExtrudeV1 {
    type V = ExtrudeView;

    closed spec fn view(&self) -> ExtrudeView {
        ExtrudeView {
            query: self.query@,
            amount: self.amount@,
            merge_adjacent_normals: self.merge_adjacent_normals@,
        }
    }
}

impl ExtrudeV1 {
    /// The extrusion with the given properties.
    pub fn from_properties(
        query: Property<Selection>,
        amount: Property<Scalar>,
        merge_adjacent_normals: Property<bool>,
    ) -> (node: Self)
        ensures
            node@ == (ExtrudeView {
                query: query@,
                amount: amount@,
                merge_adjacent_normals: merge_adjacent_normals@,
            }),
    {
        ExtrudeV1 { query, amount, merge_adjacent_normals }
    }

    /// Which faces are extruded.
    pub fn query(&self) -> (property: &Property<Selection>)
        ensures
            property@ == self@.query,
    {
        &self.query
    }

    /// How far the faces are extruded.
    pub fn amount(&self) -> (property: &Property<Scalar>)
        ensures
            property@ == self@.amount,
    {
        &self.amount
    }

    /// Whether the normals of neighbouring faces are meant to be merged.
    pub fn merge_adjacent_normals(&self) -> (property: &Property<bool>)
        ensures
            property@ == self@.merge_adjacent_normals,
    {
        &self.merge_adjacent_normals
    }

    /// What a new extrusion holds: face 1, by one, with merged normals.
    pub open spec fn default_view() -> ExtrudeView {
        ExtrudeView {
            query: PropertyView { script: None, value: "1"@ },
            amount: PropertyView { script: None, value: vec3_splat_int(1) },
            merge_adjacent_normals: PropertyView { script: None, value: true },
        }
    }
}

impl Default for ExtrudeV1 {
    /// The extrusion of face 1 by one, with merged normals.
    fn default() -> (r: Self)
        ensures
            r@ == ExtrudeV1::default_view(),
    {
        ExtrudeV1 {
            query: Property::new(Selection::new("1")),
            amount: Property::new(Scalar::from_int(1)),
            merge_adjacent_normals: Property::new(true),
        }
    }
}

impl Clone for ExtrudeV1 {
    /// A copy of the extrusion.
    fn clone(&self) -> (copy: Self)
        ensures
            copy@ == self@,
    {
        ExtrudeV1 {
            query: self.query.duplicate(),
            amount: self.amount.duplicate(),
            merge_adjacent_normals: self.merge_adjacent_normals.duplicate(),
        }
    }
}

impl PropertyInterface for ExtrudeV1 {
    open spec fn property(&self, name: Seq<char>) -> Option<ValueView> {
        if name == "query"@ {
            Some(ValueView::Selection(self@.query))
        } else if name == "amount"@ {
            Some(ValueView::Float(self@.amount))
        } else {
            None
        }
    }

    open spec fn refusal(&self, name: Seq<char>, value: ValueView) -> Option<PropertyError> {
        if name == "query"@ {
            literal_refusal(DataTypeType::Selection, value)
        } else if name == "amount"@ {
            literal_refusal(DataTypeType::Float, value)
        } else {
            Some(PropertyError::UnknownProperty)
        }
    }

    open spec fn property_set(&self, name: Seq<char>, value: ValueView, after: &Self) -> bool {
        if name == "query"@ {
            after@ == (ExtrudeView {
                query: PropertyView { script: self@.query.script, value: value->Selection_0.value },
                ..self@
            })
        } else {
            after@ == (ExtrudeView {
                amount: PropertyView { script: self@.amount.script, value: value->Float_0.value },
                ..self@
            })
        }
    }

    open spec fn described(&self) -> Seq<PropertyMetadataView> {
        seq![
            PropertyMetadataView {
                name: Some("query"@),
                property_type: DataTypeType::Selection,
                default: Some(ValueView::Selection(PropertyView { script: None, value: "1"@ })),
            },
            PropertyMetadataView {
                name: Some("amount"@),
                property_type: DataTypeType::Float,
                default: Some(
                    ValueView::Float(PropertyView { script: None, value: vec3_splat_int(1) }),
                ),
            },
        ]
    }

    fn try_set_property(&mut self, property: &str, value: DataTypeInstance) -> (r: Result<
        (),
        PropertyError,
    >) {
        if same_text(property, "query") {
            match value.inner_selection() {
                Err(e) => Err(e),
                Ok(new_value) => self.query.update(new_value),
            }
        } else if same_text(property, "amount") {
            match value.inner_f32() {
                Err(e) => Err(e),
                Ok(new_value) => self.amount.update(new_value),
            }
        } else {
            Err(PropertyError::UnknownProperty)
        }
    }

    fn try_get_property(&self, property: &str) -> (r: Result<DataTypeInstance, PropertyError>) {
        if same_text(property, "query") {
            Ok(self.query.get_instance())
        } else if same_text(property, "amount") {
            Ok(self.amount.get_instance())
        } else {
            Err(PropertyError::UnknownProperty)
        }
    }

    fn get_properties(&self) -> (descriptions: Vec<PropertyMetadata>) {
        let mut descriptions: Vec<PropertyMetadata> = Vec::new();
        descriptions.push(
            PropertyMetadata::new(
                "query",
                DataTypeType::Selection,
                DataTypeInstance::Selection(Property::new(Selection::new("1"))),
            ),
        );
        descriptions.push(
            PropertyMetadata::new(
                "amount",
                DataTypeType::Float,
                DataTypeInstance::Float(Property::new(Scalar::from_int(1))),
            ),
        );
        proof {
            assert(metadata_views(descriptions@) =~= self.described());
        }
        descriptions
    }
}

/// What an extrusion with the selection `query` computes: it needs a mesh as
/// its first input and a selection that names a face, and hands the mesh on.
pub open spec fn extrude_outputs(query: Seq<char>, inputs: Seq<ValueView>) -> Result<
    Seq<ValueView>,
    OperationError,
> {
    if inputs.len() == 0 {
        Err(OperationError::MissingInput)
    } else if !(inputs[0] is Mesh) {
        Err(OperationError::WrongInput)
    } else if selected_face(query) is None {
        Err(OperationError::InvalidSelection)
    } else {
        Ok(seq![mesh_value(inputs[0]->Mesh_0.value)])
    }
}

impl Operation for ExtrudeV1 {
    open spec fn computed(&self, inputs: Seq<ValueView>) -> Result<Seq<ValueView>, OperationError> {
        extrude_outputs(self@.query.value, inputs)
    }

    open spec fn input_sockets(&self) -> Seq<DataTypeType> {
        seq![DataTypeType::Mesh]
    }

    open spec fn output_sockets(&self) -> Seq<DataTypeType> {
        seq![DataTypeType::Mesh]
    }

    fn compute(&self, inputs: Vec<&DataTypeInstance>) -> (r: Result<
        Vec<DataTypeInstance>,
        OperationError,
    >) {
        if inputs.len() == 0 {
            return Err(OperationError::MissingInput);
        }
        let input = match inputs[0].inner_mesh() {
            Ok(property) => property.get_value(),
            Err(_) => {
                return Err(OperationError::WrongInput);
            },
        };
        let new_surface = input.clone();
        match self.query.get_value().try_get() {
            Ok(_) => {},
            Err(_) => {
                return Err(OperationError::InvalidSelection);
            },
        }
        let mut outputs: Vec<DataTypeInstance> = Vec::new();
        outputs.push(DataTypeInstance::Mesh(Property::new(new_surface)));
        proof {
            assert(value_views(outputs@) =~= seq![mesh_value(new_surface@)]);
            assert(crate::data_types::types_of(value_views(outputs@)) =~= self.output_sockets());
        }
        Ok(outputs)
    }

    fn static_metadata(&self) -> (metadata: StaticNodeMetadata)
        ensures
            metadata.color@ == "#4338ca"@,
    {
        StaticNodeMetadata { color: "#4338ca" }
    }

    fn get_input_sockets(&self) -> (sockets: Vec<DataTypeType>) {
        let mut sockets: Vec<DataTypeType> = Vec::new();
        sockets.push(DataTypeType::Mesh);
        proof {
            assert(sockets@ =~= self.input_sockets());
        }
        sockets
    }

    fn get_output_sockets(&self) -> (sockets: Vec<DataTypeType>) {
        let mut sockets: Vec<DataTypeType> = Vec::new();
        sockets.push(DataTypeType::Mesh);
        proof {
            assert(sockets@ =~= self.output_sockets());
        }
        sockets
    }
}

} // verus!
