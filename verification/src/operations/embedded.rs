//! The node that stands for an asset embedded in another.

use vstd::prelude::*;
use crate::asset::instance::clone_values;
use crate::data_types::{
    types_of, value_views, DataTypeInstance, DataTypeType, PropertyError, PropertyMetadata,
    PropertyMetadataView, ValueView,
};
use crate::operations::{
    metadata_views, Operation, OperationError, PropertyInterface, StaticNodeMetadata,
};

verus! {

/// Stands for an embedded asset in the graph that embeds it. It holds what an
/// instance of the embedded asset handed out, and hands that out itself.
pub struct EmbeddedV1 {
    outputs: Vec<DataTypeInstance>,
}

impl View for EmbeddedV1 {
    type V = Seq<ValueView>;

    closed spec fn view(&self) -> Seq<ValueView> {
        value_views(self.outputs@)
    }
}

impl Clone for EmbeddedV1 {
    /// A copy of the node.
    fn clone(&self) -> (copy: Self)
        ensures
            copy@ == self@,
    {
        EmbeddedV1 { outputs: clone_values(&self.outputs) }
    }
}

impl EmbeddedV1 {
    /// The values that the node hands out.
    pub fn outputs(&self) -> (outputs: &Vec<DataTypeInstance>)
        ensures
            value_views(outputs@) == self@,
    {
        &self.outputs
    }

    /// The node that hands out the given values.
    pub fn new(outputs: Vec<DataTypeInstance>) -> (node: Self)
        ensures
            node@ == value_views(outputs@),
    {
        EmbeddedV1 { outputs }
    }
}

impl PropertyInterface for EmbeddedV1 {
    open spec fn property(&self, name: Seq<char>) -> Option<ValueView> {
        None
    }

    open spec fn refusal(&self, name: Seq<char>, value: ValueView) -> Option<PropertyError> {
        Some(PropertyError::UnknownProperty)
    }

    open spec fn property_set(&self, name: Seq<char>, value: ValueView, after: &Self) -> bool {
        false
    }

    open spec fn described(&self) -> Seq<PropertyMetadataView> {
        Seq::empty()
    }

    fn try_set_property(&mut self, property: &str, value: DataTypeInstance) -> Result<
        (),
        PropertyError,
    > {
        Err(PropertyError::UnknownProperty)
    }

    fn try_get_property(&self, property: &str) -> Result<DataTypeInstance, PropertyError> {
        Err(PropertyError::UnknownProperty)
    }

    fn get_properties(&self) -> (descriptions: Vec<PropertyMetadata>) {
        let descriptions: Vec<PropertyMetadata> = Vec::new();
        proof {
            assert(metadata_views(descriptions@) =~= self.described());
        }
        descriptions
    }
}

impl Operation for EmbeddedV1 {
    open spec fn computed(&self, inputs: Seq<ValueView>) -> Result<Seq<ValueView>, OperationError> {
        Ok(self@)
    }

    open spec fn input_sockets(&self) -> Seq<DataTypeType> {
        Seq::empty()
    }

    open spec fn output_sockets(&self) -> Seq<DataTypeType> {
        types_of(self@)
    }

    fn compute(&self, inputs: Vec<&DataTypeInstance>) -> Result<
        Vec<DataTypeInstance>,
        OperationError,
    > {
        Ok(clone_values(&self.outputs))
    }

    fn static_metadata(&self) -> (metadata: StaticNodeMetadata)
        ensures
            metadata.color@ == "#b45309"@,
    {
        StaticNodeMetadata { color: "#b45309" }
    }

    fn get_input_sockets(&self) -> Vec<DataTypeType> {
        Vec::new()
    }

    fn get_output_sockets(&self) -> (sockets: Vec<DataTypeType>) {
        let mut sockets: Vec<DataTypeType> = Vec::new();
        let mut k: usize = 0;
        while k < self.outputs.len()
            invariant
                k <= self.outputs.len(),
                sockets.len() == k,
                forall|j: int| 0 <= j < k ==> sockets[j] == self.outputs[j]@.data_type(),
            decreases self.outputs.len() - k,
        {
            sockets.push(self.outputs[k].get_type());
            k += 1;
        }
        proof {
            assert(sockets@ =~= self.output_sockets());
        }
        sockets
    }
}

} // verus!
