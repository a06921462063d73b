//! The nodes through which a graph takes values in and hands them out.

use vstd::prelude::*;
use crate::data_types::{
    DataTypeInstance, DataTypeType, PropertyError, PropertyMetadata, PropertyMetadataView,
    ValueView,
};
use crate::operations::{Operation, OperationError, PropertyInterface, StaticNodeMetadata};

verus! {

/// Marks an input of the graph.
#[derive(Debug, Clone, Copy, Default)]
pub struct SocketInputV1 {}

/// Marks an output of the graph: what is wired into it is what the graph hands out.
#[derive(Debug, Clone, Copy, Default)]
pub struct SocketOutputV1 {}

impl PropertyInterface for SocketOutputV1 {
    open spec fn property(&self, name: Seq<char>) -> Option<ValueView> {
        None
    }

    open spec fn refusal(&self, name: Seq<char>, value: ValueView) -> Option<PropertyError> {
        None
    }

    open spec fn property_set(&self, name: Seq<char>, value: ValueView, after: &Self) -> bool {
        true
    }

    open spec fn described(&self) -> Seq<PropertyMetadataView> {
        Seq::empty()
    }

    /// An output has no properties; every write is accepted and changes nothing.
    fn try_set_property(&mut self, property: &str, value: DataTypeInstance) -> Result<
        (),
        PropertyError,
    > {
        Ok(())
    }

    fn try_get_property(&self, property: &str) -> Result<DataTypeInstance, PropertyError> {
        Err(PropertyError::UnknownProperty)
    }

    fn get_properties(&self) -> (descriptions: Vec<PropertyMetadata>) {
        let descriptions: Vec<PropertyMetadata> = Vec::new();
        proof {
            assert(crate::operations::metadata_views(descriptions@) =~= self.described());
        }
        descriptions
    }
}

impl Operation for SocketOutputV1 {
    open spec fn computed(&self, inputs: Seq<ValueView>) -> Result<Seq<ValueView>, OperationError> {
        Err(OperationError::NotComputable)
    }

    open spec fn input_sockets(&self) -> Seq<DataTypeType> {
        seq![DataTypeType::Omni]
    }

    open spec fn output_sockets(&self) -> Seq<DataTypeType> {
        Seq::empty()
    }

    fn compute(&self, inputs: Vec<&DataTypeInstance>) -> Result<
        Vec<DataTypeInstance>,
        OperationError,
    > {
        Err(OperationError::NotComputable)
    }

    fn static_metadata(&self) -> (metadata: StaticNodeMetadata)
        ensures
            metadata.color@ == "#86198f"@,
    {
        StaticNodeMetadata { color: "#86198f" }
    }

    fn get_input_sockets(&self) -> (sockets: Vec<DataTypeType>) {
        let mut sockets: Vec<DataTypeType> = Vec::new();
        sockets.push(DataTypeType::Omni);
        proof {
            assert(sockets@ =~= self.input_sockets());
        }
        sockets
    }

    fn get_output_sockets(&self) -> Vec<DataTypeType> {
        Vec::new()
    }
}

} // verus!
