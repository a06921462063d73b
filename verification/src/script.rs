//! Expression bindings: a property may hold a script in place of a literal
//! value. Scripts are kept as text; the value they stand for is set from outside.

use vstd::prelude::*;
use vstd::string::StringExecFns;
use crate::asset::Asset;
use crate::data_types::{
    DataType, DataTypeInstance, DataTypeType, Property, PropertyView, Scalar, ValueView,
};
use crate::graph::NodeIndex;
use crate::vector::{from_ints, from_long, vec3_from_ints, vec3_splat_int};

verus! {

/// Where a script sits in the graph, and the value it currently stands for.
struct ParserCache<T: DataType> {
    origin: NodeIndex,
    target: NodeIndex,
    value: T,
}

/// The text of a script that has not been bound to a node yet.
pub struct UninitializedOneiroiScript<T: DataType> {
    literal: String,
    _phantom: core::marker::PhantomData<T>,
}

/// A script bound to a node, with the value it currently stands for.
pub struct OneiroiScript<T: DataType> {
    literal: String,
    parsed_tree: ParserCache<T>,
}

/// Why a script could not be bound.
#[derive(Debug)]
pub struct OneiroiScriptParserError {}

impl<T: DataType> OneiroiScript<T> {
    /// The script's text.
    pub closed spec fn text(&self) -> Seq<char> {
        self.literal@
    }

    /// What the value the script stands for holds.
    pub closed spec fn current(&self) -> T::Content {
        self.parsed_tree.value.content()
    }

    /// The node the script was bound at.
    pub closed spec fn origin(&self) -> NodeIndex {
        self.parsed_tree.origin
    }

    /// The default of a scripted property: the vector of ones for a vector,
    /// two for a number. Other types have no scripted default.
    pub fn get_default_value(&self) -> (r: DataTypeInstance)
        requires
            T::tag() == DataTypeType::Vec3 || T::tag() == DataTypeType::Float,
        ensures
            T::tag() == DataTypeType::Vec3 ==> r@ == ValueView::Vec3(
                PropertyView { script: None, value: vec3_from_ints(1, 1, 1) },
            ),
            T::tag() == DataTypeType::Float ==> r@ == ValueView::Float(
                PropertyView { script: None, value: vec3_splat_int(2) },
            ),
    {
        match T::data_type_type() {
            DataTypeType::Vec3 => DataTypeInstance::Vec3(Property::Value(from_ints(1, 1, 1))),
            _ => DataTypeInstance::Float(Property::Value(Scalar::new(from_long(2)))),
        }
    }

    /// Sets the value the script stands for.
    pub fn set_new_value(&mut self, value: T)
        ensures
            final(self).current() == value.content(),
            final(self).text() == old(self).text(),
            final(self).origin() == old(self).origin(),
    {
        self.parsed_tree.value = value;
    }

    /// The value the script stands for.
    pub fn get_value(&self) -> (value: &T)
        ensures
            value.content() == self.current(),
    {
        &self.parsed_tree.value
    }

    /// The script's text.
    pub fn get_string(&self) -> (text: String)
        ensures
            text@ == self.text(),
    {
        self.literal.clone()
    }

    /// A copy of the script.
    pub fn duplicate(&self) -> (copy: Self)
        ensures
            copy.text() == self.text(),
            copy.current() == self.current(),
            copy.origin() == self.origin(),
    {
        OneiroiScript {
            literal: self.literal.clone(),
            parsed_tree: ParserCache {
                origin: self.parsed_tree.origin,
                target: self.parsed_tree.target,
                value: self.parsed_tree.value.duplicate(),
            },
        }
    }

    /// A script with the given text that is bound to no node yet. It stands
    /// for the type's default value until one is set.
    pub fn with_literal(literal: &str) -> (script: Self)
        ensures
            script.text() == literal@,
            script.current() == T::default_content(),
            script.origin() == NodeIndex(0),
    {
        OneiroiScript {
            literal: String::from_str(literal),
            parsed_tree: ParserCache {
                origin: NodeIndex(0),
                target: NodeIndex(0),
                value: T::default_value(),
            },
        }
    }

    /// Binds a script to the node at `index`. Every text is accepted as it
    /// is; the script stands for the type's default value until one is set.
    pub fn try_parse(input: &str, asset: &Asset, index: NodeIndex) -> (r: Result<
        OneiroiScript<T>,
        OneiroiScriptParserError,
    >)
        ensures
            r is Ok,
            r->Ok_0.text() == input@,
            r->Ok_0.origin() == index,
            r->Ok_0.current() == T::default_content(),
    {
        Ok(
            OneiroiScript {
                literal: String::from_str(input),
                parsed_tree: ParserCache {
                    origin: index,
                    target: NodeIndex(0),
                    value: T::default_value(),
                },
            },
        )
    }
}

} // verus!
