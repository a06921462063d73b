//! The values that flow along the edges of the graph, and the properties that
//! hold them.

use vstd::prelude::*;
use vstd::string::StringExecFns;
use vstd::string::StrSliceExecFns;
use crate::mesh::{empty_mesh, FaceHandle, MeshView, OneiroiMesh};
use crate::script::OneiroiScript;
use crate::vector::{
    from_ints, from_long, lane_text, lane_texts, quotient, vec3_from_ints, vec3_quotient,
    vec3_splat_int,
};

verus! {

/// The type of a value, of a property or of a socket.
#[derive(Debug, Clone, Copy, PartialEq, Eq, Structural)]
pub enum DataTypeType {
    Omni,
    Selection,
    Mesh,
    Collection,
    Instance,
    Curve,
    Collider,
    Vec3,
    Bool,
    Int,
    Float,
    Curve2d,
}

impl DataTypeType {
    /// The colour in which sockets of this type are drawn, as red, green and
    /// blue between 0 and 1. Only `Omni` and `Mesh` have one.
    pub fn get_color(&self) -> (color: glam::Vec3)
        requires
            self == DataTypeType::Omni || self == DataTypeType::Mesh,
        ensures
            self == DataTypeType::Omni ==> color == vec3_quotient(
                vec3_from_ints(134, 25, 143),
                vec3_from_ints(256, 256, 256),
            ),
            self == DataTypeType::Mesh ==> color == vec3_quotient(
                vec3_from_ints(59, 230, 121),
                vec3_from_ints(256, 256, 256),
            ),
    {
        match self {
            DataTypeType::Omni => quotient(from_ints(134, 25, 143), from_ints(256, 256, 256)),
            _ => quotient(from_ints(59, 230, 121), from_ints(256, 256, 256)),
        }
    }
}

/// Stands for every type at once; a socket of this type takes any value.
pub struct Omni;

/// A number in single precision. glam does the arithmetic, so the number is
/// held as a glam vector: it is the vector's first lane.
#[derive(Clone, Copy, Debug)]
pub struct Scalar {
    lanes: glam::Vec3,
}

impl Scalar {
    /// The vector that holds the number.
    pub closed spec fn spec_lanes(self) -> glam::Vec3 {
        self.lanes
    }

    /// The number in the first lane of `lanes`.
    pub fn new(lanes: glam::Vec3) -> (r: Self)
        ensures
            r.spec_lanes() == lanes,
    {
        Scalar { lanes }
    }

    /// The integer, converted to single precision.
    pub fn from_int(i: i64) -> (r: Self)
        ensures
            r.spec_lanes() == vec3_splat_int(i as int),
    {
        Scalar { lanes: from_long(i) }
    }

    /// The vector that holds the number.
    pub fn lanes(&self) -> (r: glam::Vec3)
        ensures
            r == self.spec_lanes(),
    {
        self.lanes
    }
}

/// What a type must offer so that a property can hold values of it.
pub trait DataType: Sized {
    /// What a value holds, as contracts speak of it.
    type Content;

    /// What this value holds.
    spec fn content(&self) -> Self::Content;

    /// The tag of this type.
    spec fn tag() -> DataTypeType;

    /// What the type's default value holds.
    spec fn default_content() -> Self::Content;

    /// The tag of this type.
    fn data_type_type() -> (t: DataTypeType)
        ensures
            t == Self::tag(),
    ;

    /// A copy of the value.
    fn duplicate(&self) -> (copy: Self)
        ensures
            copy.content() == self.content(),
    ;

    /// The type's default value.
    fn default_value() -> (value: Self)
        ensures
            value.content() == Self::default_content(),
    ;

    /// `text` is this value written as a script; it is `None` for a value of
    /// a type without a script form.
    spec fn script_form(&self, text: Option<String>) -> bool;

    /// The value as script text, where the type has a script form: vectors,
    /// numbers, integers and booleans have one.
    fn generate_script(&self) -> (text: Option<String>)
        ensures
            text is Some <==> (Self::tag() == DataTypeType::Vec3 || Self::tag()
                == DataTypeType::Float || Self::tag() == DataTypeType::Int || Self::tag()
                == DataTypeType::Bool),
            self.script_form(text),
    ;
}

/// A vector written as a script: `Vec3(`, the three lanes as std's `Display`
/// writes them, with a comma between them, and `)`.
pub open spec fn vector_script(v: glam::Vec3) -> Seq<char> {
    "Vec3("@ + lane_text(v, 0) + ","@ + lane_text(v, 1) + ","@ + lane_text(v, 2) + ")"@
}

impl DataType for glam::Vec3 {
    type Content = glam::Vec3;

    open spec fn content(&self) -> glam::Vec3 {
        *self
    }

    open spec fn tag() -> DataTypeType {
        DataTypeType::Vec3
    }

    open spec fn default_content() -> glam::Vec3 {
        vec3_from_ints(0, 0, 0)
    }

    fn data_type_type() -> DataTypeType {
        DataTypeType::Vec3
    }

    fn duplicate(&self) -> Self {
        *self
    }

    fn default_value() -> Self {
        from_ints(0, 0, 0)
    }

    open spec fn script_form(&self, text: Option<String>) -> bool {
        text is Some && text->Some_0@ == vector_script(*self)
    }

    fn generate_script(&self) -> Option<String> {
        let lanes = lane_texts(*self);
        let mut text = String::from_str("Vec3(");
        text.append(lanes.0.as_str());
        text.append(",");
        text.append(lanes.1.as_str());
        text.append(",");
        text.append(lanes.2.as_str());
        text.append(")");
        Some(text)
    }
}

impl DataType for Scalar {
    type Content = glam::Vec3;

    open spec fn content(&self) -> glam::Vec3 {
        self.spec_lanes()
    }

    open spec fn tag() -> DataTypeType {
        DataTypeType::Float
    }

    open spec fn default_content() -> glam::Vec3 {
        vec3_splat_int(0)
    }

    fn data_type_type() -> DataTypeType {
        DataTypeType::Float
    }

    fn duplicate(&self) -> Self {
        *self
    }

    fn default_value() -> Self {
        Scalar::from_int(0)
    }

    open spec fn script_form(&self, text: Option<String>) -> bool {
        text is Some && text->Some_0@ == lane_text(self.spec_lanes(), 0)
    }

    fn generate_script(&self) -> Option<String> {
        let lanes = lane_texts(self.lanes);
        Some(lanes.0)
    }
}

impl DataType for bool {
    type Content = bool;

    open spec fn content(&self) -> bool {
        *self
    }

    open spec fn tag() -> DataTypeType {
        DataTypeType::Bool
    }

    open spec fn default_content() -> bool {
        false
    }

    fn data_type_type() -> DataTypeType {
        DataTypeType::Bool
    }

    fn duplicate(&self) -> Self {
        *self
    }

    fn default_value() -> Self {
        false
    }

    open spec fn script_form(&self, text: Option<String>) -> bool {
        text is Some && text->Some_0@ == (if *self {
            "true"@
        } else {
            "false"@
        })
    }

    fn generate_script(&self) -> Option<String> {
        if *self {
            Some(String::from_str("true"))
        } else {
            Some(String::from_str("false"))
        }
    }
}

impl DataType for i64 {
    type Content = i64;

    open spec fn content(&self) -> i64 {
        *self
    }

    open spec fn tag() -> DataTypeType {
        DataTypeType::Int
    }

    open spec fn default_content() -> i64 {
        0
    }

    fn data_type_type() -> DataTypeType {
        DataTypeType::Int
    }

    fn duplicate(&self) -> Self {
        *self
    }

    fn default_value() -> Self {
        0
    }

    /// The text is what std's `Display` writes for the integer.
    open spec fn script_form(&self, text: Option<String>) -> bool {
        text is Some && vstd::string::to_string_from_display_ensures::<i64>(self, text->Some_0)
    }

    fn generate_script(&self) -> Option<String> {
        Some(self.to_string())
    }
}

impl DataType for OneiroiMesh {
    type Content = MeshView;

    open spec fn content(&self) -> MeshView {
        self@
    }

    open spec fn tag() -> DataTypeType {
        DataTypeType::Mesh
    }

    open spec fn default_content() -> MeshView {
        empty_mesh()
    }

    fn data_type_type() -> DataTypeType {
        DataTypeType::Mesh
    }

    fn duplicate(&self) -> Self {
        self.clone()
    }

    fn default_value() -> Self {
        OneiroiMesh::default()
    }

    open spec fn script_form(&self, text: Option<String>) -> bool {
        text is None
    }

    fn generate_script(&self) -> Option<String> {
        None
    }
}

/// Selects elements of a mesh. The literal is the decimal number of a face.
#[derive(Debug)]
pub struct Selection {
    literal: String,
}

impl View for Selection {
    type V = Seq<char>;

    closed spec fn view(&self) -> Seq<char> {
        self.literal@
    }
}

/// Why a selection selects nothing.
#[derive(Clone, Copy, PartialEq, Eq, Debug, Structural)]
pub enum SelectionError {
    /// The literal is not the decimal number of a face: it is empty, holds
    /// something other than digits after an optional `+`, or its number is 0
    /// or larger than a handle can be.
    NotAFace,
}

/// The value of a decimal digit.
pub open spec fn digit_value(c: char) -> Option<nat> {
    if '0' <= c <= '9' {
        Some((c as int - '0' as int) as nat)
    } else {
        None
    }
}

/// The number that a sequence of decimal digits stands for; `None` for the
/// empty sequence and for one that holds anything but digits.
pub open spec fn decimal_value(s: Seq<char>) -> Option<nat>
    decreases s.len(),
{
    if s.len() == 0 {
        None
    } else if s.len() == 1 {
        digit_value(s[0])
    } else {
        match (decimal_value(s.drop_last()), digit_value(s.last())) {
            (Some(v), Some(d)) => Some(v * 10 + d),
            _ => None,
        }
    }
}

/// The number of the face that a literal selects: the literal is a decimal
/// number, with or without a `+` in front, between 1 and the largest handle.
pub open spec fn selected_face(literal: Seq<char>) -> Option<nat> {
    let digits = if literal.len() > 0 && literal[0] == '+' {
        literal.skip(1)
    } else {
        literal
    };
    match decimal_value(digits) {
        Some(v) => if 1 <= v <= u32::MAX {
            Some(v)
        } else {
            None
        },
        None => None,
    }
}

impl Selection {
    /// The selection with the given literal.
    pub fn new(selection: &str) -> (r: Self)
        ensures
            r@ == selection@,
    {
        Selection { literal: String::from_str(selection) }
    }

    /// The selection's literal.
    pub fn get_literal(&self) -> (literal: &str)
        ensures
            literal@ == self@,
    {
        self.literal.as_str()
    }

    /// The faces that the selection names: the one face whose number the
    /// literal is.
    pub fn try_get(&self) -> (r: Result<Vec<FaceHandle>, SelectionError>)
        ensures
            match r {
                Ok(faces) => selected_face(self@) is Some && faces.len() == 1 && faces[0]@
                    == selected_face(self@)->Some_0,
                Err(_) => selected_face(self@) is None,
            },
    {
        let text = self.literal.as_str();
        let len: usize = text.unicode_len();
        let start: usize = if len > 0 && text.get_char(0) == '+' {
            1
        } else {
            0
        };
        let ghost digits = if start == 1 {
            self@.skip(1)
        } else {
            self@
        };
        if start == len {
            return Err(SelectionError::NotAFace);
        }
        let mut value: u64 = 0;
        let mut i: usize = start;
        while i < len
            invariant
                start <= i <= len,
                start < len,
                len == self@.len(),
                text@ == self@,
                digits == self@.skip(start as int),
                digits == (if self@.len() > 0 && self@[0] == '+' {
                    self@.skip(1)
                } else {
                    self@
                }),
                value <= u32::MAX,
                i > start ==> decimal_value(digits.take(i - start)) == Some(value as nat),
                i == start ==> value == 0,
            decreases len - i,
        {
            let c = text.get_char(i);
            proof {
                let upto = digits.take(i + 1 - start);
                assert(upto.last() == c);
                assert(upto.drop_last() == digits.take(i - start));
                assert(upto.len() == i + 1 - start);
                if i == start {
                    assert(upto.len() == 1);
                    assert(upto[0] == c);
                }
            }
            if !(c >= '0' && c <= '9') {
                proof {
                    assert(digits[i - start] == c);
                    lemma_decimal_needs_digits(digits, i - start);
                }
                return Err(SelectionError::NotAFace);
            }
            let d: u64 = (c as u32 - '0' as u32) as u64;
            let next: u64 = value * 10 + d;
            proof {
                assert(digit_value(c) == Some(d as nat));
                assert(decimal_value(digits.take(i + 1 - start)) == Some(next as nat));
            }
            if next > u32::MAX as u64 {
                proof {
                    lemma_decimal_grows(digits, i + 1 - start);
                }
                return Err(SelectionError::NotAFace);
            }
            value = next;
            i += 1;
        }
        proof {
            assert(digits.take(len - start) == digits);
        }
        if value == 0 {
            return Err(SelectionError::NotAFace);
        }
        let mut faces: Vec<FaceHandle> = Vec::new();
        faces.push(FaceHandle::new(value as usize));
        Ok(faces)
    }

    /// A copy of the selection.
    pub fn duplicate_selection(&self) -> (copy: Self)
        ensures
            copy@ == self@,
    {
        Selection { literal: self.literal.clone() }
    }
}

/// A sequence that holds something other than a digit stands for no number.
pub proof fn lemma_decimal_needs_digits(s: Seq<char>, k: int)
    requires
        0 <= k < s.len(),
        digit_value(s[k]) is None,
    ensures
        decimal_value(s) is None,
    decreases s.len(),
{
    if s.len() > 1 {
        if k < s.len() - 1 {
            lemma_decimal_needs_digits(s.drop_last(), k);
        }
    }
}

/// The number of a sequence of digits is at least the number of each of its
/// beginnings.
pub proof fn lemma_decimal_grows(s: Seq<char>, k: int)
    requires
        1 <= k <= s.len(),
        decimal_value(s.take(k)) is Some,
    ensures
        decimal_value(s) is Some ==> decimal_value(s)->Some_0 >= decimal_value(s.take(k))->Some_0,
    decreases s.len() - k,
{
    if k == s.len() {
        assert(s.take(k) == s);
    } else {
        assert(s.take(k + 1).drop_last() == s.take(k));
        if decimal_value(s.take(k + 1)) is Some {
            lemma_decimal_grows(s, k + 1);
        } else {
            lemma_decimal_prefix(s, k + 1);
        }
    }
}

/// If a beginning of a sequence stands for no number, neither does the whole.
pub proof fn lemma_decimal_prefix(s: Seq<char>, k: int)
    requires
        1 <= k <= s.len(),
        decimal_value(s.take(k)) is None,
    ensures
        decimal_value(s) is None,
    decreases s.len() - k,
{
    if k == s.len() {
        assert(s.take(k) == s);
    } else {
        assert(s.take(k + 1).drop_last() == s.take(k));
        lemma_decimal_prefix(s, k + 1);
    }
}

impl DataType for Selection {
    type Content = Seq<char>;

    open spec fn content(&self) -> Seq<char> {
        self@
    }

    open spec fn tag() -> DataTypeType {
        DataTypeType::Selection
    }

    open spec fn default_content() -> Seq<char> {
        Seq::empty()
    }

    fn data_type_type() -> DataTypeType {
        DataTypeType::Selection
    }

    fn duplicate(&self) -> Self {
        self.duplicate_selection()
    }

    fn default_value() -> Self {
        Selection { literal: String::new() }
    }

    open spec fn script_form(&self, text: Option<String>) -> bool {
        text is None
    }

    fn generate_script(&self) -> Option<String> {
        None
    }
}

/// What a property holds: the value, and the text of the script if the value
/// is bound to one.
pub struct PropertyView<C> {
    pub script: Option<Seq<char>>,
    pub value: C,
}

/// A property of a node: either a literal value, or a script together with
/// the value it currently stands for.
pub enum Property<T: DataType> {
    Script(OneiroiScript<T>),
    Value(T),
}

impl<T: DataType> View for Property<T> {
    type V = PropertyView<T::Content>;

    open spec fn view(&self) -> PropertyView<T::Content> {
        match self {
            Property::Script(script) => PropertyView {
                script: Some(script.text()),
                value: script.current(),
            },
            Property::Value(value) => PropertyView { script: None, value: value.content() },
        }
    }
}

/// Why a property could not be read or written.
#[derive(Clone, Copy, PartialEq, Eq, Debug, Structural)]
pub enum PropertyError {
    /// There is no property of that name.
    UnknownProperty,
    /// The value is not of the property's type.
    TypeMismatch,
    /// The value is bound to a script; only literal values can be assigned.
    ScriptNotSupported,
}

impl<T: DataType> Property<T> {
    /// The property that holds the literal value.
    pub fn new(value: T) -> (r: Property<T>)
        ensures
            r@ == (PropertyView { script: None, value: value.content() }),
    {
        Property::Value(value)
    }

    /// The type of the property, without a name. A scripted vector or number
    /// comes with the scripted default; a literal has no default of its own.
    pub fn get_property_meta(&self) -> (meta: PropertyMetadata)
        requires
            self is Script ==> T::tag() == DataTypeType::Vec3 || T::tag() == DataTypeType::Float,
        ensures
            meta@.name is None,
            meta@.property_type == T::tag(),
            self is Value ==> meta@.default is None,
            self is Script ==> meta@.default is Some,
    {
        match self {
            Property::Script(expression) => {
                let default_value = expression.get_default_value();
                PropertyMetadata {
                    name: None,
                    property_type: T::data_type_type(),
                    default: Some(default_value),
                }
            },
            Property::Value(_) => PropertyMetadata {
                name: None,
                property_type: T::data_type_type(),
                default: None,
            },
        }
    }

    /// `text` is the property as script text: the text of its script, or its
    /// literal value written as a script where the type has a script form.
    pub open spec fn script_given(&self, text: Option<String>) -> bool {
        match self {
            Property::Script(script) => text is Some && text->Some_0@ == script.text(),
            Property::Value(value) => value.script_form(text),
        }
    }

    /// The text of the script, or the literal value written as a script where
    /// its type has a script form.
    pub fn get_script(&self) -> (text: Option<String>)
        ensures
            self.script_given(text),
            self@.script is Some ==> text is Some && text->Some_0@ == self@.script->Some_0,
    {
        match self {
            Property::Script(script) => Some(script.get_string()),
            Property::Value(value) => value.generate_script(),
        }
    }

    /// The value the property holds.
    pub fn get_value(&self) -> (value: &T)
        ensures
            value.content() == self@.value,
    {
        match self {
            Property::Script(expression) => expression.get_value(),
            Property::Value(t) => t,
        }
    }

    /// Takes the value out of a literal property.
    pub fn consume(self) -> (value: T)
        requires
            self is Value,
        ensures
            value.content() == self@.value,
    {
        match self {
            Property::Value(t) => t,
            Property::Script(_) => {
                proof {
                    assert(false);
                }
                T::default_value()
            },
        }
    }

    /// Gives the property the value of a literal. A scripted property keeps
    /// its script; a scripted new value is turned down and nothing changes.
    pub fn update(&mut self, new_value: Property<T>) -> (r: Result<(), PropertyError>)
        ensures
            match r {
                Ok(_) => new_value is Value && final(self)@ == (PropertyView {
                    script: old(self)@.script,
                    value: new_value@.value,
                }),
                Err(e) => new_value is Script && e == PropertyError::ScriptNotSupported
                    && *final(self) == *old(self),
            },
    {
        match new_value {
            Property::Script(_) => Err(PropertyError::ScriptNotSupported),
            Property::Value(new_val) => {
                match self {
                    Property::Script(current_expression) => {
                        current_expression.set_new_value(new_val);
                    },
                    Property::Value(current_value) => {
                        *current_value = new_val;
                    },
                }
                Ok(())
            },
        }
    }

    /// A copy of the property.
    pub fn duplicate(&self) -> (copy: Self)
        ensures
            copy@ == self@,
            copy is Script <==> self is Script,
    {
        match self {
            Property::Script(script) => Property::Script(script.duplicate()),
            Property::Value(value) => Property::Value(value.duplicate()),
        }
    }
}

impl Property<glam::Vec3> {
    /// The property as a value of the graph.
    pub fn get_instance(&self) -> (r: DataTypeInstance)
        ensures
            r@ == ValueView::Vec3(self@),
    {
        DataTypeInstance::Vec3(self.duplicate())
    }
}

impl Property<Scalar> {
    /// The property as a value of the graph.
    pub fn get_instance(&self) -> (r: DataTypeInstance)
        ensures
            r@ == ValueView::Float(self@),
    {
        DataTypeInstance::Float(self.duplicate())
    }
}

impl Property<i64> {
    /// The property as a value of the graph.
    pub fn get_instance(&self) -> (r: DataTypeInstance)
        ensures
            r@ == ValueView::Int(self@),
    {
        DataTypeInstance::Int(self.duplicate())
    }
}

impl Property<Selection> {
    /// The property as a value of the graph.
    pub fn get_instance(&self) -> (r: DataTypeInstance)
        ensures
            r@ == ValueView::Selection(self@),
    {
        DataTypeInstance::Selection(self.duplicate())
    }
}

impl Property<bool> {
    /// The property as a value of the graph.
    pub fn get_instance(&self) -> (r: DataTypeInstance)
        ensures
            r@ == ValueView::Bool(self@),
    {
        DataTypeInstance::Bool(self.duplicate())
    }
}

/// What a value of the graph holds.
pub enum ValueView {
    Vec3(PropertyView<glam::Vec3>),
    Float(PropertyView<glam::Vec3>),
    Bool(PropertyView<bool>),
    Int(PropertyView<i64>),
    Mesh(PropertyView<MeshView>),
    Selection(PropertyView<Seq<char>>),
}

impl ValueView {
    /// The type of the value.
    pub open spec fn data_type(self) -> DataTypeType {
        match self {
            ValueView::Vec3(_) => DataTypeType::Vec3,
            ValueView::Float(_) => DataTypeType::Float,
            ValueView::Bool(_) => DataTypeType::Bool,
            ValueView::Int(_) => DataTypeType::Int,
            ValueView::Mesh(_) => DataTypeType::Mesh,
            ValueView::Selection(_) => DataTypeType::Selection,
        }
    }

    /// The value is not bound to a script.
    pub open spec fn is_literal(self) -> bool {
        match self {
            ValueView::Vec3(p) => p.script is None,
            ValueView::Float(p) => p.script is None,
            ValueView::Bool(p) => p.script is None,
            ValueView::Int(p) => p.script is None,
            ValueView::Mesh(p) => p.script is None,
            ValueView::Selection(p) => p.script is None,
        }
    }
}

/// A value of the graph: one of six types, each as a property.
pub enum DataTypeInstance {
    Vec3(Property<glam::Vec3>),
    Float(Property<Scalar>),
    Bool(Property<bool>),
    Int(Property<i64>),
    Mesh(Property<OneiroiMesh>),
    Selection(Property<Selection>),
}

impl View for DataTypeInstance {
    type V = ValueView;

    open spec fn view(&self) -> ValueView {
        match self {
            DataTypeInstance::Vec3(p) => ValueView::Vec3(p@),
            DataTypeInstance::Float(p) => ValueView::Float(p@),
            DataTypeInstance::Bool(p) => ValueView::Bool(p@),
            DataTypeInstance::Int(p) => ValueView::Int(p@),
            DataTypeInstance::Mesh(p) => ValueView::Mesh(p@),
            DataTypeInstance::Selection(p) => ValueView::Selection(p@),
        }
    }
}

impl Clone for DataTypeInstance {
    /// A copy of the value. A mesh shares its storage with the copy.
    fn clone(&self) -> (copy: Self)
        ensures
            copy@ == self@,
    {
        match self {
            DataTypeInstance::Vec3(p) => DataTypeInstance::Vec3(p.duplicate()),
            DataTypeInstance::Float(p) => DataTypeInstance::Float(p.duplicate()),
            DataTypeInstance::Bool(p) => DataTypeInstance::Bool(p.duplicate()),
            DataTypeInstance::Int(p) => DataTypeInstance::Int(p.duplicate()),
            DataTypeInstance::Mesh(p) => DataTypeInstance::Mesh(p.duplicate()),
            DataTypeInstance::Selection(p) => DataTypeInstance::Selection(p.duplicate()),
        }
    }
}

impl DataTypeInstance {
    /// The type of the value.
    pub fn get_type(&self) -> (t: DataTypeType)
        ensures
            t == self@.data_type(),
    {
        match self {
            DataTypeInstance::Vec3(_) => DataTypeType::Vec3,
            DataTypeInstance::Float(_) => DataTypeType::Float,
            DataTypeInstance::Mesh(_) => DataTypeType::Mesh,
            DataTypeInstance::Selection(_) => DataTypeType::Selection,
            DataTypeInstance::Int(_) => DataTypeType::Int,
            DataTypeInstance::Bool(_) => DataTypeType::Bool,
        }
    }

    /// The property inside a vector value.
    pub fn inner_vec3(self) -> (r: Result<Property<glam::Vec3>, PropertyError>)
        ensures
            match r {
                Ok(p) => self@ == ValueView::Vec3(p@) && (p is Script <==> !self@.is_literal()),
                Err(e) => !(self@ is Vec3) && e == PropertyError::TypeMismatch,
            },
    {
        match self {
            DataTypeInstance::Vec3(property) => Ok(property),
            _ => Err(PropertyError::TypeMismatch),
        }
    }

    /// The property inside a number value.
    pub fn inner_f32(self) -> (r: Result<Property<Scalar>, PropertyError>)
        ensures
            match r {
                Ok(p) => self@ == ValueView::Float(p@) && (p is Script <==> !self@.is_literal()),
                Err(e) => !(self@ is Float) && e == PropertyError::TypeMismatch,
            },
    {
        match self {
            DataTypeInstance::Float(property) => Ok(property),
            _ => Err(PropertyError::TypeMismatch),
        }
    }

    /// The property inside an integer value.
    pub fn inner_int(self) -> (r: Result<Property<i64>, PropertyError>)
        ensures
            match r {
                Ok(p) => self@ == ValueView::Int(p@) && (p is Script <==> !self@.is_literal()),
                Err(e) => !(self@ is Int) && e == PropertyError::TypeMismatch,
            },
    {
        match self {
            DataTypeInstance::Int(property) => Ok(property),
            _ => Err(PropertyError::TypeMismatch),
        }
    }

    /// The property inside a boolean value.
    pub fn inner_bool(self) -> (r: Result<Property<bool>, PropertyError>)
        ensures
            match r {
                Ok(p) => self@ == ValueView::Bool(p@) && (p is Script <==> !self@.is_literal()),
                Err(e) => !(self@ is Bool) && e == PropertyError::TypeMismatch,
            },
    {
        match self {
            DataTypeInstance::Bool(property) => Ok(property),
            _ => Err(PropertyError::TypeMismatch),
        }
    }

    /// The property inside a selection value.
    pub fn inner_selection(self) -> (r: Result<Property<Selection>, PropertyError>)
        ensures
            match r {
                Ok(p) => self@ == ValueView::Selection(p@) && (p is Script
                    <==> !self@.is_literal()),
                Err(e) => !(self@ is Selection) && e == PropertyError::TypeMismatch,
            },
    {
        match self {
            DataTypeInstance::Selection(property) => Ok(property),
            _ => Err(PropertyError::TypeMismatch),
        }
    }

    /// The property inside a mesh value.
    pub fn inner_mesh(&self) -> (r: Result<&Property<OneiroiMesh>, PropertyError>)
        ensures
            match r {
                Ok(p) => self@ == ValueView::Mesh(p@) && (p is Script <==> !self@.is_literal()),
                Err(e) => !(self@ is Mesh) && e == PropertyError::TypeMismatch,
            },
    {
        match self {
            DataTypeInstance::Mesh(property) => Ok(property),
            _ => Err(PropertyError::TypeMismatch),
        }
    }

    /// `text` is the value as script text: for a vector, a number, an integer
    /// or a boolean the text of its script, or the literal written as a
    /// script; for a mesh and for a selection there is none.
    pub open spec fn expression_given(&self, text: Option<String>) -> bool {
        match self {
            DataTypeInstance::Vec3(property) => property.script_given(text),
            DataTypeInstance::Float(property) => property.script_given(text),
            DataTypeInstance::Bool(property) => property.script_given(text),
            DataTypeInstance::Int(property) => property.script_given(text),
            DataTypeInstance::Mesh(_) => text is None,
            DataTypeInstance::Selection(_) => text is None,
        }
    }

    /// The value as script text; meshes and selections have none.
    pub fn get_expression(&self) -> (text: Option<String>)
        ensures
            self.expression_given(text),
            text is Some <==> (self@ is Vec3 || self@ is Float || self@ is Bool || self@ is Int),
    {
        match self {
            DataTypeInstance::Vec3(property) => property.get_script(),
            DataTypeInstance::Bool(property) => property.get_script(),
            DataTypeInstance::Float(property) => property.get_script(),
            DataTypeInstance::Int(property) => property.get_script(),
            DataTypeInstance::Mesh(_) => None,
            DataTypeInstance::Selection(_) => None,
        }
    }

    /// The type of the value as the description of a property without a
    /// name. Only literal vectors, numbers, integers and booleans, and
    /// scripted vectors and numbers, can be described.
    pub fn get_property_meta(&self) -> (meta: PropertyMetadata)
        requires
            self@ is Vec3 || self@ is Float || ((self@ is Bool || self@ is Int)
                && self@.is_literal()),
        ensures
            meta@.name is None,
            meta@.property_type == self@.data_type(),
            meta@.default is Some <==> !self@.is_literal(),
    {
        match self {
            DataTypeInstance::Vec3(property) => property.get_property_meta(),
            DataTypeInstance::Float(property) => property.get_property_meta(),
            DataTypeInstance::Bool(property) => property.get_property_meta(),
            DataTypeInstance::Int(property) => property.get_property_meta(),
            _ => {
                proof {
                    assert(false);
                }
                PropertyMetadata { name: None, property_type: DataTypeType::Omni, default: None }
            },
        }
    }
}

/// The views of a sequence of values.
pub open spec fn value_views(values: Seq<DataTypeInstance>) -> Seq<ValueView> {
    Seq::new(values.len(), |i: int| values[i]@)
}

/// The types of the values.
pub open spec fn types_of(values: Seq<ValueView>) -> Seq<DataTypeType> {
    Seq::new(values.len(), |k: int| values[k].data_type())
}

/// The views of a sequence of borrowed values.
pub open spec fn borrowed_views(values: Seq<&DataTypeInstance>) -> Seq<ValueView> {
    Seq::new(values.len(), |i: int| values[i]@)
}

/// What the description of a property holds.
pub struct PropertyMetadataView {
    pub name: Option<Seq<char>>,
    pub property_type: DataTypeType,
    pub default: Option<ValueView>,
}

/// Describes a property: its name, its type and its default value.
pub struct PropertyMetadata {
    name: Option<String>,
    property_type: DataTypeType,
    default: Option<DataTypeInstance>,
}

impl View for PropertyMetadata {
    type V = PropertyMetadataView;

    closed spec fn view(&self) -> PropertyMetadataView {
        PropertyMetadataView {
            name: match self.name {
                Some(n) => Some(n@),
                None => None,
            },
            property_type: self.property_type,
            default: match self.default {
                Some(d) => Some(d@),
                None => None,
            },
        }
    }
}

impl Clone for PropertyMetadata {
    /// A copy of the description.
    fn clone(&self) -> (copy: Self)
        ensures
            copy@ == self@,
    {
        PropertyMetadata {
            name: match &self.name {
                Some(n) => Some(n.clone()),
                None => None,
            },
            property_type: self.property_type,
            default: match &self.default {
                Some(d) => Some(d.clone()),
                None => None,
            },
        }
    }
}

impl PropertyMetadata {
    /// A description with everything given.
    pub fn new(name: &str, property_type: DataTypeType, default: DataTypeInstance) -> (meta: Self)
        ensures
            meta@ == (PropertyMetadataView {
                name: Some(name@),
                property_type,
                default: Some(default@),
            }),
    {
        PropertyMetadata {
            name: Some(String::from_str(name)),
            property_type,
            default: Some(default),
        }
    }

    /// The property's name.
    pub fn name(&self) -> (name: &str)
        requires
            self@.name is Some,
        ensures
            name@ == self@.name->Some_0,
    {
        match &self.name {
            Some(n) => n.as_str(),
            None => {
                proof {
                    assert(false);
                }
                ""
            },
        }
    }

    /// The property's name, if it has one.
    pub fn name_or_none(&self) -> (name: Option<&str>)
        ensures
            match name {
                Some(n) => self@.name == Some(n@),
                None => self@.name is None,
            },
    {
        match &self.name {
            Some(n) => Some(n.as_str()),
            None => None,
        }
    }

    /// Names the property.
    pub fn set_name(&mut self, name: &str)
        ensures
            final(self)@ == (PropertyMetadataView { name: Some(name@), ..old(self)@ }),
    {
        self.name = Some(String::from_str(name));
    }

    /// Sets the property's default value.
    pub fn set_default(&mut self, default_val: DataTypeInstance)
        ensures
            final(self)@ == (PropertyMetadataView { default: Some(default_val@), ..old(self)@ }),
    {
        self.default = Some(default_val);
    }

    /// The property's type.
    pub fn get_type(&self) -> (t: &DataTypeType)
        ensures
            *t == self@.property_type,
    {
        &self.property_type
    }

    /// The property's default value.
    pub fn get_default(&self) -> (default: &DataTypeInstance)
        requires
            self@.default is Some,
        ensures
            default@ == self@.default->Some_0,
    {
        match &self.default {
            Some(d) => d,
            None => {
                proof {
                    assert(false);
                }
                vstd::pervasive::unreached()
            },
        }
    }
}

/// Whether two texts are the same.
pub fn same_text(a: &str, b: &str) -> (same: bool)
    ensures
        same == (a@ == b@),
{
    let x = String::from_str(a);
    let y = String::from_str(b);
    x == y
}

} // verus!
