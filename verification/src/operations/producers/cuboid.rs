//! The box: eight corners, twelve triangles.

use vstd::prelude::*;
use crate::data_types::{
    same_text, DataTypeInstance, DataTypeType, Property, PropertyError, PropertyMetadata,
    PropertyMetadataView, PropertyView, ValueView,
};
use crate::mesh::{
    empty_mesh, lemma_with_triangles_next, triangle_numbers, with_points,
    with_triangle, with_triangles, MeshError, MeshView, OneiroiMesh, PointHandle,
};
use crate::operations::{
    metadata_views, Operation, OperationError, PropertyInterface, StaticNodeMetadata,
};
use crate::vector::{from_ints, product, quotient, vec3_from_ints, vec3_product, vec3_quotient};

verus! {

/// A box around the origin, `size` wide along each axis.
pub struct BoxV1 {
    size: Property<glam::Vec3>,
    origin: Property<glam::Vec3>,
    subdivisions: Property<glam::Vec3>,
}

/// What a box holds.
pub struct BoxView {
    pub size: PropertyView<glam::Vec3>,
    pub origin: PropertyView<glam::Vec3>,
    pub subdivisions: PropertyView<glam::Vec3>,
}

impl View for BoxV1 {
    type V = BoxView;

    closed spec fn view(&self) -> BoxView {
        BoxView { size: self.size@, origin: self.origin@, subdivisions: self.subdivisions@ }
    }
}

/// The signs of the eight corners of a box, in the order the corners are
/// added: the four corners of the front, then the four of the back.
pub open spec fn box_signs() -> Seq<(int, int, int)> {
    seq![
        (1, 1, 1),
        (1, 1, -1),
        (1, -1, 1),
        (1, -1, -1),
        (-1, 1, 1),
        (-1, -1, 1),
        (-1, -1, -1),
        (-1, 1, -1),
    ]
}

/// The positions of the eight corners of a box of the given size: half the
/// size along each axis, with the signs of the corner.
pub open spec fn box_corners(size: glam::Vec3) -> Seq<glam::Vec3> {
    let half = vec3_quotient(size, vec3_from_ints(2, 2, 2));
    Seq::new(
        8,
        |i: int| vec3_product(half, vec3_from_ints(box_signs()[i].0, box_signs()[i].1, box_signs()[i].2)),
    )
}

/// The twelve triangles of a box, two for each side, by the numbers of their corners.
pub open spec fn box_faces() -> Seq<(u32, u32, u32)> {
    seq![
        (2u32, 1u32, 4u32),
        (1u32, 3u32, 4u32),
        (2u32, 4u32, 8u32),
        (8u32, 4u32, 7u32),
        (8u32, 7u32, 6u32),
        (6u32, 5u32, 8u32),
        (5u32, 6u32, 1u32),
        (3u32, 1u32, 6u32),
        (8u32, 1u32, 2u32),
        (8u32, 5u32, 1u32),
        (3u32, 6u32, 4u32),
        (6u32, 7u32, 4u32),
    ]
}

/// The mesh of a box of the given size, or the reason why the mesh turned a
/// triangle down.
pub open spec fn box_mesh(size: glam::Vec3) -> Result<MeshView, MeshError> {
    with_triangles(with_points(empty_mesh(), box_corners(size)), box_faces())
}

/// The twelve triangles of a box always fit: no corner is missing or
/// repeated, and no edge gets a third face. The mesh of a box has the eight
/// corners as its points and the twelve triangles as its faces.
pub proof fn lemma_box_mesh_is_ok(size: glam::Vec3)
    ensures
        box_mesh(size) is Ok,
        box_mesh(size)->Ok_0.positions == box_corners(size),
        box_mesh(size)->Ok_0.face_points == box_faces(),
{
    let t = box_faces();
    let m0 = with_points(empty_mesh(), box_corners(size));
    assert(m0.positions.len() == 8);
    assert(m0.edge_faces =~= Map::<(u32, u32), (u32, u32)>::empty());
    assert(t.take(0) =~= Seq::<(u32, u32, u32)>::empty());
    assert(with_triangles(m0, t.take(0)) == Ok::<MeshView, MeshError>(m0));
    let m1 = with_triangle(m0, t[0]);
    lemma_with_triangles_next(m0, t, 0, m0);
    let m2 = with_triangle(m1, t[1]);
    lemma_with_triangles_next(m0, t, 1, m1);
    let m3 = with_triangle(m2, t[2]);
    lemma_with_triangles_next(m0, t, 2, m2);
    let m4 = with_triangle(m3, t[3]);
    lemma_with_triangles_next(m0, t, 3, m3);
    let m5 = with_triangle(m4, t[4]);
    lemma_with_triangles_next(m0, t, 4, m4);
    let m6 = with_triangle(m5, t[5]);
    lemma_with_triangles_next(m0, t, 5, m5);
    let m7 = with_triangle(m6, t[6]);
    lemma_with_triangles_next(m0, t, 6, m6);
    let m8 = with_triangle(m7, t[7]);
    lemma_with_triangles_next(m0, t, 7, m7);
    let m9 = with_triangle(m8, t[8]);
    lemma_with_triangles_next(m0, t, 8, m8);
    let m10 = with_triangle(m9, t[9]);
    lemma_with_triangles_next(m0, t, 9, m9);
    let m11 = with_triangle(m10, t[10]);
    lemma_with_triangles_next(m0, t, 10, m10);
    let m12 = with_triangle(m11, t[11]);
    lemma_with_triangles_next(m0, t, 11, m11);
    assert(t.take(12) == t);
    crate::mesh::lemma_with_triangles_rows(m0, t);
    assert(m0.positions =~= box_corners(size));
    assert(m0.face_points + t =~= t);
}

/// A value that holds the mesh as a literal.
pub open spec fn mesh_value(mesh: MeshView) -> ValueView {
    ValueView::Mesh(PropertyView { script: None, value: mesh })
}

impl BoxV1 {
    /// The box with the given properties.
    pub fn from_properties(
        size: Property<glam::Vec3>,
        origin: Property<glam::Vec3>,
        subdivisions: Property<glam::Vec3>,
    ) -> (node: Self)
        ensures
            node@ == (BoxView { size: size@, origin: origin@, subdivisions: subdivisions@ }),
    {
        BoxV1 { size, origin, subdivisions }
    }

    /// How wide the box is along each axis.
    pub fn size(&self) -> (property: &Property<glam::Vec3>)
        ensures
            property@ == self@.size,
    {
        &self.size
    }

    /// The point that the box is meant to stand around.
    pub fn origin(&self) -> (property: &Property<glam::Vec3>)
        ensures
            property@ == self@.origin,
    {
        &self.origin
    }

    /// Into how many parts each side is meant to be divided.
    pub fn subdivisions(&self) -> (property: &Property<glam::Vec3>)
        ensures
            property@ == self@.subdivisions,
    {
        &self.subdivisions
    }

    /// What a new box holds: size one, around the origin, not subdivided.
    pub open spec fn default_view() -> BoxView {
        BoxView {
            size: PropertyView { script: None, value: vec3_from_ints(1, 1, 1) },
            origin: PropertyView { script: None, value: vec3_from_ints(0, 0, 0) },
            subdivisions: PropertyView { script: None, value: vec3_from_ints(1, 1, 1) },
        }
    }
}

impl Default for BoxV1 {
    /// The box of size one around the origin.
    fn default() -> (r: Self)
        ensures
            r@ == BoxV1::default_view(),
    {
        BoxV1 {
            size: Property::new(from_ints(1, 1, 1)),
            origin: Property::new(from_ints(0, 0, 0)),
            subdivisions: Property::new(from_ints(1, 1, 1)),
        }
    }
}

impl Clone for BoxV1 {
    /// A copy of the box.
    fn clone(&self) -> (copy: Self)
        ensures
            copy@ == self@,
    {
        BoxV1 {
            size: self.size.duplicate(),
            origin: self.origin.duplicate(),
            subdivisions: self.subdivisions.duplicate(),
        }
    }
}

/// The value that a vector property takes from `value`: the property keeps
/// its script, if it has one.
pub open spec fn vec3_assigned(
    current: PropertyView<glam::Vec3>,
    value: ValueView,
) -> PropertyView<glam::Vec3> {
    PropertyView { script: current.script, value: value->Vec3_0.value }
}

/// Why a property of the given type does not take the value, if it does
/// not: the value is of another type, or it is bound to a script.
pub open spec fn literal_refusal(property_type: DataTypeType, value: ValueView) -> Option<
    PropertyError,
> {
    if value.data_type() != property_type {
        Some(PropertyError::TypeMismatch)
    } else if !value.is_literal() {
        Some(PropertyError::ScriptNotSupported)
    } else {
        None
    }
}

impl PropertyInterface for BoxV1 {
    open spec fn property(&self, name: Seq<char>) -> Option<ValueView> {
        if name == "size"@ {
            Some(ValueView::Vec3(self@.size))
        } else if name == "origin"@ {
            Some(ValueView::Vec3(self@.origin))
        } else {
            None
        }
    }

    open spec fn refusal(&self, name: Seq<char>, value: ValueView) -> Option<PropertyError> {
        if name == "size"@ || name == "origin"@ {
            literal_refusal(DataTypeType::Vec3, value)
        } else {
            Some(PropertyError::UnknownProperty)
        }
    }

    open spec fn property_set(&self, name: Seq<char>, value: ValueView, after: &Self) -> bool {
        if name == "size"@ {
            after@ == (BoxView { size: vec3_assigned(self@.size, value), ..self@ })
        } else {
            after@ == (BoxView { origin: vec3_assigned(self@.origin, value), ..self@ })
        }
    }

    open spec fn described(&self) -> Seq<PropertyMetadataView> {
        seq![
            PropertyMetadataView {
                name: Some("size"@),
                property_type: DataTypeType::Vec3,
                default: Some(
                    ValueView::Vec3(PropertyView { script: None, value: vec3_from_ints(1, 1, 1) }),
                ),
            },
            PropertyMetadataView {
                name: Some("origin"@),
                property_type: DataTypeType::Vec3,
                default: Some(
                    ValueView::Vec3(PropertyView { script: None, value: vec3_from_ints(0, 0, 0) }),
                ),
            },
        ]
    }

    fn try_set_property(&mut self, property: &str, value: DataTypeInstance) -> (r: Result<
        (),
        PropertyError,
    >) {
        let is_size = same_text(property, "size");
        let is_origin = same_text(property, "origin");
        if !is_size && !is_origin {
            return Err(PropertyError::UnknownProperty);
        }
        match value.inner_vec3() {
            Err(e) => Err(e),
            Ok(new_value) => {
                if is_size {
                    self.size.update(new_value)
                } else {
                    self.origin.update(new_value)
                }
            },
        }
    }

    fn try_get_property(&self, property: &str) -> (r: Result<DataTypeInstance, PropertyError>) {
        if same_text(property, "size") {
            Ok(self.size.get_instance())
        } else if same_text(property, "origin") {
            Ok(self.origin.get_instance())
        } else {
            Err(PropertyError::UnknownProperty)
        }
    }

    fn get_properties(&self) -> (descriptions: Vec<PropertyMetadata>) {
        let mut descriptions: Vec<PropertyMetadata> = Vec::new();
        descriptions.push(
            PropertyMetadata::new(
                "size",
                DataTypeType::Vec3,
                DataTypeInstance::Vec3(Property::new(from_ints(1, 1, 1))),
            ),
        );
        descriptions.push(
            PropertyMetadata::new(
                "origin",
                DataTypeType::Vec3,
                DataTypeInstance::Vec3(Property::new(from_ints(0, 0, 0))),
            ),
        );
        proof {
            assert(metadata_views(descriptions@) =~= self.described());
        }
        descriptions
    }
}

impl Operation for BoxV1 {
    open spec fn computed(&self, inputs: Seq<ValueView>) -> Result<Seq<ValueView>, OperationError> {
        match box_mesh(self@.size.value) {
            Ok(mesh) => Ok(seq![mesh_value(mesh)]),
            Err(e) => Err(OperationError::Mesh(e)),
        }
    }

    open spec fn input_sockets(&self) -> Seq<DataTypeType> {
        Seq::empty()
    }

    open spec fn output_sockets(&self) -> Seq<DataTypeType> {
        seq![DataTypeType::Mesh]
    }

    /// A box always has its mesh.
    fn compute(&self, inputs: Vec<&DataTypeInstance>) -> (r: Result<
        Vec<DataTypeInstance>,
        OperationError,
    >)
        ensures
            r is Ok,
            r->Ok_0.len() == 1,
            r->Ok_0[0]@ == mesh_value(box_mesh(self@.size.value)->Ok_0),
    {
        proof {
            lemma_box_mesh_is_ok(self@.size.value);
        }
        let mut surface = OneiroiMesh::default();
        let half = quotient(*self.size.get_value(), from_ints(2, 2, 2));
        let mut corners: Vec<glam::Vec3> = Vec::new();
        corners.push(product(half, from_ints(1, 1, 1)));
        corners.push(product(half, from_ints(1, 1, -1)));
        corners.push(product(half, from_ints(1, -1, 1)));
        corners.push(product(half, from_ints(1, -1, -1)));
        corners.push(product(half, from_ints(-1, 1, 1)));
        corners.push(product(half, from_ints(-1, -1, 1)));
        corners.push(product(half, from_ints(-1, -1, -1)));
        corners.push(product(half, from_ints(-1, 1, -1)));
        proof {
            assert(corners@ =~= box_corners(self@.size.value));
        }
        let p = surface.add_points(&corners);
        let ftl = p[0];
        let ftr = p[1];
        let fbl = p[2];
        let fbr = p[3];
        let btl = p[4];
        let bbl = p[5];
        let bbr = p[6];
        let btr = p[7];
        let mut triangles: Vec<[PointHandle; 3]> = Vec::new();
        triangles.push([ftr, ftl, fbr]);
        triangles.push([ftl, fbl, fbr]);
        triangles.push([ftr, fbr, btr]);
        triangles.push([btr, fbr, bbr]);
        triangles.push([btr, bbr, bbl]);
        triangles.push([bbl, btl, btr]);
        triangles.push([btl, bbl, ftl]);
        triangles.push([fbl, ftl, bbl]);
        triangles.push([btr, ftl, ftr]);
        triangles.push([btr, btl, ftl]);
        triangles.push([fbl, bbl, fbr]);
        triangles.push([bbl, bbr, fbr]);
        proof {
            assert(triangle_numbers(triangles@) =~= box_faces());
        }
        match surface.add_triangles(&triangles) {
            Ok(_) => {
                let mut outputs: Vec<DataTypeInstance> = Vec::new();
                outputs.push(DataTypeInstance::Mesh(Property::new(surface)));
                proof {
                    assert(crate::data_types::value_views(outputs@) =~= seq![
                        mesh_value(surface@),
                    ]);
                    assert(crate::data_types::types_of(
                        crate::data_types::value_views(outputs@),
                    ) =~= self.output_sockets());
                }
                Ok(outputs)
            },
            Err(e) => Err(OperationError::Mesh(e)),
        }
    }

    fn static_metadata(&self) -> (metadata: StaticNodeMetadata)
        ensures
            metadata.color@ == "#15803d"@,
    {
        StaticNodeMetadata { color: "#15803d" }
    }

    fn get_input_sockets(&self) -> Vec<DataTypeType> {
        Vec::new()
    }

    fn get_output_sockets(&self) -> (sockets: Vec<DataTypeType>) {
        let mut sockets: Vec<DataTypeType> = Vec::new();
        sockets.push(DataTypeType::Mesh);
        proof {
            assert(sockets@ =~= self.output_sockets());
        }
        sockets
    }
}

} // verus!
