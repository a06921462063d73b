//! The cylinder: two rings of points, one above the other, and the triangles
//! of the wall between them.

use vstd::prelude::*;
use crate::data_types::{
    same_text, value_views, DataTypeInstance, DataTypeType, Property, PropertyError,
    PropertyMetadata, PropertyMetadataView, PropertyView, Scalar, ValueView,
};
use crate::mesh::{
    ascending, canonical_edges, corners_ok, edge_uses, empty_mesh, lemma_edge_uses_add,
    lemma_triangles_fit, occupancy, point_numbers, slots_of, strip_corners, strip_triangles,
    triangle_error, triangle_numbers, uses_edge, with_points, with_triangles, MeshError, MeshView,
    OneiroiMesh, PointHandle,
};
use crate::mesh::tables::EdgeKey;
use crate::operations::producers::cuboid::{literal_refusal, mesh_value};
use crate::operations::{
    metadata_views, Operation, OperationError, PropertyInterface, StaticNodeMetadata,
};
use crate::vector::{
    cosine, from_lanes, from_long, negated, product, quotient, radians, sine, vec3_from_lanes,
    vec3_negated, vec3_product, vec3_quotient, vec3_radians, vec3_splat_int,
};

verus! {

/// The largest number of segments: with more, the points of the two rings
/// could not all have a handle.
pub const MAX_SEGMENTS: i64 = 2147483647;

/// How many positions the wall of a cylinder with that many segments has: two
/// for each segment, and none where the number of segments is out of range.
pub open spec fn ring_length(segments: i64) -> nat {
    if 1 <= segments <= MAX_SEGMENTS {
        (2 * segments) as nat
    } else {
        0
    }
}

/// A cylinder that stands on the plane `y = 0`. The positions of its points
/// are computed whenever a property is written, and kept in `ring`: the point
/// on the upper ring and the point below it, segment by segment.
pub struct CylinderV1 {
    radius: Property<Scalar>,
    height: Property<Scalar>,
    segments: Property<i64>,
    has_caps: Property<bool>,
    ring: Vec<glam::Vec3>,
}

/// What a cylinder holds.
pub struct CylinderView {
    pub radius: PropertyView<glam::Vec3>,
    pub height: PropertyView<glam::Vec3>,
    pub segments: PropertyView<i64>,
    pub has_caps: PropertyView<bool>,
    pub ring: Seq<glam::Vec3>,
}

impl View for CylinderV1 {
    type V = CylinderView;

    closed spec fn view(&self) -> CylinderView {
        CylinderView {
            radius: self.radius@,
            height: self.height@,
            segments: self.segments@,
            has_caps: self.has_caps@,
            ring: self.ring@,
        }
    }
}

/// The angle of a segment, in radians: its share of the full turn of 360
/// degrees, times its number.
pub open spec fn segment_angle(segments: i64, k: int) -> glam::Vec3 {
    vec3_radians(
        vec3_product(vec3_quotient(vec3_splat_int(360), vec3_splat_int(segments as int)), vec3_splat_int(k)),
    )
}

/// The two points of a segment, where `cosine` and `sine` are the cosine and
/// the sine of the segment's angle: both stand at `radius` times the cosine
/// along x and at minus `radius` times the sine along z; the upper one at
/// `height`, the lower one at 0.
pub open spec fn segment_points(
    radius: glam::Vec3,
    height: glam::Vec3,
    cosine: glam::Vec3,
    sine: glam::Vec3,
) -> (glam::Vec3, glam::Vec3) {
    let x = vec3_product(radius, cosine);
    let z = vec3_product(vec3_negated(radius), sine);
    (vec3_from_lanes(x, height, z), vec3_from_lanes(x, vec3_splat_int(0), z))
}

/// The ring holds at places `2k` and `2k + 1` the two points of a segment,
/// for some cosine and sine.
pub open spec fn segment_at(
    radius: glam::Vec3,
    height: glam::Vec3,
    ring: Seq<glam::Vec3>,
    k: int,
) -> bool {
    exists|cosine: glam::Vec3, sine: glam::Vec3| #[trigger]
        segment_points(radius, height, cosine, sine) == (ring[2 * k], ring[2 * k + 1])
}

/// The ring has two positions for each segment, and they are the two points
/// of that segment.
pub open spec fn ring_sound(
    radius: glam::Vec3,
    height: glam::Vec3,
    segments: i64,
    ring: Seq<glam::Vec3>,
) -> bool {
    &&& ring.len() == ring_length(segments)
    &&& forall|k: int| 0 <= k && 2 * k < ring.len() ==> #[trigger] segment_at(radius, height, ring, k)
}

impl CylinderView {
    /// The ring has two positions for each segment: the point on the upper
    /// ring and the point below it.
    pub open spec fn wf(self) -> bool {
        ring_sound(self.radius.value, self.height.value, self.segments.value, self.ring)
    }
}

/// The triangles of the wall of a cylinder with `segments` segments, by the
/// numbers of their corners: the two that close the wall between the last
/// segment and the first, then a strip over all points in their order.
pub open spec fn cylinder_faces(segments: int) -> Seq<(u32, u32, u32)> {
    let last = (2 * segments) as u32;
    seq![((last - 1) as u32, last, 1u32), (1u32, last, 2u32)] + strip_triangles(
        Seq::new((2 * segments) as nat, |i: int| (i + 1) as u32),
    )
}

/// What a cylinder computes from its segments and the positions of its points.
pub open spec fn cylinder_outputs(segments: i64, ring: Seq<glam::Vec3>) -> Result<
    Seq<ValueView>,
    OperationError,
> {
    if ring.len() == 0 || ring.len() != ring_length(segments) {
        Err(OperationError::InvalidSegments)
    } else {
        match with_triangles(with_points(empty_mesh(), ring), cylinder_faces(segments as int)) {
            Ok(mesh) => Ok(seq![mesh_value(mesh)]),
            Err(e) => Err(OperationError::Mesh(e)),
        }
    }
}

/// The numbers of the points of a wall with `count` points: 1 to `count`.
pub open spec fn wall_points(count: nat) -> Seq<u32> {
    Seq::new(count, |i: int| (i + 1) as u32)
}

/// How many of the first `k` triangles of a strip over the points 1, 2, 3
/// and so on use the edge: the triangle that starts at the edge's first end,
/// if the edge spans one or two points, and the triangle before it, if the
/// edge spans one.
pub open spec fn strip_uses(edge: EdgeKey, k: int) -> nat {
    (if 0 <= edge.0 - 1 < k && (edge.1 - edge.0 == 1 || edge.1 - edge.0 == 2) {
        1nat
    } else {
        0nat
    }) + (if 0 <= edge.0 - 2 < k && edge.1 - edge.0 == 1 {
        1nat
    } else {
        0nat
    })
}

/// The first `k` triangles of a strip use an edge as often as `strip_uses` says.
pub proof fn lemma_strip_uses(count: nat, edge: EdgeKey, k: int)
    requires
        3 <= count <= u32::MAX,
        0 <= k <= count - 2,
    ensures
        edge_uses(strip_triangles(wall_points(count)).take(k), edge) == strip_uses(edge, k),
    decreases k,
{
    let strip = strip_triangles(wall_points(count));
    if k > 0 {
        lemma_strip_uses(count, edge, k - 1);
        assert(strip.take(k).drop_last() == strip.take(k - 1));
        let t = strip[k - 1];
        assert(strip.take(k).last() == t);
        let a = k as u32;
        let b = (k + 1) as u32;
        let c = (k + 2) as u32;
        assert(t == (a, b, c) || t == (b, a, c));
        assert(ascending(t) == (a, b, c));
        assert(canonical_edges(t) == ((a, b), (b, c), (a, c)));
    } else {
        assert(strip.take(0) =~= Seq::<(u32, u32, u32)>::empty());
    }
}

/// The triangles of the wall of a cylinder with at least two segments all
/// fit: a cylinder with two or more segments, and no more than the points
/// can be numbered, always has its mesh. The mesh has the positions of the
/// ring as its points, and the triangles of the wall as its faces.
pub proof fn lemma_cylinder_fits(segments: i64, ring: Seq<glam::Vec3>)
    requires
        2 <= segments <= MAX_SEGMENTS,
        ring.len() == 2 * segments,
    ensures
        cylinder_outputs(segments, ring) is Ok,
        cylinder_outputs(segments, ring)->Ok_0.len() == 1,
        cylinder_outputs(segments, ring)->Ok_0[0] is Mesh,
        cylinder_outputs(segments, ring)->Ok_0[0]->Mesh_0.value.positions == ring,
        cylinder_outputs(segments, ring)->Ok_0[0]->Mesh_0.value.face_points == cylinder_faces(
            segments as int,
        ),
{
    let count = (2 * segments) as nat;
    let last = count as u32;
    let m0 = with_points(empty_mesh(), ring);
    let closing = seq![((last - 1) as u32, last, 1u32), (1u32, last, 2u32)];
    let strip = strip_triangles(wall_points(count));
    let faces = cylinder_faces(segments as int);
    assert(faces == closing + strip);
    assert(strip.len() == count - 2);
    assert(m0.positions.len() == count);
    assert(m0.edge_faces =~= Map::<EdgeKey, (u32, u32)>::empty());
    assert forall|i: int| 0 <= i < faces.len() implies corners_ok(
        #[trigger] faces[i],
        m0.positions.len(),
    ) by {
        if i >= 2 {
            assert(faces[i] == strip[i - 2]);
        }
    }
    assert forall|e: EdgeKey|
        occupancy(slots_of(m0.edge_faces, e)) + #[trigger] edge_uses(faces, e) <= 2 by {
        lemma_edge_uses_add(closing, strip, e);
        lemma_strip_uses(count, e, count - 2);
        assert(strip.take(count - 2) == strip);
        let c1 = closing[0];
        let c2 = closing[1];
        assert(closing.drop_last() =~= seq![c1]);
        assert(closing.drop_last().drop_last() =~= Seq::<(u32, u32, u32)>::empty());
        assert(closing.last() == c2);
        assert(closing.drop_last().last() == c1);
        assert(edge_uses(closing, e) == (if uses_edge(c1, e) {
            1nat
        } else {
            0nat
        }) + (if uses_edge(c2, e) {
            1nat
        } else {
            0nat
        })) by {
            reveal_with_fuel(edge_uses, 3);
        }
        assert(ascending(c1) == (1u32, (last - 1) as u32, last));
        assert(ascending(c2) == (1u32, 2u32, last));
    }
    lemma_triangles_fit(m0, faces);
    crate::mesh::lemma_with_triangles_rows(m0, faces);
    assert(m0.positions =~= ring);
    assert(m0.face_points + faces =~= faces);
}

/// Why a cylinder with that many segments has no mesh, if it has none:
/// fewer than one segment, or more than the points can be numbered for, are
/// not valid; with one segment alone the wall would close on itself, and the
/// mesh turns the first triangle down for its repeated corner.
pub open spec fn cylinder_refusal(segments: i64) -> Option<OperationError> {
    if segments < 1 || segments > MAX_SEGMENTS {
        Some(OperationError::InvalidSegments)
    } else if segments == 1 {
        Some(OperationError::Mesh(MeshError::DuplicatePoint))
    } else {
        None
    }
}

/// A cylinder whose ring has two positions for each segment has its mesh
/// exactly when `cylinder_refusal` says nothing against it.
pub proof fn lemma_cylinder_outcome(segments: i64, ring: Seq<glam::Vec3>)
    requires
        ring.len() == ring_length(segments),
    ensures
        match cylinder_outputs(segments, ring) {
            Ok(_) => cylinder_refusal(segments) is None,
            Err(e) => cylinder_refusal(segments) == Some(e),
        },
{
    if 2 <= segments <= MAX_SEGMENTS {
        lemma_cylinder_fits(segments, ring);
    } else if segments == 1 {
        let m0 = with_points(empty_mesh(), ring);
        let faces = cylinder_faces(1);
        assert(m0.positions.len() == 2);
        assert(faces[0] == (1u32, 2u32, 1u32));
        assert(faces.take(1).drop_last() =~= Seq::<(u32, u32, u32)>::empty());
        assert(faces.take(1).last() == faces[0]);
        assert(triangle_error(m0, faces[0]) == Some(MeshError::DuplicatePoint));
        assert(with_triangles(m0, faces.take(1)) == Err::<MeshView, MeshError>(
            MeshError::DuplicatePoint,
        )) by {
            reveal_with_fuel(with_triangles, 2);
        }
        crate::mesh::lemma_with_triangles_fails_on(m0, faces, 1, MeshError::DuplicatePoint);
    }
}

/// The positions of the points of a cylinder: for each segment the point on
/// the upper ring and the point below it. The angle of a segment is its share
/// of the full turn, in degrees, converted to radians; the point stands at
/// `radius` times the cosine of the angle along x and at minus `radius` times
/// its sine along z.
fn ring_positions(radius: &Scalar, height: &Scalar, segments: i64) -> (ring: Vec<glam::Vec3>)
    ensures
        ring_sound(radius.spec_lanes(), height.spec_lanes(), segments, ring@),
{
    let mut ring: Vec<glam::Vec3> = Vec::new();
    if segments < 1 || segments > MAX_SEGMENTS {
        return ring;
    }
    let mut segment: i64 = 0;
    while segment < segments
        invariant
            0 <= segment <= segments <= MAX_SEGMENTS,
            ring.len() == 2 * segment,
            forall|k: int|
                0 <= k < segment ==> #[trigger] segment_at(
                    radius.spec_lanes(),
                    height.spec_lanes(),
                    ring@,
                    k,
                ),
        decreases segments - segment,
    {
        let angle = angle_of_segment(segments, segment);
        let pair = points_of_segment(radius, height, cosine(angle), sine(angle));
        let ghost before = ring@;
        ring.push(pair.0);
        ring.push(pair.1);
        proof {
            assert forall|k: int| 0 <= k < segment + 1 implies #[trigger] segment_at(
                radius.spec_lanes(),
                height.spec_lanes(),
                ring@,
                k,
            ) by {
                if k < segment {
                    assert(segment_at(radius.spec_lanes(), height.spec_lanes(), before, k));
                    let (c, s) = choose|c: glam::Vec3, s: glam::Vec3| #[trigger]
                        segment_points(radius.spec_lanes(), height.spec_lanes(), c, s) == (
                            before[2 * k],
                            before[2 * k + 1],
                        );
                    assert(ring@[2 * k] == before[2 * k]);
                    assert(ring@[2 * k + 1] == before[2 * k + 1]);
                    assert(segment_points(radius.spec_lanes(), height.spec_lanes(), c, s) == (
                        ring@[2 * k],
                        ring@[2 * k + 1],
                    ));
                }
            }
        }
        segment += 1;
    }
    ring
}

/// The angle of a segment, in radians: its share of the full turn of 360
/// degrees, times its number.
pub fn angle_of_segment(segments: i64, k: i64) -> (angle: glam::Vec3)
    ensures
        angle == segment_angle(segments, k as int),
{
    let step = quotient(from_long(360), from_long(segments));
    radians(product(step, from_long(k)))
}

/// The two points of a segment whose angle has the given cosine and sine:
/// the point on the upper ring and the point below it.
pub fn points_of_segment(
    radius: &Scalar,
    height: &Scalar,
    cosine: glam::Vec3,
    sine: glam::Vec3,
) -> (pair: (glam::Vec3, glam::Vec3))
    ensures
        pair == segment_points(radius.spec_lanes(), height.spec_lanes(), cosine, sine),
{
    let x = product(radius.lanes(), cosine);
    let z = product(negated(radius.lanes()), sine);
    let floor = from_long(0);
    (from_lanes(x, height.lanes(), z), from_lanes(x, floor, z))
}

/// A copy of the positions.
fn copy_positions(positions: &Vec<glam::Vec3>) -> (copy: Vec<glam::Vec3>)
    ensures
        copy@ == positions@,
{
    let mut copy: Vec<glam::Vec3> = Vec::new();
    let mut i: usize = 0;
    while i < positions.len()
        invariant
            i <= positions.len(),
            copy@ == positions@.take(i as int),
        decreases positions.len() - i,
    {
        copy.push(positions[i]);
        proof {
            assert(positions@.take(i + 1) == positions@.take(i as int).push(positions[i as int]));
        }
        i += 1;
    }
    proof {
        assert(positions@.take(i as int) == positions@);
    }
    copy
}

impl Default for CylinderV1 {
    /// The cylinder of radius one half and height two, with six segments and
    /// without caps.
    fn default() -> (r: Self)
        ensures
            CylinderV1::is_default_view(r@),
    {
        let radius = Scalar::new(quotient(from_long(1), from_long(2)));
        let height = Scalar::from_int(2);
        let ring = ring_positions(&radius, &height, 6);
        CylinderV1 {
            radius: Property::new(radius),
            height: Property::new(height),
            segments: Property::new(6),
            has_caps: Property::new(false),
            ring,
        }
    }
}

/// One half: the radius of a new cylinder.
pub open spec fn default_radius() -> glam::Vec3 {
    crate::vector::vec3_quotient(vec3_splat_int(1), vec3_splat_int(2))
}

impl Clone for CylinderV1 {
    /// A copy of the cylinder.
    fn clone(&self) -> (copy: Self)
        ensures
            copy@ == self@,
    {
        proof {
            use_type_invariant(self);
        }
        CylinderV1 {
            radius: self.radius.duplicate(),
            height: self.height.duplicate(),
            segments: self.segments.duplicate(),
            has_caps: self.has_caps.duplicate(),
            ring: copy_positions(&self.ring),
        }
    }
}

impl CylinderV1 {
    /// The cylinder with the given properties. The positions of its points
    /// are computed from them.
    pub fn from_properties(
        radius: Property<Scalar>,
        height: Property<Scalar>,
        segments: Property<i64>,
        has_caps: Property<bool>,
    ) -> (node: Self)
        ensures
            node@.radius == radius@,
            node@.height == height@,
            node@.segments == segments@,
            node@.has_caps == has_caps@,
            node@.wf(),
    {
        let ring = ring_positions(radius.get_value(), height.get_value(), *segments.get_value());
        CylinderV1 { radius, height, segments, has_caps, ring }
    }

    /// The radius of the two rings.
    pub fn radius(&self) -> (property: &Property<Scalar>)
        ensures
            property@ == self@.radius,
    {
        &self.radius
    }

    /// How far the upper ring stands above the lower.
    pub fn height(&self) -> (property: &Property<Scalar>)
        ensures
            property@ == self@.height,
    {
        &self.height
    }

    /// How many points each ring has.
    pub fn segments(&self) -> (property: &Property<i64>)
        ensures
            property@ == self@.segments,
    {
        &self.segments
    }

    /// Whether the cylinder is meant to be closed above and below.
    pub fn has_caps(&self) -> (property: &Property<bool>)
        ensures
            property@ == self@.has_caps,
    {
        &self.has_caps
    }

    /// What a new cylinder holds: radius one half, height two, six segments,
    /// no caps, and the positions of its twelve points.
    pub open spec fn is_default_view(view: CylinderView) -> bool {
        &&& view.radius == (PropertyView { script: None, value: default_radius() })
        &&& view.height == (PropertyView { script: None, value: vec3_splat_int(2) })
        &&& view.segments == (PropertyView { script: None, value: 6i64 })
        &&& view.has_caps == (PropertyView { script: None, value: false })
        &&& view.wf()
    }

    #[verifier::type_invariant]
    spec fn ring_in_step(self) -> bool {
        ring_sound(self.radius@.value, self.height@.value, self.segments@.value, self.ring@)
    }
}

impl PropertyInterface for CylinderV1 {
    open spec fn property(&self, name: Seq<char>) -> Option<ValueView> {
        if name == "radius"@ {
            Some(ValueView::Float(self@.radius))
        } else if name == "height"@ {
            Some(ValueView::Float(self@.height))
        } else if name == "segments"@ {
            Some(ValueView::Int(self@.segments))
        } else if name == "has_caps"@ {
            Some(ValueView::Bool(self@.has_caps))
        } else {
            None
        }
    }

    open spec fn refusal(&self, name: Seq<char>, value: ValueView) -> Option<PropertyError> {
        if name == "radius"@ || name == "height"@ {
            literal_refusal(DataTypeType::Float, value)
        } else if name == "segments"@ {
            literal_refusal(DataTypeType::Int, value)
        } else if name == "has_caps"@ {
            literal_refusal(DataTypeType::Bool, value)
        } else {
            Some(PropertyError::UnknownProperty)
        }
    }

    /// The property has the new value and keeps its script; the others are
    /// as before; the ring has two positions for each segment. A write to
    /// `has_caps` leaves the ring as it was.
    open spec fn property_set(&self, name: Seq<char>, value: ValueView, after: &Self) -> bool {
        &&& after@.wf()
        &&& after@.radius == (if name == "radius"@ {
            PropertyView { script: self@.radius.script, value: value->Float_0.value }
        } else {
            self@.radius
        })
        &&& after@.height == (if name != "radius"@ && name == "height"@ {
            PropertyView { script: self@.height.script, value: value->Float_0.value }
        } else {
            self@.height
        })
        &&& after@.segments == (if name != "radius"@ && name != "height"@ && name == "segments"@ {
            PropertyView { script: self@.segments.script, value: value->Int_0.value }
        } else {
            self@.segments
        })
        &&& after@.has_caps == (if name != "radius"@ && name != "height"@ && name != "segments"@ {
            PropertyView { script: self@.has_caps.script, value: value->Bool_0.value }
        } else {
            self@.has_caps
        })
        &&& (name != "radius"@ && name != "height"@ && name != "segments"@) ==> after@.ring
            == self@.ring
    }

    open spec fn described(&self) -> Seq<PropertyMetadataView> {
        seq![
            PropertyMetadataView {
                name: Some("radius"@),
                property_type: DataTypeType::Float,
                default: Some(
                    ValueView::Float(PropertyView { script: None, value: default_radius() }),
                ),
            },
            PropertyMetadataView {
                name: Some("height"@),
                property_type: DataTypeType::Float,
                default: Some(
                    ValueView::Float(PropertyView { script: None, value: vec3_splat_int(2) }),
                ),
            },
            PropertyMetadataView {
                name: Some("segments"@),
                property_type: DataTypeType::Int,
                default: Some(ValueView::Int(PropertyView { script: None, value: 6i64 })),
            },
            PropertyMetadataView {
                name: Some("has_caps"@),
                property_type: DataTypeType::Bool,
                default: Some(ValueView::Bool(PropertyView { script: None, value: false })),
            },
        ]
    }

    fn try_set_property(&mut self, property: &str, value: DataTypeInstance) -> (r: Result<
        (),
        PropertyError,
    >) {
        proof {
            use_type_invariant(&*self);
        }
        let mut radius = self.radius.duplicate();
        let mut height = self.height.duplicate();
        let mut segments = self.segments.duplicate();
        let mut has_caps = self.has_caps.duplicate();
        let mut keep_ring = false;
        if same_text(property, "radius") {
            match value.inner_f32() {
                Err(e) => {
                    return Err(e);
                },
                Ok(new_value) => match radius.update(new_value) {
                    Err(e) => {
                        return Err(e);
                    },
                    Ok(_) => {},
                },
            }
        } else if same_text(property, "height") {
            match value.inner_f32() {
                Err(e) => {
                    return Err(e);
                },
                Ok(new_value) => match height.update(new_value) {
                    Err(e) => {
                        return Err(e);
                    },
                    Ok(_) => {},
                },
            }
        } else if same_text(property, "segments") {
            match value.inner_int() {
                Err(e) => {
                    return Err(e);
                },
                Ok(new_value) => match segments.update(new_value) {
                    Err(e) => {
                        return Err(e);
                    },
                    Ok(_) => {},
                },
            }
        } else if same_text(property, "has_caps") {
            match value.inner_bool() {
                Err(e) => {
                    return Err(e);
                },
                Ok(new_value) => match has_caps.update(new_value) {
                    Err(e) => {
                        return Err(e);
                    },
                    Ok(_) => {},
                },
            }
            keep_ring = true;
        } else {
            return Err(PropertyError::UnknownProperty);
        }
        let ring = if keep_ring {
            copy_positions(&self.ring)
        } else {
            ring_positions(radius.get_value(), height.get_value(), *segments.get_value())
        };
        *self = CylinderV1 { radius, height, segments, has_caps, ring };
        Ok(())
    }

    fn try_get_property(&self, property: &str) -> (r: Result<DataTypeInstance, PropertyError>) {
        if same_text(property, "radius") {
            Ok(self.radius.get_instance())
        } else if same_text(property, "height") {
            Ok(self.height.get_instance())
        } else if same_text(property, "segments") {
            Ok(self.segments.get_instance())
        } else if same_text(property, "has_caps") {
            Ok(self.has_caps.get_instance())
        } else {
            Err(PropertyError::UnknownProperty)
        }
    }

    fn get_properties(&self) -> (descriptions: Vec<PropertyMetadata>) {
        let mut descriptions: Vec<PropertyMetadata> = Vec::new();
        descriptions.push(
            PropertyMetadata::new(
                "radius",
                DataTypeType::Float,
                DataTypeInstance::Float(
                    Property::new(Scalar::new(quotient(from_long(1), from_long(2)))),
                ),
            ),
        );
        descriptions.push(
            PropertyMetadata::new(
                "height",
                DataTypeType::Float,
                DataTypeInstance::Float(Property::new(Scalar::from_int(2))),
            ),
        );
        descriptions.push(
            PropertyMetadata::new(
                "segments",
                DataTypeType::Int,
                DataTypeInstance::Int(Property::new(6)),
            ),
        );
        descriptions.push(
            PropertyMetadata::new(
                "has_caps",
                DataTypeType::Bool,
                DataTypeInstance::Bool(Property::new(false)),
            ),
        );
        proof {
            assert(metadata_views(descriptions@) =~= self.described());
        }
        descriptions
    }
}

impl Operation for CylinderV1 {
    open spec fn computed(&self, inputs: Seq<ValueView>) -> Result<Seq<ValueView>, OperationError> {
        cylinder_outputs(self@.segments.value, self@.ring)
    }

    open spec fn input_sockets(&self) -> Seq<DataTypeType> {
        Seq::empty()
    }

    open spec fn output_sockets(&self) -> Seq<DataTypeType> {
        seq![DataTypeType::Mesh]
    }

    /// A cylinder has its mesh exactly when it has at least two segments,
    /// and no more than the points can be numbered for.
    fn compute(&self, inputs: Vec<&DataTypeInstance>) -> (r: Result<
        Vec<DataTypeInstance>,
        OperationError,
    >)
        ensures
            match r {
                Ok(_) => cylinder_refusal(self@.segments.value) is None,
                Err(e) => cylinder_refusal(self@.segments.value) == Some(e),
            },
    {
        proof {
            use_type_invariant(self);
            lemma_cylinder_outcome(self@.segments.value, self@.ring);
        }
        let segments: i64 = *self.segments.get_value();
        if self.ring.len() == 0 {
            return Err(OperationError::InvalidSegments);
        }
        let mut surface = OneiroiMesh::default();
        let points = surface.add_points(&self.ring);
        let count: usize = points.len();
        let mut triangles: Vec<[PointHandle; 3]> = Vec::new();
        triangles.push([points[count - 2], points[count - 1], points[0]]);
        triangles.push([points[0], points[count - 1], points[1]]);
        let mut strip = strip_corners(&points);
        let ghost closing = triangles@;
        let ghost wall = strip@;
        triangles.append(&mut strip);
        proof {
            let numbers = Seq::new((2 * segments) as nat, |i: int| (i + 1) as u32);
            assert(point_numbers(points@) =~= numbers);
            assert(triangles@ == closing + wall);
            assert(triangle_numbers(triangles@) =~= cylinder_faces(segments as int));
        }
        match surface.add_triangles(&triangles) {
            Ok(_) => {
                let mut outputs: Vec<DataTypeInstance> = Vec::new();
                outputs.push(DataTypeInstance::Mesh(Property::new(surface)));
                proof {
                    assert(value_views(outputs@) =~= seq![mesh_value(surface@)]);
                    assert(crate::data_types::types_of(value_views(outputs@))
                        =~= self.output_sockets());
                }
                Ok(outputs)
            },
            Err(e) => Err(OperationError::Mesh(e)),
        }
    }

    fn static_metadata(&self) -> (metadata: StaticNodeMetadata)
        ensures
            metadata.color@ == "#15803d"@,
    {
        StaticNodeMetadata { color: "#15803d" }
    }

    fn get_input_sockets(&self) -> Vec<DataTypeType> {
        Vec::new()
    }

    fn get_output_sockets(&self) -> (sockets: Vec<DataTypeType>) {
        let mut sockets: Vec<DataTypeType> = Vec::new();
        sockets.push(DataTypeType::Mesh);
        proof {
            assert(sockets@ =~= self.output_sockets());
        }
        sockets
    }
}

} // verus!
