//! An indexed triangle mesh: points, undirected edges and faces, each known by
//! a handle, with the faces around each point and each edge kept up to date.

use vstd::prelude::*;
use crate::mesh::tables::{
    edge_entries, edge_table_clone, edge_table_get, edge_table_insert, edge_table_new,
    face_edge_rows, face_edge_table_clone, face_edge_table_get, face_edge_table_new,
    face_edge_table_push, face_rows, face_table_clone, face_table_get, face_table_len,
    face_table_new, face_table_push, face_table_set, incidence_rows, incidence_table_add,
    incidence_table_clone, incidence_table_new, incidence_table_push_empty,
    incidence_table_row, vector_rows, vector_table_clone, vector_table_get, vector_table_len,
    vector_table_new, vector_table_push, vector_table_set, EdgeKey, EdgeTable, FaceEdgeTable,
    FaceTable, IncidenceTable, VectorTable,
};
use crate::vector::{normal_of, sum, triangle_normal, vec3_sum};

pub mod tables;

verus! {

/// Names a point of a mesh. Handles count from 1; 0 names nothing.
#[derive(Clone, Copy, Hash, PartialEq, Eq, Debug, Structural, PartialOrd, Ord)]
pub struct PointHandle(u32);

impl View for PointHandle {
    type V = int;

    closed spec fn view(&self) -> int {
        self.0 as int
    }
}

impl PointHandle {
    #[verifier::type_invariant]
    spec fn names_something(self) -> bool {
        self.0 != 0
    }

    /// The handle with the given number.
    pub fn new(raw_idx: usize) -> (handle: Self)
        requires
            0 < raw_idx <= u32::MAX,
        ensures
            handle@ == raw_idx,
    {
        PointHandle(raw_idx as u32)
    }

    /// The place of the point in the mesh's arrays: one less than the handle's number.
    pub fn idx(&self) -> (i: usize)
        ensures
            i == self@ - 1,
    {
        proof {
            use_type_invariant(self);
        }
        (self.0 - 1) as usize
    }

    /// The handle's number.
    pub fn raw(&self) -> (r: u32)
        ensures
            r == self@,
            r != 0,
    {
        proof {
            use_type_invariant(self);
        }
        self.0
    }
}

/// Names a face of a mesh. Handles count from 1; 0 names nothing.
#[derive(Clone, Copy, Hash, PartialEq, Eq, Debug, Structural, PartialOrd, Ord)]
pub struct FaceHandle(u32);

impl View for FaceHandle {
    type V = int;

    closed spec fn view(&self) -> int {
        self.0 as int
    }
}

impl FaceHandle {
    #[verifier::type_invariant]
    spec fn names_something(self) -> bool {
        self.0 != 0
    }

    /// The handle with the given number.
    pub fn new(raw_idx: usize) -> (handle: Self)
        requires
            0 < raw_idx <= u32::MAX,
        ensures
            handle@ == raw_idx,
    {
        FaceHandle(raw_idx as u32)
    }

    /// The place of the face in the mesh's arrays: one less than the handle's number.
    pub fn idx(&self) -> (i: usize)
        ensures
            i == self@ - 1,
    {
        proof {
            use_type_invariant(self);
        }
        (self.0 - 1) as usize
    }

    /// The handle's number.
    pub fn raw(&self) -> (r: u32)
        ensures
            r == self@,
            r != 0,
    {
        proof {
            use_type_invariant(self);
        }
        self.0
    }
}

/// Names an undirected edge by its two end points. The end with the smaller
/// number comes first, so that the edge between two points has one handle,
/// whichever way round the points are given.
#[derive(Clone, Copy, Hash, PartialEq, Eq, Debug, Structural)]
pub struct EdgeHandle(PointHandle, PointHandle);

/// The two numbers with the smaller one first.
pub open spec fn in_order(a: int, b: int) -> (int, int) {
    if a <= b {
        (a, b)
    } else {
        (b, a)
    }
}

impl View for EdgeHandle {
    type V = (int, int);

    closed spec fn view(&self) -> (int, int) {
        (self.0@, self.1@)
    }
}

impl EdgeHandle {
    #[verifier::type_invariant]
    spec fn ends_in_order(self) -> bool {
        self.0@ <= self.1@
    }

    /// The edge between the two points. It is the same edge whichever of the
    /// two points is given first.
    pub fn new(points: (PointHandle, PointHandle)) -> (edge: Self)
        ensures
            edge@ == in_order(points.0@, points.1@),
            forall|other: EdgeHandle| #![trigger other@] other@ == edge@ ==> other == edge,
    {
        if points.0.raw() <= points.1.raw() {
            EdgeHandle(points.0, points.1)
        } else {
            EdgeHandle(points.1, points.0)
        }
    }

    /// The two end points, the one with the smaller number first.
    pub fn ends(&self) -> (points: (PointHandle, PointHandle))
        ensures
            self@ == (points.0@, points.1@),
            points.0@ <= points.1@,
    {
        proof {
            use_type_invariant(self);
        }
        (self.0, self.1)
    }
}

/// The edge between two points is one edge, whichever way round the points
/// are given: what `EdgeHandle::new` makes of `(a, b)` is what it makes of
/// `(b, a)`.
pub proof fn law_edge_has_no_direction(
    a: PointHandle,
    b: PointHandle,
    forth: EdgeHandle,
    back: EdgeHandle,
)
    requires
        forth@ == in_order(a@, b@),
        back@ == in_order(b@, a@),
    ensures
        forth == back,
{
}

/// Why the mesh turned a request down.
#[derive(Clone, Copy, PartialEq, Eq, Debug, Structural)]
pub enum MeshError {
    /// A point handle names no point of this mesh.
    MissingPoint,
    /// A face handle names no face of this mesh.
    MissingFace,
    /// An edge handle names no edge of this mesh.
    MissingEdge,
    /// Two corners of a triangle are the same point.
    DuplicatePoint,
    /// An edge of the triangle already lies between two faces.
    EdgeFull,
    /// The mesh holds as many faces as can be numbered.
    Full,
}

/// What a mesh holds.
pub struct MeshView {
    /// Where each point stands; point `h` is at index `h - 1`.
    pub positions: Seq<glam::Vec3>,
    /// The normal of each face; face `h` is at index `h - 1`.
    pub normals: Seq<glam::Vec3>,
    /// The three points of each face, in authored order.
    pub face_points: Seq<(u32, u32, u32)>,
    /// The three edges of each face.
    pub face_edges: Seq<(EdgeKey, EdgeKey, EdgeKey)>,
    /// For each point the faces that were built on it.
    pub point_faces: Seq<Seq<u32>>,
    /// For each edge its two face slots; 0 marks a free slot.
    pub edge_faces: Map<EdgeKey, (u32, u32)>,
}

/// The three numbers in ascending order.
pub open spec fn ascending(t: (u32, u32, u32)) -> (u32, u32, u32) {
    let (x, y, z) = t;
    if x <= y {
        if y <= z {
            (x, y, z)
        } else if x <= z {
            (x, z, y)
        } else {
            (z, x, y)
        }
    } else {
        if x <= z {
            (y, x, z)
        } else if y <= z {
            (y, z, x)
        } else {
            (z, y, x)
        }
    }
}

/// The edges of a triangle, each with its smaller end first: with the corners
/// in ascending order `a < b < c`, the edges `(a, b)`, `(b, c)` and `(a, c)`.
pub open spec fn canonical_edges(t: (u32, u32, u32)) -> (EdgeKey, EdgeKey, EdgeKey) {
    let (a, b, c) = ascending(t);
    ((a, b), (b, c), (a, c))
}

/// The three corners are points of a mesh with `point_count` points, and no
/// two of them are the same.
pub open spec fn corners_ok(t: (u32, u32, u32), point_count: nat) -> bool {
    &&& 1 <= t.0 <= point_count
    &&& 1 <= t.1 <= point_count
    &&& 1 <= t.2 <= point_count
    &&& t.0 != t.1
    &&& t.1 != t.2
    &&& t.0 != t.2
}

/// The slots of an edge; an edge the table does not know has two free slots.
pub open spec fn slots_of(edge_faces: Map<EdgeKey, (u32, u32)>, edge: EdgeKey) -> (u32, u32) {
    if edge_faces.contains_key(edge) {
        edge_faces[edge]
    } else {
        (0, 0)
    }
}

/// Both slots are taken.
pub open spec fn slots_full(slots: (u32, u32)) -> bool {
    slots.0 != 0 && slots.1 != 0
}

/// The face is in one of the two slots.
pub open spec fn slots_list(slots: (u32, u32), face: u32) -> bool {
    slots.0 == face || slots.1 == face
}

/// Each slot is free or holds one of the first `face_count` faces, and two
/// slots that are taken hold different faces.
pub open spec fn slots_sound(slots: (u32, u32), face_count: nat) -> bool {
    &&& slots.0 <= face_count
    &&& slots.1 <= face_count
    &&& slots.0 != 0 && slots.1 != 0 ==> slots.0 != slots.1
}

/// Each of the three edges has two ends that name something, the smaller first.
pub open spec fn edges_sound(row: (EdgeKey, EdgeKey, EdgeKey)) -> bool {
    &&& 1 <= row.0.0 <= row.0.1
    &&& 1 <= row.1.0 <= row.1.1
    &&& 1 <= row.2.0 <= row.2.1
}

/// The slots after the face took the first free one.
pub open spec fn slots_with(slots: (u32, u32), face: u32) -> (u32, u32) {
    if slots.0 == 0 {
        (face, slots.1)
    } else {
        (slots.0, face)
    }
}

/// Why a triangle on these corners cannot be added, if it cannot. A corner that
/// is no point of the mesh is reported first, then a repeated corner, then an
/// edge that already has two faces, then a mesh that holds as many faces as
/// can be numbered.
pub open spec fn triangle_error(m: MeshView, t: (u32, u32, u32)) -> Option<MeshError> {
    let n = m.positions.len();
    let (e1, e2, e3) = canonical_edges(t);
    if !(1 <= t.0 <= n && 1 <= t.1 <= n && 1 <= t.2 <= n) {
        Some(MeshError::MissingPoint)
    } else if t.0 == t.1 || t.1 == t.2 || t.0 == t.2 {
        Some(MeshError::DuplicatePoint)
    } else if slots_full(slots_of(m.edge_faces, e1)) || slots_full(slots_of(m.edge_faces, e2))
        || slots_full(slots_of(m.edge_faces, e3)) {
        Some(MeshError::EdgeFull)
    } else if m.face_points.len() >= u32::MAX {
        Some(MeshError::Full)
    } else {
        None
    }
}

/// The mesh after a triangle on these corners became its last face: the face
/// is entered at each corner and at each of its three edges, and its normal is
/// computed from the corners in the order given.
pub open spec fn with_triangle(m: MeshView, t: (u32, u32, u32)) -> MeshView {
    let face = (m.face_points.len() + 1) as u32;
    let (e1, e2, e3) = canonical_edges(t);
    let (i0, i1, i2) = (t.0 - 1, t.1 - 1, t.2 - 1);
    MeshView {
        positions: m.positions,
        normals: m.normals.push(
            triangle_normal(m.positions[i0], m.positions[i1], m.positions[i2]),
        ),
        face_points: m.face_points.push(t),
        face_edges: m.face_edges.push((e1, e2, e3)),
        point_faces: m.point_faces.update(i0, m.point_faces[i0].push(face)).update(
            i1,
            m.point_faces[i1].push(face),
        ).update(i2, m.point_faces[i2].push(face)),
        edge_faces: m.edge_faces.insert(e1, slots_with(slots_of(m.edge_faces, e1), face)).insert(
            e2,
            slots_with(slots_of(m.edge_faces, e2), face),
        ).insert(e3, slots_with(slots_of(m.edge_faces, e3), face)),
    }
}

/// The mesh without points.
pub open spec fn empty_mesh() -> MeshView {
    MeshView {
        positions: Seq::empty(),
        normals: Seq::empty(),
        face_points: Seq::empty(),
        face_edges: Seq::empty(),
        point_faces: Seq::empty(),
        edge_faces: Map::empty(),
    }
}

/// The mesh after a point at `position` became its last point.
pub open spec fn with_point(m: MeshView, position: glam::Vec3) -> MeshView {
    MeshView {
        positions: m.positions.push(position),
        point_faces: m.point_faces.push(Seq::empty()),
        ..m
    }
}

/// A triangle mesh. Points and faces live in arrays that grow in step; edges
/// are found by their end points.
pub struct OneiroiMesh {
    faces_of_point: IncidenceTable,
    edges: EdgeTable,
    points_of_face: FaceTable,
    edges_of_face: FaceEdgeTable,
    data_points_position: VectorTable,
    data_faces_normal: VectorTable,
}

impl View for OneiroiMesh {
    type V = MeshView;

    closed spec fn view(&self) -> MeshView {
        MeshView {
            positions: vector_rows(self.data_points_position),
            normals: vector_rows(self.data_faces_normal),
            face_points: face_rows(self.points_of_face),
            face_edges: face_edge_rows(self.edges_of_face),
            point_faces: incidence_rows(self.faces_of_point),
            edge_faces: edge_entries(self.edges),
        }
    }
}

impl MeshView {
    /// The arrays are in step, handles fit their type, every face stands on
    /// three different points of the mesh, every slot of an edge is free or
    /// holds a face of the mesh, and where both hold one, the two differ.
    pub open spec fn wf(self) -> bool {
        &&& self.point_faces.len() == self.positions.len()
        &&& self.face_edges.len() == self.face_points.len()
        &&& self.normals.len() == self.face_points.len()
        &&& self.positions.len() <= u32::MAX
        &&& self.face_points.len() <= u32::MAX
        &&& forall|f: int|
            0 <= f < self.face_points.len() ==> corners_ok(
                #[trigger] self.face_points[f],
                self.positions.len(),
            )
        &&& forall|p: int, k: int|
            0 <= p < self.point_faces.len() && 0 <= k < self.point_faces[p].len() ==> 1 <= (
            #[trigger] self.point_faces[p][k]) <= self.face_points.len()
        &&& forall|e: EdgeKey| #[trigger]
            self.edge_faces.contains_key(e) ==> slots_sound(
                self.edge_faces[e],
                self.face_points.len(),
            )
        &&& forall|f: int|
            0 <= f < self.face_edges.len() ==> edges_sound(#[trigger] self.face_edges[f])
    }

    /// Face number `f + 1` is entered wherever it belongs: its edges are the
    /// canonical edges of its corners, each of them lists the face, and so does
    /// each of its corners.
    pub open spec fn face_entered(self, f: int) -> bool {
        let t = self.face_points[f];
        let face = (f + 1) as u32;
        let (e1, e2, e3) = canonical_edges(t);
        &&& self.face_edges[f] == (e1, e2, e3)
        &&& self.edge_faces.contains_key(e1) && slots_list(self.edge_faces[e1], face)
        &&& self.edge_faces.contains_key(e2) && slots_list(self.edge_faces[e2], face)
        &&& self.edge_faces.contains_key(e3) && slots_list(self.edge_faces[e3], face)
        &&& self.point_faces[t.0 - 1].contains(face)
        &&& self.point_faces[t.1 - 1].contains(face)
        &&& self.point_faces[t.2 - 1].contains(face)
    }

    /// Every face is entered at its corners and edges. A mesh keeps this as
    /// long as no face is rebound to other points.
    pub open spec fn connected(self) -> bool {
        forall|f: int| 0 <= f < self.face_points.len() ==> #[trigger] self.face_entered(f)
    }

    /// The edge is one of the three canonical edges of face number `f + 1`.
    pub open spec fn face_has_edge(self, f: int, edge: EdgeKey) -> bool {
        let (e1, e2, e3) = canonical_edges(self.face_points[f]);
        edge == e1 || edge == e2 || edge == e3
    }
}


/// The mesh after the triangles were added one after the other, or the reason
/// why the first one that could not be added was turned down.
pub open spec fn with_triangles(m: MeshView, tris: Seq<(u32, u32, u32)>) -> Result<
    MeshView,
    MeshError,
>
    decreases tris.len(),
{
    if tris.len() == 0 {
        Ok(m)
    } else {
        match with_triangles(m, tris.drop_last()) {
            Err(e) => Err(e),
            Ok(before) => match triangle_error(before, tris.last()) {
                Some(e) => Err(e),
                None => Ok(with_triangle(before, tris.last())),
            },
        }
    }
}

/// The mesh after a point was added at each of the positions, in their order.
pub open spec fn with_points(m: MeshView, positions: Seq<glam::Vec3>) -> MeshView {
    MeshView {
        positions: m.positions + positions,
        point_faces: m.point_faces + Seq::new(positions.len(), |i: int| Seq::<u32>::empty()),
        ..m
    }
}

/// The corners of the triangles of a strip over `points`: one triangle for
/// every three neighbours, every second one with its first two corners swapped
/// so that all face the same way.
pub open spec fn strip_triangles(points: Seq<u32>) -> Seq<(u32, u32, u32)> {
    Seq::new(
        if points.len() >= 2 {
            (points.len() - 2) as nat
        } else {
            0
        },
        |i: int|
            if i % 2 == 0 {
                (points[i], points[i + 1], points[i + 2])
            } else {
                (points[i + 1], points[i], points[i + 2])
            },
    )
}

/// The numbers of the corners.
pub open spec fn corner_numbers(points: [PointHandle; 3]) -> (u32, u32, u32) {
    (points[0]@ as u32, points[1]@ as u32, points[2]@ as u32)
}

/// The three numbers in ascending order.
fn sort_three(x: u32, y: u32, z: u32) -> (r: (u32, u32, u32))
    ensures
        r == ascending((x, y, z)),
{
    if x <= y {
        if y <= z {
            (x, y, z)
        } else if x <= z {
            (x, z, y)
        } else {
            (z, x, y)
        }
    } else {
        if x <= z {
            (y, x, z)
        } else if y <= z {
            (y, z, x)
        } else {
            (z, y, x)
        }
    }
}

impl Default for OneiroiMesh {
    /// The mesh without points.
    fn default() -> (mesh: Self)
        ensures
            mesh@ == empty_mesh(),
            mesh@.wf(),
            mesh@.connected(),
    {
        let mesh = OneiroiMesh {
            faces_of_point: incidence_table_new(),
            edges: edge_table_new(),
            points_of_face: face_table_new(),
            edges_of_face: face_edge_table_new(),
            data_points_position: vector_table_new(),
            data_faces_normal: vector_table_new(),
        };
        proof {
            assert(mesh@.positions =~= empty_mesh().positions);
            assert(mesh@.normals =~= empty_mesh().normals);
            assert(mesh@.face_points =~= empty_mesh().face_points);
            assert(mesh@.face_edges =~= empty_mesh().face_edges);
            assert(mesh@.point_faces =~= empty_mesh().point_faces);
        }
        mesh
    }
}

impl Clone for OneiroiMesh {
    /// A mesh that holds the same; it shares its storage with this one.
    fn clone(&self) -> (copy: Self)
        ensures
            copy@ == self@,
    {
        OneiroiMesh {
            faces_of_point: incidence_table_clone(&self.faces_of_point),
            edges: edge_table_clone(&self.edges),
            points_of_face: face_table_clone(&self.points_of_face),
            edges_of_face: face_edge_table_clone(&self.edges_of_face),
            data_points_position: vector_table_clone(&self.data_points_position),
            data_faces_normal: vector_table_clone(&self.data_faces_normal),
        }
    }
}

impl OneiroiMesh {
    /// Adds a triangle on three points of the mesh, given in the order that
    /// fixes which way the face looks. The triangle is turned down, and the
    /// mesh left as it was, when a corner is no point of the mesh, when two
    /// corners are the same, when one of its edges already has two faces, or
    /// when the mesh holds as many faces as can be numbered.
    pub fn add_tri_with_points(&mut self, points: [PointHandle; 3]) -> (r: Result<
        FaceHandle,
        MeshError,
    >)
        requires
            old(self)@.wf(),
        ensures
            final(self)@.wf(),
            old(self)@.connected() ==> final(self)@.connected(),
            match r {
                Ok(face) => {
                    &&& triangle_error(old(self)@, corner_numbers(points)) is None
                    &&& final(self)@ == with_triangle(old(self)@, corner_numbers(points))
                    &&& face@ == old(self)@.face_points.len() + 1
                },
                Err(e) => {
                    &&& triangle_error(old(self)@, corner_numbers(points)) == Some(e)
                    &&& final(self)@ == old(self)@
                },
            },
    {
        let at0: u32 = points[0].raw();
        let at1: u32 = points[1].raw();
        let at2: u32 = points[2].raw();
        let point_count: usize = vector_table_len(&self.data_points_position);
        if at0 as usize > point_count || at1 as usize > point_count || at2 as usize > point_count {
            return Err(MeshError::MissingPoint);
        }
        if at0 == at1 || at1 == at2 || at0 == at2 {
            return Err(MeshError::DuplicatePoint);
        }
        let (a, b, c) = sort_three(at0, at1, at2);
        let e1: EdgeKey = (a, b);
        let e2: EdgeKey = (b, c);
        let e3: EdgeKey = (a, c);
        let s1 = slots_or_free(edge_table_get(&self.edges, e1));
        let s2 = slots_or_free(edge_table_get(&self.edges, e2));
        let s3 = slots_or_free(edge_table_get(&self.edges, e3));
        if (s1.0 != 0 && s1.1 != 0) || (s2.0 != 0 && s2.1 != 0) || (s3.0 != 0 && s3.1 != 0) {
            return Err(MeshError::EdgeFull);
        }
        let face_count: usize = face_table_len(&self.points_of_face);
        if face_count >= u32::MAX as usize {
            return Err(MeshError::Full);
        }
        let face: u32 = (face_count + 1) as u32;
        let i0: usize = (at0 - 1) as usize;
        let i1: usize = (at1 - 1) as usize;
        let i2: usize = (at2 - 1) as usize;

        face_table_push(&mut self.points_of_face, (at0, at1, at2));
        incidence_table_add(&mut self.faces_of_point, i0, face);
        incidence_table_add(&mut self.faces_of_point, i1, face);
        incidence_table_add(&mut self.faces_of_point, i2, face);
        edge_table_insert(&mut self.edges, e1, take_slot(s1, face));
        edge_table_insert(&mut self.edges, e2, take_slot(s2, face));
        edge_table_insert(&mut self.edges, e3, take_slot(s3, face));
        face_edge_table_push(&mut self.edges_of_face, (e1, e2, e3));
        let normal = normal_of(
            vector_table_get(&self.data_points_position, i0),
            vector_table_get(&self.data_points_position, i1),
            vector_table_get(&self.data_points_position, i2),
        );
        vector_table_push(&mut self.data_faces_normal, normal);

        proof {
            let before = old(self)@;
            let t = corner_numbers(points);
            let after = with_triangle(before, t);
            assert(self@.point_faces =~= after.point_faces);
            assert(self@.edge_faces =~= after.edge_faces);
            assert(self@ == after);
            lemma_with_triangle_keeps(before, t);
        }
        Ok(FaceHandle(face))
    }

    /// Adds the triangles one after the other. If one of them is turned down,
    /// the mesh is left as it was before the first.
    pub fn add_triangles(&mut self, triangles: &Vec<[PointHandle; 3]>) -> (r: Result<
        Vec<FaceHandle>,
        MeshError,
    >)
        requires
            old(self)@.wf(),
        ensures
            final(self)@.wf(),
            old(self)@.connected() ==> final(self)@.connected(),
            match r {
                Ok(faces) => {
                    &&& with_triangles(old(self)@, triangle_numbers(triangles@)) == Ok::<
                        MeshView,
                        MeshError,
                    >(final(self)@)
                    &&& final(self)@.face_points.len() == old(self)@.face_points.len()
                        + triangles.len()
                    &&& faces.len() == triangles.len()
                    &&& forall|i: int|
                        0 <= i < faces.len() ==> (#[trigger] faces[i])@ == old(
                            self,
                        )@.face_points.len() + i + 1
                },
                Err(e) => {
                    &&& with_triangles(old(self)@, triangle_numbers(triangles@)) == Err::<
                        MeshView,
                        MeshError,
                    >(e)
                    &&& final(self)@ == old(self)@
                },
            },
    {
        let saved = self.clone();
        let ghost numbers = triangle_numbers(triangles@);
        let mut faces: Vec<FaceHandle> = Vec::new();
        let mut i: usize = 0;
        while i < triangles.len()
            invariant
                i <= triangles.len(),
                numbers == triangle_numbers(triangles@),
                saved@ == old(self)@,
                old(self)@.wf(),
                self@.wf(),
                old(self)@.connected() ==> self@.connected(),
                self@.face_points.len() == old(self)@.face_points.len() + i,
                with_triangles(old(self)@, numbers.take(i as int)) == Ok::<MeshView, MeshError>(
                    self@,
                ),
                faces.len() == i,
                forall|j: int|
                    0 <= j < faces.len() ==> (#[trigger] faces[j])@ == old(
                        self,
                    )@.face_points.len() + j + 1,
            decreases triangles.len() - i,
        {
            proof {
                assert(numbers.take(i + 1).drop_last() == numbers.take(i as int));
                assert(numbers.take(i + 1).last() == corner_numbers(triangles[i as int]));
            }
            match self.add_tri_with_points(triangles[i]) {
                Ok(face) => {
                    faces.push(face);
                },
                Err(e) => {
                    proof {
                        lemma_with_triangles_fails_on(old(self)@, numbers, i + 1, e);
                    }
                    *self = saved;
                    return Err(e);
                },
            }
            i += 1;
        }
        proof {
            assert(numbers.take(i as int) == numbers);
        }
        Ok(faces)
    }

    /// Builds a strip of triangles on a sequence of points: one triangle on
    /// every three neighbours, every second one with its first two corners
    /// swapped, so that all face the same way. If one of the triangles is
    /// turned down, the mesh is left as it was.
    pub fn add_triangle_strip_with_points(&mut self, points: &Vec<PointHandle>) -> (r: Result<
        Vec<FaceHandle>,
        MeshError,
    >)
        requires
            old(self)@.wf(),
        ensures
            final(self)@.wf(),
            old(self)@.connected() ==> final(self)@.connected(),
            match r {
                Ok(faces) => {
                    &&& with_triangles(old(self)@, strip_triangles(point_numbers(points@)))
                        == Ok::<MeshView, MeshError>(final(self)@)
                    &&& faces.len() == strip_triangles(point_numbers(points@)).len()
                    &&& forall|i: int|
                        0 <= i < faces.len() ==> (#[trigger] faces[i])@ == old(
                            self,
                        )@.face_points.len() + i + 1
                },
                Err(e) => {
                    &&& with_triangles(old(self)@, strip_triangles(point_numbers(points@)))
                        == Err::<MeshView, MeshError>(e)
                    &&& final(self)@ == old(self)@
                },
            },
    {
        let triangles = strip_corners(points);
        self.add_triangles(&triangles)
    }

    /// Adds a point at the given position. No face uses it yet.
    pub fn add_point(&mut self, position: glam::Vec3) -> (point: PointHandle)
        requires
            old(self)@.wf(),
            old(self)@.positions.len() < u32::MAX,
        ensures
            final(self)@ == with_point(old(self)@, position),
            point@ == old(self)@.positions.len() + 1,
            final(self)@.wf(),
            old(self)@.connected() ==> final(self)@.connected(),
    {
        incidence_table_push_empty(&mut self.faces_of_point);
        vector_table_push(&mut self.data_points_position, position);
        let count: usize = vector_table_len(&self.data_points_position);
        proof {
            lemma_with_point_keeps(old(self)@, position);
        }
        PointHandle(count as u32)
    }

    /// Adds a point at each of the positions and returns their handles, in the
    /// order of the positions.
    pub fn add_points(&mut self, positions: &Vec<glam::Vec3>) -> (points: Vec<PointHandle>)
        requires
            old(self)@.wf(),
            old(self)@.positions.len() + positions.len() <= u32::MAX,
        ensures
            final(self)@ == with_points(old(self)@, positions@),
            points.len() == positions.len(),
            forall|i: int|
                0 <= i < points.len() ==> (#[trigger] points[i])@ == old(self)@.positions.len()
                    + i + 1,
            final(self)@.wf(),
            old(self)@.connected() ==> final(self)@.connected(),
    {
        let mut points: Vec<PointHandle> = Vec::new();
        let mut i: usize = 0;
        while i < positions.len()
            invariant
                i <= positions.len(),
                old(self)@.positions.len() + positions.len() <= u32::MAX,
                self@ == with_points(old(self)@, positions@.take(i as int)),
                self@.wf(),
                old(self)@.connected() ==> self@.connected(),
                points.len() == i,
                forall|j: int|
                    0 <= j < points.len() ==> (#[trigger] points[j])@ == old(
                        self,
                    )@.positions.len() + j + 1,
            decreases positions.len() - i,
        {
            let ghost before = self@;
            let point = self.add_point(positions[i]);
            points.push(point);
            proof {
                let grown = with_points(old(self)@, positions@.take(i + 1));
                assert(positions@.take(i + 1) == positions@.take(i as int).push(positions[i as int]));
                assert(self@.positions =~= grown.positions);
                assert(self@.point_faces =~= grown.point_faces);
            }
            i += 1;
        }
        proof {
            assert(positions@.take(i as int) == positions@);
        }
        points
    }

    /// The positions of all points; point `h` is at index `h - 1`.
    pub fn get_points(&self) -> (positions: VectorTable)
        ensures
            vector_rows(positions) == self@.positions,
    {
        vector_table_clone(&self.data_points_position)
    }

    /// The three points of every face, in authored order; face `h` is at index `h - 1`.
    pub fn get_faces(&self) -> (faces: Vec<[PointHandle; 3]>)
        requires
            self@.wf(),
        ensures
            triangle_numbers(faces@) == self@.face_points,
    {
        let count: usize = face_table_len(&self.points_of_face);
        let mut faces: Vec<[PointHandle; 3]> = Vec::new();
        let mut i: usize = 0;
        while i < count
            invariant
                i <= count,
                count == self@.face_points.len(),
                self@.wf(),
                faces.len() == i,
                forall|j: int|
                    0 <= j < i ==> corner_numbers(#[trigger] faces[j]) == self@.face_points[j],
            decreases count - i,
        {
            let row = face_table_get(&self.points_of_face, i);
            assert(corners_ok(self@.face_points[i as int], self@.positions.len()));
            faces.push([PointHandle(row.0), PointHandle(row.1), PointHandle(row.2)]);
            i += 1;
        }
        proof {
            assert(triangle_numbers(faces@) =~= self@.face_points);
        }
        faces
    }

    /// The number of points.
    pub fn point_count(&self) -> (n: usize)
        ensures
            n == self@.positions.len(),
    {
        vector_table_len(&self.data_points_position)
    }

    /// The number of faces.
    pub fn face_count(&self) -> (n: usize)
        ensures
            n == self@.face_points.len(),
    {
        face_table_len(&self.points_of_face)
    }

    /// The normal that was computed for the face when it was added.
    pub fn get_face_normal(&self, face: FaceHandle) -> (r: Result<glam::Vec3, MeshError>)
        requires
            self@.wf(),
        ensures
            r == (if face@ <= self@.face_points.len() {
                Ok::<glam::Vec3, MeshError>(self@.normals[face@ - 1])
            } else {
                Err::<glam::Vec3, MeshError>(MeshError::MissingFace)
            }),
    {
        let i: usize = face.idx();
        if i < face_table_len(&self.points_of_face) {
            Ok(vector_table_get(&self.data_faces_normal, i))
        } else {
            Err(MeshError::MissingFace)
        }
    }

    /// The three points of the face, in authored order.
    pub fn points_in_face(&self, face: FaceHandle) -> (r: Result<[PointHandle; 3], MeshError>)
        requires
            self@.wf(),
        ensures
            match r {
                Ok(points) => face@ <= self@.face_points.len() && corner_numbers(points)
                    == self@.face_points[face@ - 1],
                Err(e) => face@ > self@.face_points.len() && e == MeshError::MissingFace,
            },
    {
        let i: usize = face.idx();
        if i < face_table_len(&self.points_of_face) {
            let row = face_table_get(&self.points_of_face, i);
            assert(corners_ok(self@.face_points[i as int], self@.positions.len()));
            Ok([PointHandle(row.0), PointHandle(row.1), PointHandle(row.2)])
        } else {
            Err(MeshError::MissingFace)
        }
    }

    /// The faces that were built on the point, in the order they were added.
    pub fn faces_in_point(&self, point: PointHandle) -> (r: Result<Vec<FaceHandle>, MeshError>)
        requires
            self@.wf(),
        ensures
            match r {
                Ok(faces) => point@ <= self@.positions.len() && face_numbers(faces@)
                    == self@.point_faces[point@ - 1],
                Err(e) => point@ > self@.positions.len() && e == MeshError::MissingPoint,
            },
    {
        let p: usize = point.idx();
        if p >= vector_table_len(&self.data_points_position) {
            return Err(MeshError::MissingPoint);
        }
        let row = incidence_table_row(&self.faces_of_point, p);
        let mut faces: Vec<FaceHandle> = Vec::new();
        let mut i: usize = 0;
        while i < row.len()
            invariant
                i <= row.len(),
                self@.wf(),
                p < self@.point_faces.len(),
                row@ == self@.point_faces[p as int],
                faces.len() == i,
                forall|j: int| 0 <= j < i ==> (#[trigger] faces[j])@ == row[j],
            decreases row.len() - i,
        {
            assert(1 <= self@.point_faces[p as int][i as int]);
            faces.push(FaceHandle(row[i]));
            i += 1;
        }
        proof {
            assert(face_numbers(faces@) =~= self@.point_faces[p as int]);
        }
        Ok(faces)
    }

    /// The three edges of the face as they were entered when the face was
    /// added: with its corners then in ascending order `a < b < c`, the
    /// edges `(a, b)`, `(b, c)` and `(a, c)`.
    pub fn edges_in_face(&self, face: FaceHandle) -> (r: Result<[EdgeHandle; 3], MeshError>)
        requires
            self@.wf(),
        ensures
            match r {
                Ok(edges) => face@ <= self@.face_points.len() && edge_numbers(edges)
                    == self@.face_edges[face@ - 1],
                Err(e) => face@ > self@.face_points.len() && e == MeshError::MissingFace,
            },
    {
        let i: usize = face.idx();
        if i < face_table_len(&self.points_of_face) {
            let row = face_edge_table_get(&self.edges_of_face, i);
            assert(edges_sound(self@.face_edges[i as int]));
            Ok(
                [
                    EdgeHandle(PointHandle(row.0.0), PointHandle(row.0.1)),
                    EdgeHandle(PointHandle(row.1.0), PointHandle(row.1.1)),
                    EdgeHandle(PointHandle(row.2.0), PointHandle(row.2.1)),
                ],
            )
        } else {
            Err(MeshError::MissingFace)
        }
    }

    /// The two end points of an edge of the mesh.
    pub fn points_in_edge(&self, edge: EdgeHandle) -> (r: Result<[PointHandle; 2], MeshError>)
        ensures
            match r {
                Ok(points) => self@.edge_faces.contains_key((edge@.0 as u32, edge@.1 as u32))
                    && points[0]@ == edge@.0 && points[1]@ == edge@.1,
                Err(e) => !self@.edge_faces.contains_key((edge@.0 as u32, edge@.1 as u32)) && e
                    == MeshError::MissingEdge,
            },
    {
        let key: EdgeKey = (edge.0.raw(), edge.1.raw());
        match edge_table_get(&self.edges, key) {
            Some(_) => Ok([edge.0, edge.1]),
            None => Err(MeshError::MissingEdge),
        }
    }

    /// The faces on the two sides of an edge of the mesh; `None` where the
    /// edge has no face on that side yet.
    pub fn faces_in_edge(&self, edge: EdgeHandle) -> (r: Result<
        (Option<FaceHandle>, Option<FaceHandle>),
        MeshError,
    >)
        ensures
            match r {
                Ok(faces) => {
                    let key = (edge@.0 as u32, edge@.1 as u32);
                    &&& self@.edge_faces.contains_key(key)
                    &&& option_number(faces.0) == self@.edge_faces[key].0
                    &&& option_number(faces.1) == self@.edge_faces[key].1
                },
                Err(e) => !self@.edge_faces.contains_key((edge@.0 as u32, edge@.1 as u32)) && e
                    == MeshError::MissingEdge,
            },
    {
        let key: EdgeKey = (edge.0.raw(), edge.1.raw());
        match edge_table_get(&self.edges, key) {
            Some(slots) => {
                let first = if slots.0 == 0 {
                    None
                } else {
                    Some(FaceHandle(slots.0))
                };
                let second = if slots.1 == 0 {
                    None
                } else {
                    Some(FaceHandle(slots.1))
                };
                Ok((first, second))
            },
            None => Err(MeshError::MissingEdge),
        }
    }

    /// Where the point stands.
    pub fn point_position(&self, point: PointHandle) -> (r: Result<glam::Vec3, MeshError>)
        ensures
            r == (if point@ <= self@.positions.len() {
                Ok::<glam::Vec3, MeshError>(self@.positions[point@ - 1])
            } else {
                Err::<glam::Vec3, MeshError>(MeshError::MissingPoint)
            }),
    {
        let i: usize = point.idx();
        if i < vector_table_len(&self.data_points_position) {
            Ok(vector_table_get(&self.data_points_position, i))
        } else {
            Err(MeshError::MissingPoint)
        }
    }

    /// Moves the three points of a face by `offset`. The normals stay as they
    /// were computed; the caller recomputes what it needs.
    pub fn move_tri(&mut self, face: &FaceHandle, offset: glam::Vec3) -> (r: Result<(), MeshError>)
        requires
            old(self)@.wf(),
        ensures
            final(self)@.wf(),
            old(self)@.connected() ==> final(self)@.connected(),
            match r {
                Ok(_) => {
                    &&& face@ <= old(self)@.face_points.len()
                    &&& final(self)@ == moved_face(old(self)@, face@ - 1, offset)
                },
                Err(e) => {
                    &&& face@ > old(self)@.face_points.len()
                    &&& e == MeshError::MissingFace
                    &&& final(self)@ == old(self)@
                },
            },
    {
        let f: usize = face.idx();
        if f >= face_table_len(&self.points_of_face) {
            return Err(MeshError::MissingFace);
        }
        let row = face_table_get(&self.points_of_face, f);
        assert(corners_ok(old(self)@.face_points[f as int], old(self)@.positions.len()));
        let i0: usize = (row.0 - 1) as usize;
        let i1: usize = (row.1 - 1) as usize;
        let i2: usize = (row.2 - 1) as usize;
        let q0 = sum(vector_table_get(&self.data_points_position, i0), offset);
        vector_table_set(&mut self.data_points_position, i0, q0);
        let q1 = sum(vector_table_get(&self.data_points_position, i1), offset);
        vector_table_set(&mut self.data_points_position, i1, q1);
        let q2 = sum(vector_table_get(&self.data_points_position, i2), offset);
        vector_table_set(&mut self.data_points_position, i2, q2);
        proof {
            let after = moved_face(old(self)@, f as int, offset);
            assert(self@.positions =~= after.positions);
            lemma_positions_keep(old(self)@, after.positions);
        }
        Ok(())
    }

    /// Moves a point by `offset`. The normals stay as they were computed.
    pub fn move_point(&mut self, point: &PointHandle, offset: glam::Vec3) -> (r: Result<
        (),
        MeshError,
    >)
        requires
            old(self)@.wf(),
        ensures
            final(self)@.wf(),
            old(self)@.connected() ==> final(self)@.connected(),
            match r {
                Ok(_) => {
                    &&& point@ <= old(self)@.positions.len()
                    &&& final(self)@ == moved_point(old(self)@, point@ - 1, offset)
                },
                Err(e) => {
                    &&& point@ > old(self)@.positions.len()
                    &&& e == MeshError::MissingPoint
                    &&& final(self)@ == old(self)@
                },
            },
    {
        let i: usize = point.idx();
        if i >= vector_table_len(&self.data_points_position) {
            return Err(MeshError::MissingPoint);
        }
        let moved = sum(vector_table_get(&self.data_points_position, i), offset);
        vector_table_set(&mut self.data_points_position, i, moved);
        proof {
            lemma_positions_keep(old(self)@, self@.positions);
        }
        Ok(())
    }

    /// Binds a face to three other points. Only the face's own row changes:
    /// the entries at points and edges, and the normal, stay as they were,
    /// so the mesh may no longer be `connected` afterwards.
    pub fn rebind_tri(&mut self, face: FaceHandle, points: [PointHandle; 3]) -> (r: Result<
        (),
        MeshError,
    >)
        requires
            old(self)@.wf(),
        ensures
            final(self)@.wf(),
            r == rebind_result(old(self)@, face@, corner_numbers(points)),
            match r {
                Ok(_) => final(self)@ == (MeshView {
                    face_points: old(self)@.face_points.update(
                        face@ - 1,
                        corner_numbers(points),
                    ),
                    ..old(self)@
                }),
                Err(_) => final(self)@ == old(self)@,
            },
    {
        let f: usize = face.idx();
        if f >= face_table_len(&self.points_of_face) {
            return Err(MeshError::MissingFace);
        }
        let at0: u32 = points[0].raw();
        let at1: u32 = points[1].raw();
        let at2: u32 = points[2].raw();
        let point_count: usize = vector_table_len(&self.data_points_position);
        if at0 as usize > point_count || at1 as usize > point_count || at2 as usize > point_count {
            return Err(MeshError::MissingPoint);
        }
        if at0 == at1 || at1 == at2 || at0 == at2 {
            return Err(MeshError::DuplicatePoint);
        }
        face_table_set(&mut self.points_of_face, f, (at0, at1, at2));
        proof {
            assert forall|g: int| 0 <= g < self@.face_points.len() implies corners_ok(
                #[trigger] self@.face_points[g],
                self@.positions.len(),
            ) by {
                if g != f {
                    assert(self@.face_points[g] == old(self)@.face_points[g]);
                }
            }
        }
        Ok(())
    }

    /// Adds a point where another point stands.
    pub fn duplicate_point(&mut self, point_handle: &PointHandle) -> (r: Result<
        PointHandle,
        MeshError,
    >)
        requires
            old(self)@.wf(),
            old(self)@.positions.len() < u32::MAX,
        ensures
            final(self)@.wf(),
            old(self)@.connected() ==> final(self)@.connected(),
            match r {
                Ok(point) => {
                    &&& point_handle@ <= old(self)@.positions.len()
                    &&& final(self)@ == with_point(
                        old(self)@,
                        old(self)@.positions[point_handle@ - 1],
                    )
                    &&& point@ == old(self)@.positions.len() + 1
                },
                Err(e) => {
                    &&& point_handle@ > old(self)@.positions.len()
                    &&& e == MeshError::MissingPoint
                    &&& final(self)@ == old(self)@
                },
            },
    {
        let i: usize = point_handle.idx();
        if i >= vector_table_len(&self.data_points_position) {
            return Err(MeshError::MissingPoint);
        }
        let position = vector_table_get(&self.data_points_position, i);
        Ok(self.add_point(position))
    }
}

/// What a renderer needs to draw a mesh with flat faces: three vertices for
/// each face, each with the face's normal, and the index of each vertex.
pub struct RenderArrays {
    pub vertices: Vec<glam::Vec3>,
    pub normals: Vec<glam::Vec3>,
    pub indices: Vec<i32>,
}

/// The corner of a face that is drawn at place `k`: the corners are drawn in
/// the reverse of the order in which they were given.
pub open spec fn drawn_corner(t: (u32, u32, u32), k: int) -> u32 {
    if k == 0 {
        t.2
    } else if k == 1 {
        t.1
    } else {
        t.0
    }
}

impl OneiroiMesh {
    /// The arrays from which a renderer draws the mesh: for each face, in
    /// order, its three corners in the reverse of the order in which they
    /// were given, each at its position and with the normal of the face; the
    /// vertices are indexed in the order they stand in.
    pub fn render_arrays(&self) -> (arrays: RenderArrays)
        requires
            self@.wf(),
            3 * self@.face_points.len() <= i32::MAX,
        ensures
            arrays.vertices.len() == 3 * self@.face_points.len(),
            arrays.normals.len() == arrays.vertices.len(),
            arrays.indices.len() == arrays.vertices.len(),
            forall|f: int, k: int|
                0 <= f < self@.face_points.len() && 0 <= k < 3 ==> #[trigger] arrays.vertices[3 * f
                    + k] == self@.positions[drawn_corner(self@.face_points[f], k) - 1],
            forall|f: int, k: int|
                0 <= f < self@.face_points.len() && 0 <= k < 3 ==> #[trigger] arrays.normals[3 * f
                    + k] == self@.normals[f],
            forall|j: int| 0 <= j < arrays.indices.len() ==> #[trigger] arrays.indices[j] == j,
    {
        let count: usize = face_table_len(&self.points_of_face);
        let mut vertices: Vec<glam::Vec3> = Vec::new();
        let mut normals: Vec<glam::Vec3> = Vec::new();
        let mut indices: Vec<i32> = Vec::new();
        let mut f: usize = 0;
        while f < count
            invariant
                f <= count,
                count == self@.face_points.len(),
                3 * count <= i32::MAX,
                self@.wf(),
                vertices.len() == 3 * f,
                normals.len() == 3 * f,
                indices.len() == 3 * f,
                forall|g: int, k: int|
                    0 <= g < f && 0 <= k < 3 ==> #[trigger] vertices[3 * g + k]
                        == self@.positions[drawn_corner(self@.face_points[g], k) - 1],
                forall|g: int, k: int|
                    0 <= g < f && 0 <= k < 3 ==> #[trigger] normals[3 * g + k] == self@.normals[g],
                forall|j: int| 0 <= j < indices.len() ==> #[trigger] indices[j] == j,
            decreases count - f,
        {
            let row = face_table_get(&self.points_of_face, f);
            proof {
                assert(corners_ok(self@.face_points[f as int], self@.positions.len()));
            }
            let normal = vector_table_get(&self.data_faces_normal, f);
            let ghost before_vertices = vertices@;
            let ghost before_normals = normals@;
            vertices.push(vector_table_get(&self.data_points_position, (row.2 - 1) as usize));
            vertices.push(vector_table_get(&self.data_points_position, (row.1 - 1) as usize));
            vertices.push(vector_table_get(&self.data_points_position, (row.0 - 1) as usize));
            normals.push(normal);
            normals.push(normal);
            normals.push(normal);
            let base: i32 = (3 * f) as i32;
            indices.push(base);
            indices.push(base + 1);
            indices.push(base + 2);
            proof {
                assert forall|g: int, k: int| 0 <= g < f + 1 && 0 <= k < 3 implies #[trigger] vertices[3
                    * g + k] == self@.positions[drawn_corner(self@.face_points[g], k) - 1] by {
                    if g < f {
                        assert(vertices[3 * g + k] == before_vertices[3 * g + k]);
                    }
                }
                assert forall|g: int, k: int| 0 <= g < f + 1 && 0 <= k < 3 implies #[trigger] normals[3
                    * g + k] == self@.normals[g] by {
                    if g < f {
                        assert(normals[3 * g + k] == before_normals[3 * g + k]);
                    }
                }
            }
            f += 1;
        }
        RenderArrays { vertices, normals, indices }
    }
}

/// The corners of each triangle, as numbers.
pub open spec fn triangle_numbers(triangles: Seq<[PointHandle; 3]>) -> Seq<(u32, u32, u32)> {
    Seq::new(triangles.len(), |i: int| corner_numbers(triangles[i]))
}

/// The numbers of the points.
pub open spec fn point_numbers(points: Seq<PointHandle>) -> Seq<u32> {
    Seq::new(points.len(), |i: int| points[i]@ as u32)
}

/// The numbers of the faces.
pub open spec fn face_numbers(faces: Seq<FaceHandle>) -> Seq<u32> {
    Seq::new(faces.len(), |i: int| faces[i]@ as u32)
}

/// The number of a face, or 0 for none.
pub open spec fn option_number(face: Option<FaceHandle>) -> u32 {
    match face {
        Some(f) => f@ as u32,
        None => 0,
    }
}

/// The three edges as pairs of numbers.
pub open spec fn edge_numbers(edges: [EdgeHandle; 3]) -> (EdgeKey, EdgeKey, EdgeKey) {
    (
        (edges[0]@.0 as u32, edges[0]@.1 as u32),
        (edges[1]@.0 as u32, edges[1]@.1 as u32),
        (edges[2]@.0 as u32, edges[2]@.1 as u32),
    )
}

/// The mesh after the point at index `i` moved by `offset`.
pub open spec fn moved_point(m: MeshView, i: int, offset: glam::Vec3) -> MeshView {
    MeshView { positions: m.positions.update(i, vec3_sum(m.positions[i], offset)), ..m }
}

/// The mesh after the three points of the face at index `f` moved by `offset`.
pub open spec fn moved_face(m: MeshView, f: int, offset: glam::Vec3) -> MeshView {
    let t = m.face_points[f];
    moved_point(moved_point(moved_point(m, t.0 - 1, offset), t.1 - 1, offset), t.2 - 1, offset)
}

/// Whether a face can be bound to the corners `t`, and why not: the face must
/// be one of the mesh, the corners must be points of the mesh, and no two of
/// them the same.
pub open spec fn rebind_result(m: MeshView, face: int, t: (u32, u32, u32)) -> Result<
    (),
    MeshError,
> {
    let n = m.positions.len();
    if face > m.face_points.len() {
        Err(MeshError::MissingFace)
    } else if !(t.0 <= n && t.1 <= n && t.2 <= n) {
        Err(MeshError::MissingPoint)
    } else if t.0 == t.1 || t.1 == t.2 || t.0 == t.2 {
        Err(MeshError::DuplicatePoint)
    } else {
        Ok(())
    }
}

/// The corners of the triangles of a strip over the points.
pub fn strip_corners(points: &Vec<PointHandle>) -> (triangles: Vec<[PointHandle; 3]>)
    ensures
        triangle_numbers(triangles@) == strip_triangles(point_numbers(points@)),
        triangles.len() <= points.len(),
{
    let mut triangles: Vec<[PointHandle; 3]> = Vec::new();
    if points.len() < 3 {
        proof {
            assert(triangle_numbers(triangles@) =~= strip_triangles(point_numbers(points@)));
        }
        return triangles;
    }
    let windows: usize = points.len() - 2;
    let mut flip = false;
    let mut i: usize = 0;
    while i < windows
        invariant
            i <= windows,
            windows == points.len() - 2,
            flip == (i % 2 == 1),
            triangles.len() == i,
            forall|j: int|
                0 <= j < i ==> corner_numbers(#[trigger] triangles[j]) == strip_triangles(
                    point_numbers(points@),
                )[j],
        decreases windows - i,
    {
        if flip {
            triangles.push([points[i + 1], points[i], points[i + 2]]);
            flip = false;
        } else {
            triangles.push([points[i], points[i + 1], points[i + 2]]);
            flip = true;
        }
        i += 1;
    }
    proof {
        assert(triangle_numbers(triangles@) =~= strip_triangles(point_numbers(points@)));
    }
    triangles
}

/// Once a triangle has been turned down, adding more after it changes nothing
/// of the outcome.
pub proof fn lemma_with_triangles_fails_on(
    m: MeshView,
    tris: Seq<(u32, u32, u32)>,
    k: int,
    e: MeshError,
)
    requires
        0 <= k <= tris.len(),
        with_triangles(m, tris.take(k)) == Err::<MeshView, MeshError>(e),
    ensures
        with_triangles(m, tris) == Err::<MeshView, MeshError>(e),
    decreases tris.len() - k,
{
    if k == tris.len() {
        assert(tris.take(k) == tris);
    } else {
        assert(tris.take(k + 1).drop_last() == tris.take(k));
        lemma_with_triangles_fails_on(m, tris, k + 1, e);
    }
}

/// If the triangles before place `k` can all be added, and the one at place
/// `k` is not turned down by the mesh they give, it can be added too.
pub proof fn lemma_with_triangles_next(
    m: MeshView,
    tris: Seq<(u32, u32, u32)>,
    k: int,
    before: MeshView,
)
    requires
        0 <= k < tris.len(),
        with_triangles(m, tris.take(k)) == Ok::<MeshView, MeshError>(before),
        triangle_error(before, tris[k]) is None,
    ensures
        with_triangles(m, tris.take(k + 1)) == Ok::<MeshView, MeshError>(
            with_triangle(before, tris[k]),
        ),
{
    assert(tris.take(k + 1).drop_last() == tris.take(k));
    assert(tris.take(k + 1).last() == tris[k]);
}

/// Adding a point keeps the arrays in step and the faces entered.
pub proof fn lemma_with_point_keeps(m: MeshView, position: glam::Vec3)
    requires
        m.wf(),
        m.positions.len() < u32::MAX,
    ensures
        with_point(m, position).wf(),
        m.connected() ==> with_point(m, position).connected(),
        with_point(m, position) == with_points(m, seq![position]),
{
    let after = with_point(m, position);
    assert forall|f: int| 0 <= f < after.face_points.len() implies corners_ok(
        #[trigger] after.face_points[f],
        after.positions.len(),
    ) by {
        assert(corners_ok(m.face_points[f], m.positions.len()));
    }
    assert forall|p: int, k: int|
        0 <= p < after.point_faces.len() && 0 <= k < after.point_faces[p].len() implies 1 <= (
    #[trigger] after.point_faces[p][k]) <= after.face_points.len() by {
        if p < m.point_faces.len() {
            assert(after.point_faces[p][k] == m.point_faces[p][k]);
        }
    }
    if m.connected() {
        assert forall|f: int| 0 <= f < after.face_points.len() implies #[trigger] after.face_entered(
            f,
        ) by {
            assert(m.face_entered(f));
            assert(corners_ok(m.face_points[f], m.positions.len()));
        }
    }
    assert(after.positions =~= with_points(m, seq![position]).positions);
    assert(after.point_faces =~= with_points(m, seq![position]).point_faces);
}

/// Moving points changes neither that the arrays are in step nor which faces
/// are entered where.
pub proof fn lemma_positions_keep(m: MeshView, positions: Seq<glam::Vec3>)
    requires
        m.wf(),
        positions.len() == m.positions.len(),
    ensures
        (MeshView { positions, ..m }).wf(),
        m.connected() ==> (MeshView { positions, ..m }).connected(),
{
    let after = MeshView { positions, ..m };
    assert forall|f: int| 0 <= f < after.face_points.len() implies corners_ok(
        #[trigger] after.face_points[f],
        after.positions.len(),
    ) by {
        assert(corners_ok(m.face_points[f], m.positions.len()));
    }
    if m.connected() {
        assert forall|f: int| 0 <= f < after.face_points.len() implies #[trigger] after.face_entered(
            f,
        ) by {
            assert(m.face_entered(f));
        }
    }
}

/// The slots that a lookup in the edge table gave; an unknown edge has two free slots.
fn slots_or_free(found: Option<(u32, u32)>) -> (slots: (u32, u32))
    ensures
        slots == (match found {
            Some(s) => s,
            None => (0u32, 0u32),
        }),
{
    match found {
        Some(s) => s,
        None => (0, 0),
    }
}

/// The slots after the face took the first free one.
fn take_slot(slots: (u32, u32), face: u32) -> (r: (u32, u32))
    ensures
        r == slots_with(slots, face),
{
    if slots.0 == 0 {
        (face, slots.1)
    } else {
        (slots.0, face)
    }
}

/// Adding a triangle that is not turned down keeps the arrays in step and the
/// faces entered.
pub proof fn lemma_with_triangle_keeps(m: MeshView, t: (u32, u32, u32))
    requires
        m.wf(),
        triangle_error(m, t) is None,
    ensures
        with_triangle(m, t).wf(),
        m.connected() ==> with_triangle(m, t).connected(),
{
    let after = with_triangle(m, t);
    let face = (m.face_points.len() + 1) as u32;
    let (e1, e2, e3) = canonical_edges(t);
    assert forall|f: int| 0 <= f < after.face_points.len() implies corners_ok(
        #[trigger] after.face_points[f],
        after.positions.len(),
    ) by {
        if f < m.face_points.len() {
            assert(after.face_points[f] == m.face_points[f]);
        }
    }
    assert forall|p: int, k: int|
        0 <= p < after.point_faces.len() && 0 <= k < after.point_faces[p].len() implies 1 <= (
    #[trigger] after.point_faces[p][k]) <= after.face_points.len() by {
        if k < m.point_faces[p].len() {
            assert(after.point_faces[p][k] == m.point_faces[p][k]);
        }
    }
    if m.connected() {
        assert forall|f: int| 0 <= f < after.face_points.len() implies #[trigger] after.face_entered(
            f,
        ) by {
            if f < m.face_points.len() {
                assert(m.face_entered(f));
                assert(corners_ok(m.face_points[f], m.positions.len()));
                let old_face = (f + 1) as u32;
                let u = m.face_points[f];
                assert(after.face_points[f] == u);
                assert(after.point_faces[u.0 - 1].contains(old_face)) by {
                    lemma_row_keeps(m, t, u.0 - 1, old_face);
                }
                assert(after.point_faces[u.1 - 1].contains(old_face)) by {
                    lemma_row_keeps(m, t, u.1 - 1, old_face);
                }
                assert(after.point_faces[u.2 - 1].contains(old_face)) by {
                    lemma_row_keeps(m, t, u.2 - 1, old_face);
                }
            } else {
                assert(after.face_points[f] == t);
                assert(after.point_faces[t.0 - 1].last() == face);
                assert(after.point_faces[t.1 - 1].last() == face);
                assert(after.point_faces[t.2 - 1].last() == face);
            }
        }
    }
}

/// A face that a point's row held before a triangle was added is still in it.
proof fn lemma_row_keeps(m: MeshView, t: (u32, u32, u32), i: int, face: u32)
    requires
        m.wf(),
        triangle_error(m, t) is None,
        0 <= i < m.point_faces.len(),
        m.point_faces[i].contains(face),
    ensures
        with_triangle(m, t).point_faces[i].contains(face),
{
    let after = with_triangle(m, t);
    let k = choose|k: int| 0 <= k < m.point_faces[i].len() && m.point_faces[i][k] == face;
    let new_face = (m.face_points.len() + 1) as u32;
    if i == t.0 - 1 || i == t.1 - 1 || i == t.2 - 1 {
        assert(after.point_faces[i] == m.point_faces[i].push(new_face));
        assert(after.point_faces[i][k] == face);
    } else {
        assert(after.point_faces[i] == m.point_faces[i]);
    }
}


/// Every face of a mesh stands on three different points, and in a connected
/// mesh each of its three canonical edges has the face in one of its two slots.
pub proof fn law_face_on_distinct_points_and_listed_at_its_edges(m: OneiroiMesh, f: int)
    requires
        m@.wf(),
        0 <= f < m@.face_points.len(),
    ensures
        m@.face_points[f].0 != m@.face_points[f].1,
        m@.face_points[f].1 != m@.face_points[f].2,
        m@.face_points[f].0 != m@.face_points[f].2,
        m@.connected() ==> {
            let (e1, e2, e3) = canonical_edges(m@.face_points[f]);
            &&& m@.face_edges[f] == (e1, e2, e3)
            &&& m@.edge_faces.contains_key(e1) && slots_list(m@.edge_faces[e1], (f + 1) as u32)
            &&& m@.edge_faces.contains_key(e2) && slots_list(m@.edge_faces[e2], (f + 1) as u32)
            &&& m@.edge_faces.contains_key(e3) && slots_list(m@.edge_faces[e3], (f + 1) as u32)
        },
{
    assert(corners_ok(m@.face_points[f], m@.positions.len()));
    if m@.connected() {
        assert(m@.face_entered(f));
    }
}

/// In a connected mesh no edge lies on three faces: of any three faces that
/// have the edge among their canonical edges, two are the same face.
pub proof fn law_no_edge_on_three_faces(m: OneiroiMesh, edge: EdgeKey, f: int, g: int, h: int)
    requires
        m@.wf(),
        m@.connected(),
        0 <= f < m@.face_points.len(),
        0 <= g < m@.face_points.len(),
        0 <= h < m@.face_points.len(),
        m@.face_has_edge(f, edge),
        m@.face_has_edge(g, edge),
        m@.face_has_edge(h, edge),
    ensures
        f == g || g == h || f == h,
{
    assert(m@.face_entered(f));
    assert(m@.face_entered(g));
    assert(m@.face_entered(h));
    let slots = m@.edge_faces[edge];
    assert(slots_list(slots, (f + 1) as u32));
    assert(slots_list(slots, (g + 1) as u32));
    assert(slots_list(slots, (h + 1) as u32));
}

/// The two faces of an edge are different faces of the mesh: where both
/// slots of an edge are taken, each holds a face that the mesh has, and the
/// two are not the same.
pub proof fn law_two_faces_of_an_edge_differ(m: OneiroiMesh, edge: EdgeKey)
    requires
        m@.wf(),
        m@.edge_faces.contains_key(edge),
        slots_full(m@.edge_faces[edge]),
    ensures
        1 <= m@.edge_faces[edge].0 <= m@.face_points.len(),
        1 <= m@.edge_faces[edge].1 <= m@.face_points.len(),
        m@.edge_faces[edge].0 != m@.edge_faces[edge].1,
{
    assert(slots_sound(m@.edge_faces[edge], m@.face_points.len()));
}

/// A triangle on an edge that already has two faces is turned down: whatever
/// its corners, as long as they are three different points of the mesh, the
/// mesh reports the full edge.
pub proof fn law_third_face_is_turned_down(m: OneiroiMesh, t: (u32, u32, u32), edge: EdgeKey)
    requires
        corners_ok(t, m@.positions.len()),
        edge == canonical_edges(t).0 || edge == canonical_edges(t).1 || edge == canonical_edges(
            t,
        ).2,
        m@.edge_faces.contains_key(edge),
        slots_full(m@.edge_faces[edge]),
    ensures
        triangle_error(m@, t) == Some(MeshError::EdgeFull),
        with_triangles(m@, seq![t]) == Err::<MeshView, MeshError>(MeshError::EdgeFull),
{
    assert(seq![t].drop_last() =~= Seq::<(u32, u32, u32)>::empty());
    assert(seq![t].last() == t);
    reveal_with_fuel(with_triangles, 2);
}


/// Triangles that can all be added become the last faces of the mesh, in
/// their order, each with its canonical edges; the points stay as they are.
pub proof fn lemma_with_triangles_rows(m: MeshView, tris: Seq<(u32, u32, u32)>)
    requires
        with_triangles(m, tris) is Ok,
    ensures
        with_triangles(m, tris)->Ok_0.positions == m.positions,
        with_triangles(m, tris)->Ok_0.face_points == m.face_points + tris,
        with_triangles(m, tris)->Ok_0.face_edges == m.face_edges + Seq::new(
            tris.len(),
            |i: int| canonical_edges(tris[i]),
        ),
        with_triangles(m, tris)->Ok_0.normals.len() == m.normals.len() + tris.len(),
    decreases tris.len(),
{
    let r = with_triangles(m, tris)->Ok_0;
    if tris.len() == 0 {
        assert(r.face_points =~= m.face_points + tris);
        assert(r.face_edges =~= m.face_edges + Seq::new(
            tris.len(),
            |i: int| canonical_edges(tris[i]),
        ));
    } else {
        let front = tris.drop_last();
        lemma_with_triangles_rows(m, front);
        assert(r.face_points =~= m.face_points + tris);
        assert(r.face_edges =~= m.face_edges + Seq::new(
            tris.len(),
            |i: int| canonical_edges(tris[i]),
        ));
    }
}

/// How many of the two slots are taken.
pub open spec fn occupancy(slots: (u32, u32)) -> nat {
    (if slots.0 != 0 {
        1nat
    } else {
        0nat
    }) + (if slots.1 != 0 {
        1nat
    } else {
        0nat
    })
}

/// The edge is one of the three canonical edges of a triangle on these corners.
pub open spec fn uses_edge(t: (u32, u32, u32), edge: EdgeKey) -> bool {
    edge == canonical_edges(t).0 || edge == canonical_edges(t).1 || edge == canonical_edges(t).2
}

/// How many of the triangles have the edge among their canonical edges.
pub open spec fn edge_uses(tris: Seq<(u32, u32, u32)>, edge: EdgeKey) -> nat
    decreases tris.len(),
{
    if tris.len() == 0 {
        0
    } else {
        edge_uses(tris.drop_last(), edge) + (if uses_edge(tris.last(), edge) {
            1nat
        } else {
            0nat
        })
    }
}

/// The uses of an edge in two lists of triangles add up.
pub proof fn lemma_edge_uses_add(
    first: Seq<(u32, u32, u32)>,
    second: Seq<(u32, u32, u32)>,
    edge: EdgeKey,
)
    ensures
        edge_uses(first + second, edge) == edge_uses(first, edge) + edge_uses(second, edge),
    decreases second.len(),
{
    if second.len() == 0 {
        assert(first + second == first);
    } else {
        assert((first + second).drop_last() == first + second.drop_last());
        assert((first + second).last() == second.last());
        lemma_edge_uses_add(first, second.drop_last(), edge);
    }
}

/// Triangles on points of the mesh, each on three different points, can all
/// be added as long as no edge comes to lie on more than two faces. Each
/// edge then has as many slots taken as before, and one more for every
/// triangle that uses it.
pub proof fn lemma_triangles_fit(m: MeshView, tris: Seq<(u32, u32, u32)>)
    requires
        m.face_points.len() + tris.len() <= u32::MAX,
        forall|i: int| 0 <= i < tris.len() ==> corners_ok(#[trigger] tris[i], m.positions.len()),
        forall|e: EdgeKey| occupancy(slots_of(m.edge_faces, e)) + #[trigger] edge_uses(tris, e) <= 2,
    ensures
        with_triangles(m, tris) is Ok,
        with_triangles(m, tris)->Ok_0.positions == m.positions,
        with_triangles(m, tris)->Ok_0.face_points.len() == m.face_points.len() + tris.len(),
        forall|e: EdgeKey|
            occupancy(slots_of(with_triangles(m, tris)->Ok_0.edge_faces, e)) == occupancy(
                slots_of(m.edge_faces, e),
            ) + #[trigger] edge_uses(tris, e),
    decreases tris.len(),
{
    if tris.len() > 0 {
        let front = tris.drop_last();
        let t = tris.last();
        assert forall|i: int| 0 <= i < front.len() implies corners_ok(
            #[trigger] front[i],
            m.positions.len(),
        ) by {
            assert(front[i] == tris[i]);
        }
        assert forall|e: EdgeKey|
            occupancy(slots_of(m.edge_faces, e)) + #[trigger] edge_uses(front, e) <= 2 by {
            assert(edge_uses(front, e) <= edge_uses(tris, e));
        }
        lemma_triangles_fit(m, front);
        let before = with_triangles(m, front)->Ok_0;
        assert(corners_ok(tris[tris.len() - 1], m.positions.len()));
        let (e1, e2, e3) = canonical_edges(t);
        assert(uses_edge(t, e1) && uses_edge(t, e2) && uses_edge(t, e3));
        assert(occupancy(slots_of(m.edge_faces, e1)) + edge_uses(tris, e1) <= 2);
        assert(occupancy(slots_of(m.edge_faces, e2)) + edge_uses(tris, e2) <= 2);
        assert(occupancy(slots_of(m.edge_faces, e3)) + edge_uses(tris, e3) <= 2);
        assert(occupancy(slots_of(before.edge_faces, e1)) == occupancy(slots_of(m.edge_faces, e1))
            + edge_uses(front, e1));
        assert(occupancy(slots_of(before.edge_faces, e2)) == occupancy(slots_of(m.edge_faces, e2))
            + edge_uses(front, e2));
        assert(occupancy(slots_of(before.edge_faces, e3)) == occupancy(slots_of(m.edge_faces, e3))
            + edge_uses(front, e3));
        assert(triangle_error(before, t) is None);
        let after = with_triangle(before, t);
        assert(with_triangles(m, tris) == Ok::<MeshView, MeshError>(after));
        let face = (before.face_points.len() + 1) as u32;
        assert(face != 0);
        assert forall|e: EdgeKey|
            occupancy(slots_of(after.edge_faces, e)) == occupancy(slots_of(m.edge_faces, e))
                + #[trigger] edge_uses(tris, e) by {
            assert(occupancy(slots_of(before.edge_faces, e)) == occupancy(
                slots_of(m.edge_faces, e),
            ) + edge_uses(front, e));
            if e == e1 || e == e2 || e == e3 {
                assert(uses_edge(t, e));
            } else {
                assert(!uses_edge(t, e));
                assert(slots_of(after.edge_faces, e) == slots_of(before.edge_faces, e));
            }
        }
    }
}

} // verus!
